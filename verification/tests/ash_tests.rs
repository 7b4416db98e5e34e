use pangea_kernel::sip::ash::{AshContext, AshJit, AshVm, Instruction, JitError, Reg};

const PROLOGUE: [u8; 14] = [0x53, 0x55, 0x31, 0xc0, 0x31, 0xc9, 0x31, 0xd2, 0x31, 0xdb, 0x31, 0xed, 0x31, 0xf6];

fn ctx() -> AshContext {
    let mut data = [0u8; 64];
    data[0] = 0x45;
    data[12] = 192;
    data[63] = 7;
    AshContext { data }
}

#[test]
fn vm_arithmetic_returns_r0() {
    let prog = [
        Instruction::LoadImm(Reg::R0, 5),
        Instruction::LoadImm(Reg::R1, 7),
        Instruction::Add(Reg::R0, Reg::R1),
        Instruction::Exit,
    ];
    let mut vm = AshVm::new();
    assert_eq!(vm.execute(&prog, &ctx()), 12);
}

#[test]
fn vm_wrapping_and_bitwise() {
    let prog = [
        Instruction::LoadImm(Reg::R1, 1),
        Instruction::Sub(Reg::R0, Reg::R1),
        Instruction::LoadImm(Reg::R2, 0xff00),
        Instruction::And(Reg::R0, Reg::R2),
        Instruction::LoadImm(Reg::R3, 0x0f),
        Instruction::Or(Reg::R0, Reg::R3),
        Instruction::Xor(Reg::R0, Reg::R1),
    ];
    let mut vm = AshVm::new();
    // 0 - 1 wraps to all ones; & 0xff00; | 0x0f; ^ 1
    assert_eq!(vm.execute(&prog, &ctx()), 0xff0e);
}

#[test]
fn vm_registers_start_at_zero_each_run() {
    let mut vm = AshVm::new();
    let set = [Instruction::LoadImm(Reg::R5, 9), Instruction::LoadImm(Reg::R0, 1)];
    assert_eq!(vm.execute(&set, &ctx()), 1);
    let add = [Instruction::Add(Reg::R0, Reg::R5)];
    assert_eq!(vm.execute(&add, &ctx()), 0);
}

#[test]
fn vm_jump_forward_when_equal() {
    let prog = [
        Instruction::LoadImm(Reg::R1, 3),
        Instruction::LoadImm(Reg::R2, 3),
        Instruction::JeqFwd(Reg::R1, Reg::R2, 1),
        Instruction::LoadImm(Reg::R0, 100),
        Instruction::LoadImm(Reg::R4, 1),
        Instruction::Add(Reg::R0, Reg::R4),
        Instruction::Exit,
    ];
    let mut vm = AshVm::new();
    assert_eq!(vm.execute(&prog, &ctx()), 1);
}

#[test]
fn vm_jump_not_taken_when_different() {
    let prog = [
        Instruction::LoadImm(Reg::R1, 3),
        Instruction::JeqFwd(Reg::R1, Reg::R2, 1),
        Instruction::LoadImm(Reg::R0, 100),
        Instruction::Exit,
    ];
    let mut vm = AshVm::new();
    assert_eq!(vm.execute(&prog, &ctx()), 100);
}

#[test]
fn vm_jump_past_end_stops() {
    let prog = [Instruction::LoadImm(Reg::R0, 4), Instruction::JeqFwd(Reg::R1, Reg::R2, 200), Instruction::LoadImm(Reg::R0, 9)];
    let mut vm = AshVm::new();
    assert_eq!(vm.execute(&prog, &ctx()), 4);
}

#[test]
fn vm_exit_stops_early() {
    let prog = [Instruction::LoadImm(Reg::R0, 2), Instruction::Exit, Instruction::LoadImm(Reg::R0, 3)];
    let mut vm = AshVm::new();
    assert_eq!(vm.execute(&prog, &ctx()), 2);
}

#[test]
fn vm_context_loads_are_bounds_checked() {
    let mut vm = AshVm::new();
    let prog = [Instruction::LoadContext(Reg::R0, 12)];
    assert_eq!(vm.execute(&prog, &ctx()), 192);
    let prog = [Instruction::LoadContext(Reg::R0, 63)];
    assert_eq!(vm.execute(&prog, &ctx()), 7);
    let prog = [Instruction::LoadImm(Reg::R0, 5), Instruction::LoadContext(Reg::R0, 64)];
    assert_eq!(vm.execute(&prog, &ctx()), 0);
}

#[test]
fn vm_empty_program_returns_zero() {
    let mut vm = AshVm::new();
    assert_eq!(vm.execute(&[], &ctx()), 0);
}

#[test]
fn jit_prologue_and_simple_program() {
    let mut jit = AshJit::new();
    assert_eq!(jit.len(), 0);
    let r = jit.compile_with_key(&[Instruction::LoadImm(Reg::R0, 0x0102030405060708), Instruction::Exit], 0xff);
    assert_eq!(r, Ok(()));
    let mut expected = PROLOGUE.to_vec();
    // mov rax, imm ^ key; mov r11, key; xor rax, r11
    expected.extend_from_slice(&[0x48, 0xb8, 0xf7, 0x07, 0x06, 0x05, 0x04, 0x03, 0x02, 0x01]);
    expected.extend_from_slice(&[0x49, 0xbb, 0xff, 0, 0, 0, 0, 0, 0, 0]);
    expected.extend_from_slice(&[0x4c, 0x31, 0xd8]);
    expected.extend_from_slice(&[0x5d, 0x5b, 0xc3]);
    assert_eq!(jit.code(), &expected);
    assert_eq!(jit.len(), expected.len());
}

#[test]
fn jit_register_mapping_and_alu() {
    let mut jit = AshJit::new();
    let _ = jit.compile_with_key(&[
        Instruction::Add(Reg::R0, Reg::R1),
        Instruction::Sub(Reg::R4, Reg::R5),
        Instruction::And(Reg::R2, Reg::R3),
        Instruction::Or(Reg::R1, Reg::R0),
        Instruction::Xor(Reg::R5, Reg::R4),
        Instruction::LoadImm(Reg::R4, 0),
    ], 0);
    let body = &jit.code()[14..];
    assert_eq!(&body[0..3], &[0x48, 0x01, 0xc8]); // add rax, rcx
    assert_eq!(&body[3..6], &[0x48, 0x29, 0xf5]); // sub rbp, rsi
    assert_eq!(&body[6..9], &[0x48, 0x21, 0xda]); // and rdx, rbx
    assert_eq!(&body[9..12], &[0x48, 0x09, 0xc1]); // or rcx, rax
    assert_eq!(&body[12..15], &[0x48, 0x31, 0xee]); // xor rsi, rbp
    assert_eq!(&body[15..17], &[0x48, 0xbd]); // mov rbp, imm64
    assert_eq!(&body[35..38], &[0x4c, 0x31, 0xdd]); // xor rbp, r11
}

#[test]
fn jit_context_loads() {
    let mut jit = AshJit::new();
    let _ = jit.compile_with_key(&[Instruction::LoadContext(Reg::R1, 12), Instruction::LoadContext(Reg::R2, 64)], 7);
    let body = &jit.code()[14..];
    assert_eq!(&body[0..5], &[0x48, 0x0f, 0xb6, 0x4f, 12]); // movzx rcx, byte [rdi+12]
    assert_eq!(&body[5..12], &[0x48, 0xc7, 0xc2, 0, 0, 0, 0]); // mov rdx, 0
}

#[test]
fn jit_forward_jump_lands_on_target() {
    let mut jit = AshJit::new();
    let _ = jit.compile_with_key(&[
        Instruction::JeqFwd(Reg::R0, Reg::R1, 1),
        Instruction::LoadImm(Reg::R0, 2),
        Instruction::Exit,
    ], 3);
    let body = &jit.code()[14..];
    // cmp rax, rcx; je +23 (over the 23-byte blinded load to the exit)
    assert_eq!(&body[0..9], &[0x48, 0x39, 0xc8, 0x0f, 0x84, 23, 0, 0, 0]);
    assert_eq!(&body[32..35], &[0x5d, 0x5b, 0xc3]);
}

#[test]
fn jit_jump_past_end_falls_back_to_last_instruction() {
    let mut jit = AshJit::new();
    let _ = jit.compile_with_key(&[Instruction::LoadImm(Reg::R0, 1), Instruction::JeqFwd(Reg::R0, Reg::R0, 5)], 1);
    let body = &jit.code()[14..];
    // the last instruction is the jump itself: displacement -9
    assert_eq!(&body[23..32], &[0x48, 0x39, 0xc0, 0x0f, 0x84, 0xf7, 0xff, 0xff, 0xff]);
}

#[test]
fn jit_empty_program_is_prologue_only() {
    let mut jit = AshJit::new();
    assert_eq!(jit.compile_with_key(&[], 9), Ok(()));
    assert_eq!(jit.code(), &PROLOGUE.to_vec());
}

#[test]
fn jit_immediates_are_blinded() {
    let mut jit = AshJit::new();
    let v: u64 = 0x0F05_0F05_0F05_0F05;
    let key: u64 = 0x1234_5678_9abc_def0;
    assert_eq!(jit.compile_with_key(&[Instruction::LoadImm(Reg::R0, v), Instruction::Exit], key), Ok(()));
    let body = &jit.code()[14..];
    assert_eq!(&body[0..2], &[0x48, 0xb8]);
    assert_eq!(&body[2..10], &(v ^ key).to_le_bytes());
    assert_eq!(&body[10..12], &[0x49, 0xbb]);
    assert_eq!(&body[12..20], &key.to_le_bytes());
    assert_eq!(&body[20..23], &[0x4c, 0x31, 0xd8]);
    let imm = u64::from_le_bytes(body[2..10].try_into().unwrap());
    let k = u64::from_le_bytes(body[12..20].try_into().unwrap());
    assert_eq!(imm ^ k, v);
    assert!(!body.windows(8).any(|w| w == v.to_le_bytes()));
}

#[test]
fn jit_rejects_code_larger_than_its_page() {
    let mut jit = AshJit::new();
    assert_eq!(jit.compile_with_key(&[Instruction::Exit], 5), Ok(()));
    let before = jit.code().clone();
    let prog = [Instruction::LoadImm(Reg::R0, 0); 500];
    assert_eq!(jit.compile_with_key(&prog, 5), Err(JitError::CodeTooLarge));
    assert_eq!(jit.code(), &before);
    assert_eq!(jit.compile(&prog), Err(JitError::CodeTooLarge));
    assert_eq!(jit.code(), &before);
    assert!(jit.len() <= 4096);
}

#[test]
fn jit_accepts_code_that_just_fits() {
    let mut jit = AshJit::new();
    // 14 + 1360 * 3 = 4094 bytes
    let fits = [Instruction::Exit; 1360];
    assert_eq!(jit.compile_with_key(&fits, 0), Ok(()));
    assert_eq!(jit.len(), 4094);
    let too_long = [Instruction::Exit; 1361];
    assert_eq!(jit.compile_with_key(&too_long, 0), Err(JitError::CodeTooLarge));
    assert_eq!(jit.len(), 4094);
}

#[test]
fn jit_compile_draws_a_key() {
    let mut jit = AshJit::new();
    let v: u64 = 42;
    match jit.compile(&[Instruction::LoadImm(Reg::R1, v), Instruction::Exit]) {
        Ok(()) => {
            let body = &jit.code()[14..];
            assert_eq!(jit.len(), 14 + 23 + 3);
            let imm = u64::from_le_bytes(body[2..10].try_into().unwrap());
            let k = u64::from_le_bytes(body[12..20].try_into().unwrap());
            assert_eq!(imm ^ k, v);
        }
        Err(e) => {
            assert_eq!(e, JitError::NoEntropy);
            assert_eq!(jit.len(), 0);
        }
    }
}

#[test]
fn vm_result_ignores_bytes_never_loaded() {
    let prog = [
        Instruction::LoadContext(Reg::R0, 12),
        Instruction::LoadContext(Reg::R1, 0),
        Instruction::Add(Reg::R0, Reg::R1),
        Instruction::Exit,
    ];
    let a = ctx();
    let mut other = ctx().data;
    other[5] = 0xaa;
    other[63] = 0x55;
    let b = AshContext { data: other };
    let mut vm = AshVm::new();
    let ra = vm.execute(&prog, &a);
    let rb = vm.execute(&prog, &b);
    assert_eq!(ra, 192 + 0x45);
    assert_eq!(ra, rb);
    // a byte the program does load changes the result
    other[12] = 1;
    assert_eq!(vm.execute(&prog, &AshContext { data: other }), 1 + 0x45);
}
