//! ASH: a tiny register bytecode for packet handlers, its interpreter, and
//! its compilation to x86-64 machine code.
use vstd::prelude::*;
use vstd::wrapping::u64_specs;

verus! {

/// The six virtual registers.
#[derive(Debug, Clone, Copy, PartialEq, Eq)]
pub enum Reg {
    R0,
    R1,
    R2,
    R3,
    R4,
    R5,
}

/// One bytecode instruction.
#[derive(Debug, Clone, Copy)]
pub enum Instruction {
    LoadImm(Reg, u64),
    Add(Reg, Reg),
    Sub(Reg, Reg),
    And(Reg, Reg),
    Or(Reg, Reg),
    Xor(Reg, Reg),
    /// Skips the given number of instructions after this one when the two
    /// registers are equal.
    JeqFwd(Reg, Reg, u8),
    /// Loads the context byte at the offset, or 0 past its end.
    LoadContext(Reg, usize),
    Exit,
}

/// The 64-byte packet a handler looks at.
pub struct AshContext {
    pub data: [u8; 64],
}

/// Slot of a register in the register file.
pub open spec fn reg_index(r: Reg) -> int {
    match r {
        Reg::R0 => 0,
        Reg::R1 => 1,
        Reg::R2 => 2,
        Reg::R3 => 3,
        Reg::R4 => 4,
        Reg::R5 => 5,
    }
}

impl Reg {
    /// Slot of the register in the register file.
    pub fn index(self) -> (r: usize)
        ensures
            r == reg_index(self),
    {
        match self {
            Reg::R0 => 0,
            Reg::R1 => 1,
            Reg::R2 => 2,
            Reg::R3 => 3,
            Reg::R4 => 4,
            Reg::R5 => 5,
        }
    }
}

/// The register file after running `prog` from instruction `pc` with the
/// registers `regs` and the packet `ctx`, until the end of the program or an
/// `Exit`.
pub open spec fn vm_run(prog: Seq<Instruction>, ctx: Seq<u8>, regs: Seq<u64>, pc: int) -> Seq<u64>
    decreases prog.len() - pc,
{
    if pc < 0 || pc >= prog.len() {
        regs
    } else {
        match prog[pc] {
            Instruction::LoadImm(r, v) => vm_run(prog, ctx, regs.update(reg_index(r), v), pc + 1),
            Instruction::Add(d, s) => vm_run(
                prog,
                ctx,
                regs.update(reg_index(d), u64_specs::wrapping_add(regs[reg_index(d)], regs[reg_index(s)])),
                pc + 1,
            ),
            Instruction::Sub(d, s) => vm_run(
                prog,
                ctx,
                regs.update(reg_index(d), u64_specs::wrapping_sub(regs[reg_index(d)], regs[reg_index(s)])),
                pc + 1,
            ),
            Instruction::And(d, s) => vm_run(
                prog,
                ctx,
                regs.update(reg_index(d), regs[reg_index(d)] & regs[reg_index(s)]),
                pc + 1,
            ),
            Instruction::Or(d, s) => vm_run(
                prog,
                ctx,
                regs.update(reg_index(d), regs[reg_index(d)] | regs[reg_index(s)]),
                pc + 1,
            ),
            Instruction::Xor(d, s) => vm_run(
                prog,
                ctx,
                regs.update(reg_index(d), regs[reg_index(d)] ^ regs[reg_index(s)]),
                pc + 1,
            ),
            Instruction::JeqFwd(d, s, off) => if regs[reg_index(d)] == regs[reg_index(s)] {
                if pc + 1 + off >= prog.len() {
                    regs
                } else {
                    vm_run(prog, ctx, regs, pc + 1 + off)
                }
            } else {
                vm_run(prog, ctx, regs, pc + 1)
            },
            Instruction::LoadContext(d, off) => vm_run(
                prog,
                ctx,
                regs.update(reg_index(d), if off < ctx.len() { ctx[off as int] as u64 } else { 0u64 }),
                pc + 1,
            ),
            Instruction::Exit => regs,
        }
    }
}

/// Six zeroed registers.
pub open spec fn zero_regs() -> Seq<u64> {
    seq![0u64, 0u64, 0u64, 0u64, 0u64, 0u64]
}

/// The interpreter.
pub struct AshVm {
    registers: [u64; 6],
}

impl AshVm {
    /// The register file.
    pub closed spec fn regs(&self) -> Seq<u64> {
        self.registers@
    }

    /// An interpreter with zeroed registers.
    pub fn new() -> (r: Self)
        ensures
            r.regs() == zero_regs(),
    {
        let r = AshVm { registers: [0; 6] };
        assert(r.regs() =~= zero_regs());
        r
    }

    /// Runs the program on the packet from zeroed registers and returns R0;
    /// the registers are left as the run ends.
    pub fn execute(&mut self, instructions: &[Instruction], context: &AshContext) -> (r: u64)
        requires
            instructions@.len() + 256 <= usize::MAX,
        ensures
            final(self).regs() == vm_run(instructions@, context.data@, zero_regs(), 0),
            r == vm_run(instructions@, context.data@, zero_regs(), 0)[0],
    {
        let mut k: usize = 0;
        while k < 6
            invariant
                k <= 6,
                self.registers@.len() == 6,
                forall|j: int| 0 <= j < k ==> self.registers@[j] == 0,
            decreases 6 - k,
        {
            self.registers[k] = 0;
            k = k + 1;
        }
        assert(self.registers@ =~= zero_regs());
        let ghost prog = instructions@;
        let ghost ctx = context.data@;
        let mut pc: usize = 0;
        while pc < instructions.len()
            invariant_except_break
                vm_run(prog, ctx, self.registers@, pc as int) == vm_run(prog, ctx, zero_regs(), 0),
            invariant
                prog == instructions@,
                ctx == context.data@,
                ctx.len() == 64,
                prog.len() + 256 <= usize::MAX,
                self.registers@.len() == 6,
                pc <= prog.len() + 256,
            ensures
                self.registers@ == vm_run(prog, ctx, zero_regs(), 0),
            decreases prog.len() + 256 - pc,
        {
            let instr = instructions[pc];
            let ghost regs0 = self.registers@;
            let ghost pc0 = pc as int;
            pc = pc + 1;
            match instr {
                Instruction::LoadImm(reg, val) => {
                    self.registers[reg.index()] = val;
                },
                Instruction::Add(dst, src) => {
                    let v = self.registers[dst.index()].wrapping_add(self.registers[src.index()]);
                    self.registers[dst.index()] = v;
                },
                Instruction::Sub(dst, src) => {
                    let v = self.registers[dst.index()].wrapping_sub(self.registers[src.index()]);
                    self.registers[dst.index()] = v;
                },
                Instruction::And(dst, src) => {
                    let v = self.registers[dst.index()] & self.registers[src.index()];
                    self.registers[dst.index()] = v;
                },
                Instruction::Or(dst, src) => {
                    let v = self.registers[dst.index()] | self.registers[src.index()];
                    self.registers[dst.index()] = v;
                },
                Instruction::Xor(dst, src) => {
                    let v = self.registers[dst.index()] ^ self.registers[src.index()];
                    self.registers[dst.index()] = v;
                },
                Instruction::JeqFwd(dst, src, offset) => {
                    if self.registers[dst.index()] == self.registers[src.index()] {
                        pc = pc + offset as usize;
                    }
                },
                Instruction::LoadContext(dst, offset) => {
                    if offset < context.data.len() {
                        self.registers[dst.index()] = context.data[offset] as u64;
                    } else {
                        self.registers[dst.index()] = 0;
                    }
                },
                Instruction::Exit => {
                    assert(vm_run(prog, ctx, regs0, pc0) == regs0);
                    break;
                },
            }
            assert(vm_run(prog, ctx, regs0, pc0) == vm_run(prog, ctx, self.registers@, pc as int));
        }
        self.registers[0]
    }
}

/// Bit `k` of `x` is set.
pub open spec fn bit_set(x: u64, k: u64) -> bool {
    (x >> k) & 1u64 == 1u64
}

/// R0 after loading `a` into R0 and `b` into R1 and running `op`, from any
/// registers and packet.
pub open spec fn two_operand_result(a: u64, b: u64, op: Instruction, ctx: Seq<u8>, regs: Seq<u64>) -> u64 {
    vm_run(seq![Instruction::LoadImm(Reg::R0, a), Instruction::LoadImm(Reg::R1, b), op], ctx, regs, 0)[0]
}

proof fn lemma_bits_and_or_xor(a: u64, b: u64)
    by (bit_vector)
    ensures
        forall|k: u64| k < 64 ==> (#[trigger] ((a & b) >> k) & 1u64 == 1u64) == (((a >> k) & 1u64 == 1u64) && ((b >> k) & 1u64 == 1u64)),
        forall|k: u64| k < 64 ==> (#[trigger] ((a | b) >> k) & 1u64 == 1u64) == (((a >> k) & 1u64 == 1u64) || ((b >> k) & 1u64 == 1u64)),
        forall|k: u64| k < 64 ==> (#[trigger] ((a ^ b) >> k) & 1u64 == 1u64) == (((a >> k) & 1u64 == 1u64) != ((b >> k) & 1u64 == 1u64)),
{
}

/// What the arithmetic and logic instructions compute, over all operands:
/// `Add` is addition modulo 2^64, `Sub` its inverse, and `And`, `Or` and
/// `Xor` set a bit of the destination exactly when the bit is set in both,
/// in either, and in exactly one of the operands.
pub proof fn lemma_alu_semantics(a: u64, b: u64, ctx: Seq<u8>, regs: Seq<u64>)
    requires
        regs.len() == 6,
    ensures
        two_operand_result(a, b, Instruction::Add(Reg::R0, Reg::R1), ctx, regs) as int
            == (a as int + b as int) % 0x1_0000_0000_0000_0000,
        (two_operand_result(a, b, Instruction::Sub(Reg::R0, Reg::R1), ctx, regs) as int + b as int)
            % 0x1_0000_0000_0000_0000 == a as int,
        forall|k: u64| k < 64 ==> bit_set(two_operand_result(a, b, Instruction::And(Reg::R0, Reg::R1), ctx, regs), k)
            == (bit_set(a, k) && bit_set(b, k)),
        forall|k: u64| k < 64 ==> bit_set(two_operand_result(a, b, Instruction::Or(Reg::R0, Reg::R1), ctx, regs), k)
            == (bit_set(a, k) || bit_set(b, k)),
        forall|k: u64| k < 64 ==> bit_set(two_operand_result(a, b, Instruction::Xor(Reg::R0, Reg::R1), ctx, regs), k)
            == (bit_set(a, k) != bit_set(b, k)),
{
    reveal_with_fuel(vm_run, 4);
    lemma_bits_and_or_xor(a, b);
    let r1 = regs.update(0, a).update(1, b);
    assert(r1[0] == a && r1[1] == b);
    assert(two_operand_result(a, b, Instruction::And(Reg::R0, Reg::R1), ctx, regs) == a & b);
    assert(two_operand_result(a, b, Instruction::Or(Reg::R0, Reg::R1), ctx, regs) == a | b);
    assert(two_operand_result(a, b, Instruction::Xor(Reg::R0, Reg::R1), ctx, regs) == a ^ b);
    assert(two_operand_result(a, b, Instruction::Add(Reg::R0, Reg::R1), ctx, regs) == u64_specs::wrapping_add(a, b));
    assert(two_operand_result(a, b, Instruction::Sub(Reg::R0, Reg::R1), ctx, regs) == u64_specs::wrapping_sub(a, b));
}

/// What loads and the forward jump do, over all values: `LoadImm` puts its
/// value in the register, `LoadContext` the packet byte at the offset (0
/// past the end of the packet), and `JeqFwd` skips the instructions it
/// names exactly when the two registers are equal; `Exit` ends the run.
pub proof fn lemma_load_and_jump_semantics(a: u64, b: u64, off: usize, ctx: Seq<u8>, regs: Seq<u64>)
    requires
        regs.len() == 6,
    ensures
        vm_run(seq![Instruction::LoadImm(Reg::R2, a)], ctx, regs, 0)[2] == a,
        vm_run(seq![Instruction::LoadContext(Reg::R0, off)], ctx, regs, 0)[0]
            == if off < ctx.len() { ctx[off as int] as u64 } else { 0 },
        vm_run(seq![
            Instruction::LoadImm(Reg::R0, a),
            Instruction::LoadImm(Reg::R1, b),
            Instruction::JeqFwd(Reg::R0, Reg::R1, 1),
            Instruction::LoadImm(Reg::R0, 7),
            Instruction::Exit,
            Instruction::LoadImm(Reg::R0, 9),
        ], ctx, regs, 0)[0] == if a == b { a } else { 7 },
{
    reveal_with_fuel(vm_run, 6);
    let r1 = regs.update(0, a).update(1, b);
    assert(r1[0] == a && r1[1] == b);
}

/// The two packets agree on every byte that some `LoadContext` of the
/// program reads.
pub open spec fn loaded_bytes_agree(prog: Seq<Instruction>, ctx1: Seq<u8>, ctx2: Seq<u8>) -> bool {
    forall|k: int|
        0 <= k < prog.len() ==> match #[trigger] prog[k] {
            Instruction::LoadContext(_, off) => off < ctx1.len() ==> ctx1[off as int] == ctx2[off as int],
            _ => true,
        }
}

/// A handler sees only the bytes it loads: two packets of one length that
/// agree on every byte the program loads give the same registers, from any
/// starting registers and instruction.
pub proof fn lemma_run_ignores_unloaded_bytes(
    prog: Seq<Instruction>,
    ctx1: Seq<u8>,
    ctx2: Seq<u8>,
    regs: Seq<u64>,
    pc: int,
)
    requires
        ctx1.len() == ctx2.len(),
        loaded_bytes_agree(prog, ctx1, ctx2),
    ensures
        vm_run(prog, ctx1, regs, pc) == vm_run(prog, ctx2, regs, pc),
    decreases prog.len() - pc,
{
    if 0 <= pc < prog.len() {
        let instr = prog[pc];
        match instr {
            Instruction::LoadImm(r, v) => {
                lemma_run_ignores_unloaded_bytes(prog, ctx1, ctx2, regs.update(reg_index(r), v), pc + 1);
            },
            Instruction::Add(d, s) => {
                lemma_run_ignores_unloaded_bytes(prog, ctx1, ctx2,
                    regs.update(reg_index(d), u64_specs::wrapping_add(regs[reg_index(d)], regs[reg_index(s)])), pc + 1);
            },
            Instruction::Sub(d, s) => {
                lemma_run_ignores_unloaded_bytes(prog, ctx1, ctx2,
                    regs.update(reg_index(d), u64_specs::wrapping_sub(regs[reg_index(d)], regs[reg_index(s)])), pc + 1);
            },
            Instruction::And(d, s) => {
                lemma_run_ignores_unloaded_bytes(prog, ctx1, ctx2,
                    regs.update(reg_index(d), regs[reg_index(d)] & regs[reg_index(s)]), pc + 1);
            },
            Instruction::Or(d, s) => {
                lemma_run_ignores_unloaded_bytes(prog, ctx1, ctx2,
                    regs.update(reg_index(d), regs[reg_index(d)] | regs[reg_index(s)]), pc + 1);
            },
            Instruction::Xor(d, s) => {
                lemma_run_ignores_unloaded_bytes(prog, ctx1, ctx2,
                    regs.update(reg_index(d), regs[reg_index(d)] ^ regs[reg_index(s)]), pc + 1);
            },
            Instruction::JeqFwd(d, s, off) => {
                if regs[reg_index(d)] == regs[reg_index(s)] {
                    if pc + 1 + off < prog.len() {
                        lemma_run_ignores_unloaded_bytes(prog, ctx1, ctx2, regs, pc + 1 + off);
                    }
                } else {
                    lemma_run_ignores_unloaded_bytes(prog, ctx1, ctx2, regs, pc + 1);
                }
            },
            Instruction::LoadContext(d, off) => {
                assert(off < ctx1.len() ==> ctx1[off as int] == ctx2[off as int]);
                let v = if off < ctx1.len() { ctx1[off as int] as u64 } else { 0u64 };
                lemma_run_ignores_unloaded_bytes(prog, ctx1, ctx2, regs.update(reg_index(d), v), pc + 1);
            },
            Instruction::Exit => {},
        }
    }
}

/// The x86-64 register number a virtual register is kept in
/// (rax, rcx, rdx, rbx, rbp, rsi).
pub open spec fn x86_reg(r: Reg) -> u8 {
    match r {
        Reg::R0 => 0,
        Reg::R1 => 1,
        Reg::R2 => 2,
        Reg::R3 => 3,
        Reg::R4 => 5,
        Reg::R5 => 6,
    }
}

/// The register-direct ModRM byte with `s` in the reg field and `d` in r/m.
pub open spec fn modrm(s: u8, d: u8) -> u8 {
    0xc0u8 | (s << 3u8) | d
}

/// push rbx; push rbp; and zeroing of the six registers the code uses.
pub open spec fn prologue() -> Seq<u8> {
    seq![0x53u8, 0x55u8, 0x31u8, 0xc0u8, 0x31u8, 0xc9u8, 0x31u8, 0xd2u8, 0x31u8, 0xdbu8, 0x31u8, 0xedu8, 0x31u8, 0xf6u8]
}

/// The eight little-endian bytes of `v`.
pub open spec fn le_bytes_u64(v: u64) -> Seq<u8> {
    Seq::new(8, |k: int| ((v >> ((8 * k) as u64)) & 0xffu64) as u8)
}

/// The four little-endian bytes of `v`.
pub open spec fn le_bytes_u32(v: u32) -> Seq<u8> {
    Seq::new(4, |k: int| ((v >> ((8 * k) as u32)) & 0xffu32) as u8)
}

pub open spec fn is_jump(i: Instruction) -> bool {
    i is JeqFwd
}

/// The length of the machine code for one instruction.
pub open spec fn instr_len(i: Instruction) -> int {
    match i {
        Instruction::LoadImm(_, _) => 23,
        Instruction::Add(_, _) => 3,
        Instruction::Sub(_, _) => 3,
        Instruction::And(_, _) => 3,
        Instruction::Or(_, _) => 3,
        Instruction::Xor(_, _) => 3,
        Instruction::JeqFwd(_, _, _) => 9,
        Instruction::LoadContext(_, off) => if off < 64 { 5 } else { 7 },
        Instruction::Exit => 3,
    }
}

/// Where the code for instruction `k` starts (for `k == prog.len()`, where
/// the code ends).
pub open spec fn code_offset(prog: Seq<Instruction>, k: int) -> int
    decreases k,
{
    if k <= 0 {
        prologue().len() as int
    } else {
        code_offset(prog, k - 1) + instr_len(prog[k - 1])
    }
}

/// The instruction a taken jump at `i` lands on: `off` instructions past
/// the next one, or the last instruction when that lies past the end.
pub open spec fn jump_target(prog: Seq<Instruction>, i: int, off: u8) -> int {
    let t = i + 1 + off;
    if t >= prog.len() { prog.len() - 1 } else { t }
}

/// The displacement from the end of the jump at `i` to its target's code.
pub open spec fn jump_rel(prog: Seq<Instruction>, i: int, off: u8) -> int {
    code_offset(prog, jump_target(prog, i, off)) - (code_offset(prog, i) + 9)
}

/// The 4-byte displacement field of a jump, as written into the code.
pub open spec fn rel_field(prog: Seq<Instruction>, i: int, off: u8) -> Seq<u8> {
    le_bytes_u32((jump_rel(prog, i, off) as i32) as u32)
}

/// The machine code for one instruction, with a zero displacement for a jump.
pub open spec fn base_encoding(instr: Instruction, key: u64) -> Seq<u8> {
    match instr {
        Instruction::LoadImm(r, v) => seq![0x48u8, (0xb8 + x86_reg(r)) as u8] + le_bytes_u64(v ^ key)
            + seq![0x49u8, 0xbbu8] + le_bytes_u64(key)
            + seq![0x4cu8, 0x31u8, modrm(3, x86_reg(r))],
        Instruction::Add(d, s) => seq![0x48u8, 0x01u8, modrm(x86_reg(s), x86_reg(d))],
        Instruction::Sub(d, s) => seq![0x48u8, 0x29u8, modrm(x86_reg(s), x86_reg(d))],
        Instruction::And(d, s) => seq![0x48u8, 0x21u8, modrm(x86_reg(s), x86_reg(d))],
        Instruction::Or(d, s) => seq![0x48u8, 0x09u8, modrm(x86_reg(s), x86_reg(d))],
        Instruction::Xor(d, s) => seq![0x48u8, 0x31u8, modrm(x86_reg(s), x86_reg(d))],
        Instruction::JeqFwd(d, s, _) => seq![0x48u8, 0x39u8, modrm(x86_reg(s), x86_reg(d)), 0x0fu8, 0x84u8, 0u8, 0u8, 0u8, 0u8],
        Instruction::LoadContext(d, off) => if off < 64 {
            seq![0x48u8, 0x0fu8, 0xb6u8, 0x40u8 | (x86_reg(d) << 3u8) | 0x07u8, off as u8]
        } else {
            seq![0x48u8, 0xc7u8, (0xc0 + x86_reg(d)) as u8, 0u8, 0u8, 0u8, 0u8]
        },
        Instruction::Exit => seq![0x5du8, 0x5bu8, 0xc3u8],
    }
}

/// The machine code for instruction `i`; the displacement of a jump is
/// zero until it is `patched`.
pub open spec fn encode(prog: Seq<Instruction>, key: u64, i: int, patched: bool) -> Seq<u8> {
    match prog[i] {
        Instruction::JeqFwd(_, _, off) => if patched {
            base_encoding(prog[i], key).subrange(0, 5) + rel_field(prog, i, off)
        } else {
            base_encoding(prog[i], key)
        },
        _ => base_encoding(prog[i], key),
    }
}

/// The prologue and the code for the first `n` instructions, the jumps
/// among the first `b` patched.
pub open spec fn emit(prog: Seq<Instruction>, key: u64, n: int, b: int) -> Seq<u8>
    decreases n,
{
    if n <= 0 {
        prologue()
    } else {
        emit(prog, key, n - 1, b) + encode(prog, key, n - 1, n - 1 < b)
    }
}

/// The machine code for a whole program.
pub open spec fn compiled(prog: Seq<Instruction>, key: u64) -> Seq<u8> {
    emit(prog, key, prog.len() as int, prog.len() as int)
}

/// `s` with the four bytes at `at` replaced by `bytes`.
pub open spec fn splice4(s: Seq<u8>, at: int, bytes: Seq<u8>) -> Seq<u8> {
    s.subrange(0, at) + bytes + s.subrange(at + 4, s.len() as int)
}

proof fn lemma_encode_len(prog: Seq<Instruction>, key: u64, i: int, patched: bool)
    requires
        0 <= i < prog.len(),
    ensures
        encode(prog, key, i, patched).len() == instr_len(prog[i]),
{
}

proof fn lemma_emit_len(prog: Seq<Instruction>, key: u64, n: int, b: int)
    requires
        0 <= n <= prog.len(),
    ensures
        emit(prog, key, n, b).len() == code_offset(prog, n),
    decreases n,
{
    if n > 0 {
        lemma_emit_len(prog, key, n - 1, b);
        lemma_encode_len(prog, key, n - 1, n - 1 < b);
    }
}

proof fn lemma_code_offset_bounds(prog: Seq<Instruction>, a: int, n: int)
    requires
        0 <= a <= n <= prog.len(),
    ensures
        code_offset(prog, a) <= code_offset(prog, n) <= 14 + 23 * n,
        code_offset(prog, a) + 3 * (n - a) <= code_offset(prog, n),
    decreases n,
{
    if n > a {
        lemma_code_offset_bounds(prog, a, n - 1);
    } else if n > 0 {
        lemma_code_offset_bounds(prog, a - 1, n - 1);
    }
}

proof fn lemma_emit_unpatched_range(prog: Seq<Instruction>, key: u64, n: int, b1: int, b2: int)
    requires
        0 <= n <= prog.len(),
        b1 <= b2,
        forall|j: int| b1 <= j < b2 && j < n ==> !is_jump(#[trigger] prog[j]),
    ensures
        emit(prog, key, n, b1) == emit(prog, key, n, b2),
    decreases n,
{
    if n > 0 {
        lemma_emit_unpatched_range(prog, key, n - 1, b1, b2);
    }
}

proof fn lemma_emit_patch(prog: Seq<Instruction>, key: u64, n: int, i: int)
    requires
        0 <= i < n <= prog.len(),
        prog[i] matches Instruction::JeqFwd(_, _, off),
    ensures
        emit(prog, key, n, i + 1) == splice4(emit(prog, key, n, i), code_offset(prog, i) + 5, rel_field(prog, i, prog[i]->JeqFwd_2)),
    decreases n,
{
    let off = prog[i]->JeqFwd_2;
    let bytes = rel_field(prog, i, off);
    let at = code_offset(prog, i) + 5;
    lemma_code_offset_bounds(prog, 0, i);
    if n == i + 1 {
        lemma_emit_unpatched_range(prog, key, i, i, i + 1);
        lemma_emit_len(prog, key, i, i);
        let a = emit(prog, key, i, i);
        assert(emit(prog, key, n, i + 1) =~= splice4(a + encode(prog, key, i, false), at, bytes));
    } else {
        lemma_emit_patch(prog, key, n - 1, i);
        lemma_emit_len(prog, key, n - 1, i);
        lemma_code_offset_bounds(prog, i + 1, n - 1);
        let a = emit(prog, key, n - 1, i);
        let x = encode(prog, key, n - 1, false);
        assert(code_offset(prog, i + 1) == code_offset(prog, i) + 9);
        assert(bytes.len() == 4);
        assert(at + 4 <= a.len());
        assert((a + x).subrange(0, at) =~= a.subrange(0, at));
        assert((a + x).subrange(at + 4, (a + x).len() as int) =~= a.subrange(at + 4, a.len() as int) + x);
        assert(splice4(a + x, at, bytes) =~= splice4(a, at, bytes) + x);
    }
}

proof fn lemma_emit_prefix(prog: Seq<Instruction>, key: u64, k: int, n: int, b: int)
    requires
        0 <= k <= n <= prog.len(),
    ensures
        emit(prog, key, n, b).subrange(0, code_offset(prog, k)) == emit(prog, key, k, b),
    decreases n,
{
    lemma_emit_len(prog, key, n, b);
    lemma_emit_len(prog, key, k, b);
    if n > k {
        lemma_emit_prefix(prog, key, k, n - 1, b);
        lemma_emit_len(prog, key, n - 1, b);
        lemma_code_offset_bounds(prog, k, n - 1);
        let a = emit(prog, key, n - 1, b);
        let x = encode(prog, key, n - 1, n - 1 < b);
        assert((a + x).subrange(0, code_offset(prog, k)) =~= a.subrange(0, code_offset(prog, k)));
    } else {
        assert(emit(prog, key, n, b).subrange(0, code_offset(prog, k)) =~= emit(prog, key, k, b));
    }
}

/// The compiled code starts with the prologue, and the code of every
/// instruction `k` (its jump displacement patched) lies at `code_offset(k)`.
pub proof fn lemma_instruction_placement(prog: Seq<Instruction>, key: u64, k: int)
    requires
        0 <= k < prog.len(),
    ensures
        compiled(prog, key).subrange(0, prologue().len() as int) == prologue(),
        compiled(prog, key).subrange(code_offset(prog, k), code_offset(prog, k + 1)) == encode(prog, key, k, true),
{
    let n = prog.len() as int;
    lemma_emit_prefix(prog, key, 0, n, n);
    lemma_emit_prefix(prog, key, k + 1, n, n);
    lemma_emit_len(prog, key, k, n);
    lemma_code_offset_bounds(prog, k + 1, n);
    lemma_code_offset_bounds(prog, 0, k);
    lemma_emit_len(prog, key, n, n);
    lemma_emit_len(prog, key, k + 1, n);
    let c = compiled(prog, key);
    let pre = emit(prog, key, k + 1, n);
    assert(c.subrange(0, code_offset(prog, k + 1)) == pre);
    assert(c.subrange(code_offset(prog, k), code_offset(prog, k + 1))
        =~= pre.subrange(code_offset(prog, k), code_offset(prog, k + 1)));
    assert(pre.subrange(code_offset(prog, k), code_offset(prog, k + 1)) =~= encode(prog, key, k, true));
}

/// The byte `m` is a ModRM byte with the given mode (bits 6-7), reg field
/// (bits 3-5) and r/m field (bits 0-2).
pub open spec fn modrm_is(m: u8, mode: u8, reg: u8, rm: u8) -> bool {
    &&& m >> 6u8 == mode
    &&& (m >> 3u8) & 7u8 == reg
    &&& m & 7u8 == rm
}

proof fn lemma_modrm_fields(s: u8, d: u8)
    by (bit_vector)
    requires
        s < 8,
        d < 8,
    ensures
        modrm_is(0xc0u8 | (s << 3u8) | d, 3, s, d),
        modrm_is(0x40u8 | (d << 3u8) | 0x07u8, 1, d, 7),
        modrm_is((0xc0u8 + d) as u8, 3, 0, d),
{
}

proof fn lemma_prologue_fields()
    by (bit_vector)
    ensures
        modrm_is(0xc0u8, 3, 0, 0),
        modrm_is(0xc9u8, 3, 1, 1),
        modrm_is(0xd2u8, 3, 2, 2),
        modrm_is(0xdbu8, 3, 3, 3),
        modrm_is(0xedu8, 3, 5, 5),
        modrm_is(0xf6u8, 3, 6, 6),
{
}

/// Instruction `j` of the prologue's register zeroing is `xor r32, r32`
/// (0x31, register-direct ModRM) with `x` in both fields.
pub open spec fn prologue_zeroes(j: int, x: u8) -> bool {
    &&& prologue()[2 + 2 * j] == 0x31u8
    &&& modrm_is(prologue()[3 + 2 * j], 3, x, x)
}

/// The register assignment of the compiled code: R0 lives in rax, where
/// the code returns it; no two virtual registers share a machine register;
/// none is rsp (4) or rdi (7), which holds the packet pointer; and the
/// prologue zeroes each of them, in order, with an `xor r32, r32` (opcode
/// 0x31, ModRM register-direct with the register in both fields).
pub proof fn lemma_register_assignment()
    ensures
        x86_reg(Reg::R0) == 0,
        forall|r1: Reg, r2: Reg| r1 != r2 ==> #[trigger] x86_reg(r1) != #[trigger] x86_reg(r2),
        forall|r: Reg| #[trigger] x86_reg(r) < 8 && x86_reg(r) != 4 && x86_reg(r) != 7,
        prologue_zeroes(0, x86_reg(Reg::R0)),
        prologue_zeroes(1, x86_reg(Reg::R1)),
        prologue_zeroes(2, x86_reg(Reg::R2)),
        prologue_zeroes(3, x86_reg(Reg::R3)),
        prologue_zeroes(4, x86_reg(Reg::R4)),
        prologue_zeroes(5, x86_reg(Reg::R5)),
{
    lemma_prologue_fields();
}

/// The x86-64 encoding of every instruction in the compiled code, field by
/// field, at the instruction's offset: REX.W (0x48) and the opcodes
/// `add`/`sub`/`and`/`or`/`xor`/`cmp r/m64, r64` (0x01, 0x29, 0x21, 0x09,
/// 0x31, 0x39) with a register-direct ModRM naming the source in reg and the
/// destination in r/m; `je rel32` (0x0f 0x84) after the compare; `movzx
/// r64, byte [rdi + disp8]` (0x0f 0xb6, ModRM mode 1, reg the destination,
/// r/m rdi) for a load inside the packet and `mov r/m64, imm32` of 0
/// (0xc7, reg field 0) past it; `mov r64, imm64` (0xb8 + register) for an
/// immediate, then `mov r11, imm64` (REX.WB 0x49, 0xbb) and `xor r/m64, r11`
/// (REX.WR 0x4c, 0x31, reg 3 = r11, r/m the destination); and `pop rbp;
/// pop rbx; ret` for `Exit`.
pub proof fn lemma_instruction_encoding(prog: Seq<Instruction>, key: u64, k: int)
    requires
        0 <= k < prog.len(),
    ensures
        x86_fields(prog[k], compiled(prog, key).subrange(code_offset(prog, k), code_offset(prog, k + 1))),
{
    lemma_instruction_placement(prog, key, k);
    lemma_encoding_fields(prog, key, k);
}

/// The fields of the x86-64 code `c` of one instruction (see
/// [`lemma_instruction_encoding`]).
pub open spec fn x86_fields(instr: Instruction, c: Seq<u8>) -> bool {
    match instr {
        Instruction::Add(d, s) => c[0] == 0x48u8 && c[1] == 0x01u8 && modrm_is(c[2], 3, x86_reg(s), x86_reg(d)),
        Instruction::Sub(d, s) => c[0] == 0x48u8 && c[1] == 0x29u8 && modrm_is(c[2], 3, x86_reg(s), x86_reg(d)),
        Instruction::And(d, s) => c[0] == 0x48u8 && c[1] == 0x21u8 && modrm_is(c[2], 3, x86_reg(s), x86_reg(d)),
        Instruction::Or(d, s) => c[0] == 0x48u8 && c[1] == 0x09u8 && modrm_is(c[2], 3, x86_reg(s), x86_reg(d)),
        Instruction::Xor(d, s) => c[0] == 0x48u8 && c[1] == 0x31u8 && modrm_is(c[2], 3, x86_reg(s), x86_reg(d)),
        Instruction::JeqFwd(d, s, _) => c[0] == 0x48u8 && c[1] == 0x39u8 && modrm_is(c[2], 3, x86_reg(s), x86_reg(d))
            && c[3] == 0x0fu8 && c[4] == 0x84u8,
        Instruction::LoadContext(d, off) => if off < 64 {
            c[0] == 0x48u8 && c[1] == 0x0fu8 && c[2] == 0xb6u8 && modrm_is(c[3], 1, x86_reg(d), 7) && c[4] == off
        } else {
            c[0] == 0x48u8 && c[1] == 0xc7u8 && modrm_is(c[2], 3, 0, x86_reg(d))
                && c[3] == 0u8 && c[4] == 0u8 && c[5] == 0u8 && c[6] == 0u8
        },
        Instruction::LoadImm(d, _) => c[0] == 0x48u8 && c[1] == 0xb8 + x86_reg(d)
            && c[10] == 0x49u8 && c[11] == 0xbbu8
            && c[20] == 0x4cu8 && c[21] == 0x31u8 && modrm_is(c[22], 3, 3, x86_reg(d)),
        Instruction::Exit => c[0] == 0x5du8 && c[1] == 0x5bu8 && c[2] == 0xc3u8,
    }
}

proof fn lemma_encoding_fields(prog: Seq<Instruction>, key: u64, k: int)
    requires
        0 <= k < prog.len(),
    ensures
        x86_fields(prog[k], encode(prog, key, k, true)),
{
    let e = encode(prog, key, k, true);
    match prog[k] {
        Instruction::Add(d, s) | Instruction::Sub(d, s) | Instruction::And(d, s) | Instruction::Or(d, s)
        | Instruction::Xor(d, s) | Instruction::JeqFwd(d, s, _) => {
            lemma_modrm_fields(x86_reg(s), x86_reg(d));
        },
        Instruction::LoadContext(d, off) => {
            lemma_modrm_fields(0, x86_reg(d));
        },
        Instruction::LoadImm(d, v) => {
            lemma_modrm_fields(3, x86_reg(d));
        },
        Instruction::Exit => {},
    }
}

/// Control-flow integrity of the compiled code: every forward jump lands on
/// the first byte of an instruction of the program (its target, or the
/// last instruction when the target lies past the end), and its 32-bit
/// displacement is exact for programs whose code fits in 2 GiB.
pub proof fn lemma_jumps_land_on_instructions(prog: Seq<Instruction>, key: u64, i: int)
    requires
        0 <= i < prog.len(),
        prog[i] is JeqFwd,
        14 + 23 * prog.len() <= i32::MAX,
    ensures
        ({
            let off = prog[i]->JeqFwd_2;
            let t = jump_target(prog, i, off);
            &&& 0 <= t < prog.len()
            &&& (jump_rel(prog, i, off) as i32) as int == jump_rel(prog, i, off)
            &&& code_offset(prog, i) + 9 + jump_rel(prog, i, off) == code_offset(prog, t)
            &&& compiled(prog, key).subrange(code_offset(prog, i) + 5, code_offset(prog, i) + 9)
                == le_bytes_u32((jump_rel(prog, i, off) as i32) as u32)
        }),
{
    let off = prog[i]->JeqFwd_2;
    let t = jump_target(prog, i, off);
    let n = prog.len() as int;
    lemma_code_offset_bounds(prog, t, n);
    lemma_code_offset_bounds(prog, i, n);
    lemma_code_offset_bounds(prog, 0, t);
    lemma_code_offset_bounds(prog, 0, i);
    lemma_instruction_placement(prog, key, i);
    lemma_emit_len(prog, key, n, n);
    let c = compiled(prog, key);
    let a = code_offset(prog, i);
    assert(code_offset(prog, i + 1) == a + 9);
    assert(c.subrange(a + 5, a + 9) =~= c.subrange(a, a + 9).subrange(5, 9));
    assert(encode(prog, key, i, true).subrange(5, 9) =~= rel_field(prog, i, off));
}

/// Constant blinding: in the compiled code, the immediate field of a
/// `LoadImm` holds the value XOR the key, the key follows in the `mov r11`,
/// and the `xor` after them gives back the value, as `(v ^ key) ^ key == v`.
pub proof fn lemma_immediates_blinded(prog: Seq<Instruction>, key: u64, k: int)
    requires
        0 <= k < prog.len(),
        prog[k] is LoadImm,
    ensures
        ({
            let v = prog[k]->LoadImm_1;
            let at = code_offset(prog, k);
            &&& compiled(prog, key).subrange(at + 2, at + 10) == le_bytes_u64(v ^ key)
            &&& compiled(prog, key).subrange(at + 12, at + 20) == le_bytes_u64(key)
            &&& (v ^ key) ^ key == v
        }),
{
    let v = prog[k]->LoadImm_1;
    let at = code_offset(prog, k);
    let n = prog.len() as int;
    lemma_instruction_placement(prog, key, k);
    lemma_code_offset_bounds(prog, k + 1, n);
    lemma_code_offset_bounds(prog, 0, k);
    lemma_emit_len(prog, key, n, n);
    let c = compiled(prog, key);
    let e = encode(prog, key, k, true);
    assert(code_offset(prog, k + 1) == at + 23);
    assert(c.subrange(at + 2, at + 10) =~= c.subrange(at, at + 23).subrange(2, 10));
    assert(c.subrange(at + 12, at + 20) =~= c.subrange(at, at + 23).subrange(12, 20));
    assert(e.subrange(2, 10) =~= le_bytes_u64(v ^ key));
    assert(e.subrange(12, 20) =~= le_bytes_u64(key));
    assert((v ^ key) ^ key == v) by (bit_vector);
}

/// The size of the page that holds the compiled code.
pub const JIT_PAGE_SIZE: usize = 4096;

/// The length of the prologue.
pub const PROLOGUE_LEN: usize = 14;

/// The length of the machine code for a whole program.
pub open spec fn code_len(prog: Seq<Instruction>) -> int {
    code_offset(prog, prog.len() as int)
}

/// Why a program was not compiled.
#[derive(Debug, Clone, Copy, PartialEq, Eq)]
pub enum JitError {
    /// The machine code would not fit in the JIT page.
    CodeTooLarge,
    /// No random blinding key could be drawn.
    NoEntropy,
}

/// The x86-64 compiler for ASH bytecode.  The page that holds the code
/// and its protection are managed by the caller.
pub struct AshJit {
    code: Vec<u8>,
}

impl AshJit {
    /// The machine code last compiled.
    pub closed spec fn code_view(&self) -> Seq<u8> {
        self.code@
    }

    /// A compiler with no code yet.
    pub fn new() -> (r: Self)
        ensures
            r.code_view() == Seq::<u8>::empty(),
    {
        AshJit { code: Vec::new() }
    }

    /// The machine code last compiled.
    pub fn code(&self) -> (r: &Vec<u8>)
        ensures
            r@ == self.code_view(),
    {
        &self.code
    }

    /// The number of bytes of machine code last compiled.
    pub fn len(&self) -> (r: usize)
        ensures
            r == self.code_view().len(),
    {
        self.code.len()
    }

    fn reg_to_x86(reg: Reg) -> (r: u8)
        ensures
            r == x86_reg(reg),
    {
        match reg {
            Reg::R0 => 0,
            Reg::R1 => 1,
            Reg::R2 => 2,
            Reg::R3 => 3,
            Reg::R4 => 5,
            Reg::R5 => 6,
        }
    }

    /// Compiles the program as `compile_with_key` does, with a blinding key
    /// drawn from the CPU's random number generator.  The program is refused
    /// exactly when its code would not fit in the JIT page; a program that
    /// fits is compiled unless no key can be drawn.
    pub fn compile(&mut self, instructions: &[Instruction]) -> (r: Result<(), JitError>)
        ensures
            (r == Err::<(), JitError>(JitError::CodeTooLarge)) <==> code_len(instructions@) > JIT_PAGE_SIZE,
            r is Ok ==> exists|key: u64| final(self).code_view() == compiled(instructions@, key),
            r is Err ==> final(self).code_view() == old(self).code_view(),
    {
        if !fits_in_page(instructions) {
            return Err(JitError::CodeTooLarge);
        }
        let key = match rdrand_new() {
            Some(rng) => rdrand_u64(rng),
            None => None,
        };
        match key {
            Some(key) => self.compile_with_key(instructions, key),
            None => Err(JitError::NoEntropy),
        }
    }

    /// Compiles the program to x86-64 machine code with the blinding key
    /// `key`: a prologue that saves rbx and rbp and zeroes the registers,
    /// then each instruction in turn, forward jumps patched to land on the
    /// code of their target, every immediate stored XOR `key` and unmasked
    /// at run time.  The code takes the packet pointer in rdi and returns R0
    /// in rax.  Code longer than the JIT page is refused and the code
    /// compiled before is kept.
    pub fn compile_with_key(&mut self, instructions: &[Instruction], key: u64) -> (r: Result<(), JitError>)
        ensures
            code_len(instructions@) <= JIT_PAGE_SIZE ==> r == Ok::<(), JitError>(())
                && final(self).code_view() == compiled(instructions@, key),
            code_len(instructions@) > JIT_PAGE_SIZE ==> r == Err::<(), JitError>(JitError::CodeTooLarge)
                && final(self).code_view() == old(self).code_view(),
    {
        let ghost prog = instructions@;
        let n = instructions.len();
        // Every instruction takes at least three bytes.
        if n > (JIT_PAGE_SIZE - PROLOGUE_LEN) / 3 {
            proof {
                lemma_code_offset_bounds(prog, 0, n as int);
            }
            return Err(JitError::CodeTooLarge);
        }
        proof {
            lemma_code_offset_bounds(prog, 0, n as int);
        }
        let mut code: Vec<u8> = Vec::new();

        // Prologue
        code.push(0x53); // push rbx
        code.push(0x55); // push rbp
        code.push(0x31); code.push(0xc0); // xor eax, eax
        code.push(0x31); code.push(0xc9); // xor ecx, ecx
        code.push(0x31); code.push(0xd2); // xor edx, edx
        code.push(0x31); code.push(0xdb); // xor ebx, ebx
        code.push(0x31); code.push(0xed); // xor ebp, ebp
        code.push(0x31); code.push(0xf6); // xor esi, esi
        assert(code@ =~= emit(prog, key, 0, 0));

        // Body
        let mut instr_offsets: Vec<usize> = Vec::with_capacity(n + 1);
        let mut backpatch_list: Vec<(usize, usize)> = Vec::new();
        let ghost mut jumps: Seq<int> = Seq::empty();
        let mut i: usize = 0;
        while i < n
            invariant
                prog == instructions@,
                n == prog.len(),
                n <= (JIT_PAGE_SIZE - PROLOGUE_LEN) / 3,
                i <= n,
                code@ == emit(prog, key, i as int, 0),
                code@.len() == code_offset(prog, i as int),
                instr_offsets@.len() == i,
                forall|j: int| 0 <= j < i ==> instr_offsets@[j] == code_offset(prog, j),
                backpatch_list@.len() == jumps.len(),
                forall|m: int| 0 <= m < jumps.len() ==> 0 <= #[trigger] jumps[m] < i,
                forall|m: int| 0 <= m < jumps.len() ==> is_jump(prog[#[trigger] jumps[m]]),
                forall|m: int| 0 <= m < jumps.len() ==> (#[trigger] backpatch_list@[m]).0 == code_offset(prog, jumps[m]) + 5,
                forall|m: int| 0 <= m < jumps.len() ==> (#[trigger] backpatch_list@[m]).1 == jumps[m] + 1 + prog[jumps[m]]->JeqFwd_2,
                forall|m1: int, m2: int| 0 <= m1 < m2 < jumps.len() ==> jumps[m1] < jumps[m2],
                forall|j: int| 0 <= j < i && is_jump(#[trigger] prog[j]) ==> jumps.contains(j),
            decreases n - i,
        {
            proof {
                lemma_code_offset_bounds(prog, i as int, n as int);
                lemma_code_offset_bounds(prog, i as int + 1, n as int);
            }
            instr_offsets.push(code.len());
            let ghost before = code@;
            let instr = instructions[i];
            let ghost old_jumps = jumps;
            emit_instruction(&mut code, instr, key);
            if let Instruction::JeqFwd(_, _, offset) = instr {
                let patch_offset = code.len() - 4;
                backpatch_list.push((patch_offset, i + 1 + offset as usize));
                proof {
                    jumps = jumps.push(i as int);
                    assert(jumps[jumps.len() - 1] == i);
                }
            }
            proof {
                lemma_encode_len(prog, key, i as int, false);
                assert(emit(prog, key, i as int + 1, 0) == emit(prog, key, i as int, 0) + encode(prog, key, i as int, false));
                assert forall|j: int| 0 <= j < i + 1 && is_jump(#[trigger] prog[j]) implies jumps.contains(j) by {
                    if j == i {
                        assert(jumps[jumps.len() - 1] == i);
                    } else {
                        let k = old_jumps.index_of(j);
                        assert(jumps[k] == j);
                    }
                }
            }
            i = i + 1;
        }
        instr_offsets.push(code.len());

        // Backpatching forward jumps
        let ghost b_of = |m: int| if m < jumps.len() { jumps[m] } else { n as int };
        proof {
            lemma_emit_len(prog, key, n as int, 0);
            assert forall|j: int| 0 <= j < b_of(0) && j < n implies !is_jump(#[trigger] prog[j]) by {
                if is_jump(prog[j]) {
                    let m = jumps.index_of(j);
                    assert(jumps[m] == j);
                }
            }
            lemma_emit_unpatched_range(prog, key, n as int, 0, b_of(0));
        }
        let mut m: usize = 0;
        while m < backpatch_list.len()
            invariant
                prog == instructions@,
                n == prog.len(),
                n <= (JIT_PAGE_SIZE - PROLOGUE_LEN) / 3,
                m <= backpatch_list@.len(),
                code@ == emit(prog, key, n as int, b_of(m as int)),
                code@.len() == code_offset(prog, n as int),
                instr_offsets@.len() == n + 1,
                forall|j: int| 0 <= j <= n ==> instr_offsets@[j] == code_offset(prog, j),
                backpatch_list@.len() == jumps.len(),
                forall|k: int| 0 <= k < jumps.len() ==> 0 <= #[trigger] jumps[k] < n,
                forall|k: int| 0 <= k < jumps.len() ==> is_jump(prog[#[trigger] jumps[k]]),
                forall|k: int| 0 <= k < jumps.len() ==> (#[trigger] backpatch_list@[k]).0 == code_offset(prog, jumps[k]) + 5,
                forall|k: int| 0 <= k < jumps.len() ==> (#[trigger] backpatch_list@[k]).1 == jumps[k] + 1 + prog[jumps[k]]->JeqFwd_2,
                forall|k1: int, k2: int| 0 <= k1 < k2 < jumps.len() ==> jumps[k1] < jumps[k2],
                forall|j: int| 0 <= j < n && is_jump(#[trigger] prog[j]) ==> jumps.contains(j),
                b_of == (|k: int| if k < jumps.len() { jumps[k] } else { n as int }),
            decreases backpatch_list@.len() - m,
        {
            let (patch_offset, target_idx) = backpatch_list[m];
            let ghost i = jumps[m as int];
            let ghost off = prog[i]->JeqFwd_2;
            proof {
                lemma_code_offset_bounds(prog, i, n as int);
                lemma_code_offset_bounds(prog, i + 1, n as int);
                lemma_code_offset_bounds(prog, 0, i);
                assert(code_offset(prog, i + 1) == code_offset(prog, i) + 9);
            }
            let safe_target = if target_idx >= n {
                n - 1 // Fallback to last instruction (should be Exit)
            } else {
                target_idx
            };
            assert(safe_target == jump_target(prog, i, off));
            proof {
                lemma_code_offset_bounds(prog, safe_target as int, n as int);
            }
            let target_byte_offset = instr_offsets[safe_target];
            let jump_end = patch_offset + 4;
            let rel32 = (target_byte_offset as isize - jump_end as isize) as i32;
            assert(rel32 == jump_rel(prog, i, off) as i32);
            let bytes = u32_le_bytes(rel32 as u32);
            let ghost before = code@;
            code.set(patch_offset, bytes[0]);
            code.set(patch_offset + 1, bytes[1]);
            code.set(patch_offset + 2, bytes[2]);
            code.set(patch_offset + 3, bytes[3]);
            proof {
                assert(code@ =~= splice4(before, patch_offset as int, rel_field(prog, i, off)));
                lemma_emit_patch(prog, key, n as int, i);
                assert forall|j: int| i + 1 <= j < b_of(m as int + 1) && j < n implies !is_jump(#[trigger] prog[j]) by {
                    if is_jump(prog[j]) {
                        let k = jumps.index_of(j);
                        assert(jumps[k] == j);
                        if k <= m {
                            if k < m {
                                assert(jumps[k] < jumps[m as int]);
                            }
                        } else {
                            if k > m + 1 {
                                assert(jumps[m as int + 1] < jumps[k]);
                            }
                        }
                    }
                }
                if m + 1 < jumps.len() {
                    assert(jumps[m as int] < jumps[m as int + 1]);
                }
                lemma_emit_unpatched_range(prog, key, n as int, i + 1, b_of(m as int + 1));
                lemma_emit_len(prog, key, n as int, i + 1);
            }
            m = m + 1;
        }
        proof {
            assert(b_of(m as int) == n);
        }
        if code.len() > JIT_PAGE_SIZE {
            return Err(JitError::CodeTooLarge);
        }
        self.code = code;
        Ok(())
    }
}

/// The x86_64 crate's random number generator.
#[verifier::external_type_specification]
#[verifier::external_body]
pub struct ExRdRand(x86_64::instructions::random::RdRand);

/// `RdRand::new` of the x86_64 crate: `Some` when CPUID reports RDRAND
/// support.  Nothing is stated: the answer depends on the machine.
#[verifier::external_body]
fn rdrand_new() -> (r: Option<x86_64::instructions::random::RdRand>) {
    x86_64::instructions::random::RdRand::new()
}

/// `RdRand::get_u64` of the x86_64 crate: a random `u64`, or `None` when
/// the instruction fails.  Nothing is stated: the result is random.
#[verifier::external_body]
fn rdrand_u64(rng: x86_64::instructions::random::RdRand) -> (r: Option<u64>) {
    rng.get_u64()
}

/// The length of the machine code for one instruction.
fn instr_size(instr: Instruction) -> (r: usize)
    ensures
        r == instr_len(instr),
{
    match instr {
        Instruction::LoadImm(_, _) => 23,
        Instruction::Add(_, _) => 3,
        Instruction::Sub(_, _) => 3,
        Instruction::And(_, _) => 3,
        Instruction::Or(_, _) => 3,
        Instruction::Xor(_, _) => 3,
        Instruction::JeqFwd(_, _, _) => 9,
        Instruction::LoadContext(_, off) => if off < 64 { 5 } else { 7 },
        Instruction::Exit => 3,
    }
}

/// Whether the machine code for the program fits in the JIT page.
fn fits_in_page(instructions: &[Instruction]) -> (r: bool)
    ensures
        r == (code_len(instructions@) <= JIT_PAGE_SIZE),
{
    let ghost prog = instructions@;
    let n = instructions.len();
    let mut total: usize = PROLOGUE_LEN;
    let mut i: usize = 0;
    while i < n
        invariant
            prog == instructions@,
            n == prog.len(),
            i <= n,
            total == code_offset(prog, i as int),
            total <= JIT_PAGE_SIZE,
        decreases n - i,
    {
        total = total + instr_size(instructions[i]);
        if total > JIT_PAGE_SIZE {
            proof {
                lemma_code_offset_bounds(prog, i as int + 1, n as int);
            }
            return false;
        }
        i = i + 1;
    }
    true
}

/// Appends the machine code for one instruction, a jump with a zero
/// displacement.
fn emit_instruction(code: &mut Vec<u8>, instr: Instruction, key: u64)
    ensures
        final(code)@ == old(code)@ + base_encoding(instr, key),
{
    let ghost before = code@;
    match instr {
        Instruction::LoadImm(reg, val) => {
            let dst = AshJit::reg_to_x86(reg);
            // mov r64, imm64 ^ key; mov r11, key; xor r64, r11
            code.push(0x48); code.push(0xb8 + dst);
            push_u64_le(code, val ^ key);
            code.push(0x49); code.push(0xbb);
            push_u64_le(code, key);
            code.push(0x4c); code.push(0x31); code.push(0xc0 | (3 << 3) | dst);
        },
        Instruction::Add(dst, src) => {
            let d = AshJit::reg_to_x86(dst); let s = AshJit::reg_to_x86(src);
            code.push(0x48); code.push(0x01); code.push(0xc0 | (s << 3) | d);
        },
        Instruction::Sub(dst, src) => {
            let d = AshJit::reg_to_x86(dst); let s = AshJit::reg_to_x86(src);
            code.push(0x48); code.push(0x29); code.push(0xc0 | (s << 3) | d);
        },
        Instruction::And(dst, src) => {
            let d = AshJit::reg_to_x86(dst); let s = AshJit::reg_to_x86(src);
            code.push(0x48); code.push(0x21); code.push(0xc0 | (s << 3) | d);
        },
        Instruction::Or(dst, src) => {
            let d = AshJit::reg_to_x86(dst); let s = AshJit::reg_to_x86(src);
            code.push(0x48); code.push(0x09); code.push(0xc0 | (s << 3) | d);
        },
        Instruction::Xor(dst, src) => {
            let d = AshJit::reg_to_x86(dst); let s = AshJit::reg_to_x86(src);
            code.push(0x48); code.push(0x31); code.push(0xc0 | (s << 3) | d);
        },
        Instruction::JeqFwd(dst, src, _) => {
            let d = AshJit::reg_to_x86(dst); let s = AshJit::reg_to_x86(src);
            // cmp dst, src
            code.push(0x48); code.push(0x39); code.push(0xc0 | (s << 3) | d);
            // je rel32, displacement patched later
            code.push(0x0f); code.push(0x84);
            code.push(0); code.push(0); code.push(0); code.push(0);
        },
        Instruction::LoadContext(dst, offset) => {
            let d = AshJit::reg_to_x86(dst);
            if offset < 64 {
                // movzx r64, byte [rdi + offset]
                code.push(0x48); code.push(0x0f); code.push(0xb6); code.push(0x40 | (d << 3) | 0x07); code.push(offset as u8);
            } else {
                // mov r64, 0
                code.push(0x48); code.push(0xc7); code.push(0xc0 + d);
                code.push(0); code.push(0); code.push(0); code.push(0);
            }
        },
        Instruction::Exit => {
            code.push(0x5d); // pop rbp
            code.push(0x5b); // pop rbx
            code.push(0xc3); // ret
        },
    }
    assert(code@ =~= before + base_encoding(instr, key));
}

/// Appends the eight little-endian bytes of `v`.
fn push_u64_le(code: &mut Vec<u8>, v: u64)
    ensures
        final(code)@ == old(code)@ + le_bytes_u64(v),
{
    let ghost before = code@;
    let mut k: u64 = 0;
    while k < 8
        invariant
            k <= 8,
            code@ == before + le_bytes_u64(v).subrange(0, k as int),
        decreases 8 - k,
    {
        code.push(((v >> (8 * k)) & 0xff) as u8);
        assert(le_bytes_u64(v).subrange(0, k as int + 1) =~= le_bytes_u64(v).subrange(0, k as int).push(((v >> (8 * k)) & 0xff) as u8));
        k = k + 1;
    }
    assert(le_bytes_u64(v).subrange(0, 8) =~= le_bytes_u64(v));
}

/// The four little-endian bytes of `v`.
fn u32_le_bytes(v: u32) -> (r: [u8; 4])
    ensures
        r@ == le_bytes_u32(v),
{
    let r = [((v >> 0u32) & 0xff) as u8, ((v >> 8u32) & 0xff) as u8, ((v >> 16u32) & 0xff) as u8, ((v >> 24u32) & 0xff) as u8];
    assert(r@ =~= le_bytes_u32(v));
    r
}

} // verus!
