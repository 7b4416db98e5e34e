use pangea_kernel::apic::{apic_bases, eoi, init_ap, lapic_id, register_address, RegWrite, APIC_EOI, APIC_LVT_TIMER, APIC_SIVR, APIC_TIMER_DIV, APIC_TIMER_INIT};
use pangea_kernel::executor::{SimpleExecutor, YieldNow};
use pangea_kernel::interrupts::{InterruptIndex, PIC_1_OFFSET, PIC_2_OFFSET};
use pangea_kernel::memory::{create_per_core_page_table, page_range};
use pangea_kernel::sip::{Sip, SipId, SipIdCounter};
use pangea_kernel::smp::{ap_role, ApRole};
use pangea_kernel::syscall::{rust_syscall_router, star_value, SyscallAction, SyscallFrame};
use pangea_kernel::task::keyboard::{decoded_action, key_action, scancode_action, yield_now, Key, KeyAction, Keyboard, RawKey};

fn frame(rax: u64, rdi: u64, rsi: u64, rdx: u64) -> SyscallFrame {
    SyscallFrame { r9: 0, r8: 0, r10: 0, rdx, rsi, rdi, rax }
}

#[test]
fn syscall_write_to_stdout_and_stderr() {
    assert_eq!(rust_syscall_router(&frame(1, 1, 0x5000, 55)), (SyscallAction::Write { buf: 0x5000, count: 55 }, 55));
    assert_eq!(rust_syscall_router(&frame(1, 2, 0x10, 3)), (SyscallAction::Write { buf: 0x10, count: 3 }, 3));
}

#[test]
fn syscall_write_elsewhere_is_ignored() {
    assert_eq!(rust_syscall_router(&frame(1, 3, 0x10, 3)), (SyscallAction::Ignored, 0));
}

#[test]
fn syscall_exit() {
    assert_eq!(rust_syscall_router(&frame(60, 42, 0, 0)), (SyscallAction::Exit { code: 42 }, 0));
}

#[test]
fn syscall_unknown_number() {
    assert_eq!(rust_syscall_router(&frame(999, 0, 0, 0)), (SyscallAction::Unhandled { number: 999 }, (-38i64) as u64));
    assert_eq!(rust_syscall_router(&frame(0, 0, 0, 0)).1, 0xFFFF_FFFF_FFFF_FFDA);
}

#[test]
fn syscall_star_register() {
    assert_eq!(star_value(), 0x8 << 32);
}

#[test]
fn apic_timer_setup_sequence() {
    assert_eq!(
        init_ap(),
        vec![
            RegWrite { offset: APIC_SIVR, value: 0x1FF },
            RegWrite { offset: APIC_LVT_TIMER, value: 0x20020 },
            RegWrite { offset: APIC_TIMER_DIV, value: 3 },
            RegWrite { offset: APIC_TIMER_INIT, value: 10_000_000 },
        ]
    );
    assert_eq!(eoi(), RegWrite { offset: APIC_EOI, value: 0 });
}

#[test]
fn apic_id_and_addresses() {
    assert_eq!(lapic_id(0x0300_0000), 3);
    assert_eq!(lapic_id(0xff12_3456), 0xff);
    assert_eq!(register_address(0, 0x20), None);
    assert_eq!(register_address(0xffff_8000_fee0_0000, 0x20), Some(0xffff_8000_fee0_0020));
    assert_eq!(apic_bases(0xfee0_0900, 0xffff_8000_0000_0000), (0xfee0_0000, 0xffff_8000_fee0_0000));
}

#[test]
fn interrupt_vectors() {
    assert_eq!(PIC_1_OFFSET, 32);
    assert_eq!(PIC_2_OFFSET, 40);
    assert_eq!(InterruptIndex::Timer.as_u8(), 32);
    assert_eq!(InterruptIndex::Timer.as_usize(), 32);
}

#[test]
fn per_core_table_shares_higher_half() {
    let active: Vec<u64> = (0..512u64).map(|i| i * 0x1000 + 3).collect();
    let t = create_per_core_page_table(&active);
    assert_eq!(t.len(), 512);
    assert!(t[..256].iter().all(|&e| e == 0));
    assert_eq!(&t[256..], &active[256..]);
}

#[test]
fn heap_page_range() {
    let (first, last) = page_range(0x4444_4444_0000, 10 * 1024 * 1024);
    assert_eq!(first, 0x4444_4444_0000);
    assert_eq!(last, 0x4444_4444_0000 + 10 * 1024 * 1024 - 4096);
    assert_eq!(page_range(0x1234, 1), (0x1000, 0x1000));
    assert_eq!(page_range(0x1fff, 2), (0x1000, 0x2000));
}

#[test]
fn sip_ids_are_fresh_and_shared_with_env() {
    let mut counter = SipIdCounter::new();
    let a = SipId::new(&mut counter);
    let b = SipId::new(&mut counter);
    assert_eq!(a, SipId(1));
    assert_eq!(b, SipId(2));
    let (sip, env) = Sip::spawn(&mut counter);
    assert_eq!(sip.id(), SipId(3));
    assert_eq!(env.id(), sip.id());
    let (sip2, _) = Sip::spawn(&mut counter);
    assert!(sip2.id() != sip.id());
}

#[test]
fn executor_queue_is_fifo() {
    let mut ex = SimpleExecutor::new();
    ex.spawn('a');
    ex.spawn('b');
    let first = ex.next_task().unwrap();
    assert_eq!(first, 'a');
    // a pending task goes to the back
    ex.spawn(first);
    assert_eq!(ex.next_task(), Some('b'));
    assert_eq!(ex.next_task(), Some('a'));
    assert_eq!(ex.next_task(), None);
}

#[test]
fn yield_is_pending_once() {
    let mut y = YieldNow::new();
    assert!(!y.poll_ready());
    assert!(y.poll_ready());
    assert!(y.poll_ready());
    let mut k = yield_now();
    assert!(!k.poll_ready());
    assert!(k.poll_ready());
}

#[test]
fn keys_map_to_console_actions() {
    assert_eq!(key_action(Key::Raw(RawKey::PageUp)), KeyAction::ScrollUp);
    assert_eq!(key_action(Key::Raw(RawKey::ArrowUp)), KeyAction::ScrollUp);
    assert_eq!(key_action(Key::Raw(RawKey::PageDown)), KeyAction::ScrollDown);
    assert_eq!(key_action(Key::Raw(RawKey::ArrowDown)), KeyAction::ScrollDown);
    assert_eq!(key_action(Key::Raw(RawKey::Other)), KeyAction::Nothing);
    assert_eq!(key_action(Key::Unicode('x')), KeyAction::Print('x'));
}

#[test]
fn ap_roles() {
    assert_eq!(ap_role(0), ApRole::Idle);
    assert_eq!(ap_role(1), ApRole::Alpha);
    assert_eq!(ap_role(2), ApRole::Beta);
    assert_eq!(ap_role(3), ApRole::Idle);
}

#[test]
fn keyboard_scancodes_to_actions() {
    let mut kb = Keyboard::new();
    // 'A' key pressed, then released
    assert_eq!(scancode_action(&mut kb, 0x1E), (Some(Key::Unicode('a')), KeyAction::Print('a')));
    assert_eq!(scancode_action(&mut kb, 0x9E).1, KeyAction::Nothing);
    // Page Up: the extended prefix alone completes no key
    assert_eq!(scancode_action(&mut kb, 0xE0), (None, KeyAction::Nothing));
    assert_eq!(scancode_action(&mut kb, 0x49), (Some(Key::Raw(RawKey::PageUp)), KeyAction::ScrollUp));
    // arrow down
    assert_eq!(scancode_action(&mut kb, 0xE0).1, KeyAction::Nothing);
    assert_eq!(scancode_action(&mut kb, 0x50), (Some(Key::Raw(RawKey::ArrowDown)), KeyAction::ScrollDown));
    // with left shift held, 'A' is upper case
    assert_eq!(scancode_action(&mut kb, 0x2A).1, KeyAction::Nothing);
    assert_eq!(scancode_action(&mut kb, 0x1E).1, KeyAction::Print('A'));
}

#[test]
fn keyboard_decoded_action() {
    assert_eq!(decoded_action(None), KeyAction::Nothing);
    assert_eq!(decoded_action(Some(Key::Raw(RawKey::PageDown))), KeyAction::ScrollDown);
    assert_eq!(decoded_action(Some(Key::Unicode('z'))), KeyAction::Print('z'));
}

#[test]
fn sip_ids_are_unique_and_increasing() {
    let mut counter = SipIdCounter::new();
    let ids: Vec<u64> = (0..100).map(|_| SipId::new(&mut counter).0).collect();
    for (i, id) in ids.iter().enumerate() {
        assert_eq!(*id, 1 + i as u64);
    }
    for w in ids.windows(2) {
        assert!(w[0] < w[1]);
    }
}

#[test]
fn executor_requeues_pending_and_drops_finished_tasks() {
    let mut ex = SimpleExecutor::new();
    ex.spawn(1u32);
    ex.spawn(2u32);
    let t = ex.next_task().unwrap();
    ex.finish_poll(t, true);
    let t = ex.next_task().unwrap();
    assert_eq!(t, 2);
    ex.finish_poll(t, false);
    assert_eq!(ex.next_task(), Some(1));
    assert_eq!(ex.next_task(), None);
}

#[test]
fn keyboard_decoding_depends_on_earlier_scancodes() {
    // the same byte completes different keys after different histories
    let mut plain = Keyboard::new();
    assert_eq!(scancode_action(&mut plain, 0x49).0, Some(Key::Unicode('9')));
    let mut extended = Keyboard::new();
    assert_eq!(scancode_action(&mut extended, 0xE0).0, None);
    assert_eq!(scancode_action(&mut extended, 0x49).0, Some(Key::Raw(RawKey::PageUp)));
}
