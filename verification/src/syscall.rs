//! Routing of Linux-numbered system calls made from inside ring 0.
use vstd::prelude::*;

verus! {

/// `write(fd, buf, count)`.
pub const SYS_WRITE: u64 = 1;

/// `exit(code)`.
pub const SYS_EXIT: u64 = 60;

/// The return value of an unknown system call: `-ENOSYS` (38) as the
/// Linux ABI hands it back in rax, in two's complement.
pub const ENOSYS_RETURN: u64 = 0xFFFF_FFFF_FFFF_FFDA;

/// Kernel code segment selector the STAR register hands to `syscall`; the
/// stack segment is the next descriptor.
pub const SYSCALL_CS: u64 = 0x8;

/// The STAR register value: the syscall code segment in bits 32-47.
pub fn star_value() -> (r: u64)
    ensures
        r == SYSCALL_CS << 32u64,
{
    let mut star: u64 = 0;
    star |= SYSCALL_CS << 32;
    assert(0u64 | (SYSCALL_CS << 32u64) == SYSCALL_CS << 32u64) by (bit_vector);
    star
}

/// The registers the entry stub saves, in the order it pushes them.
#[derive(Clone, Copy)]
pub struct SyscallFrame {
    pub r9: u64,
    pub r8: u64,
    pub r10: u64,
    pub rdx: u64,
    pub rsi: u64,
    pub rdi: u64,
    pub rax: u64,
}

/// What the kernel does for a system call, besides returning a value.
#[derive(Debug, Clone, Copy, PartialEq, Eq)]
pub enum SyscallAction {
    /// Print `count` bytes at `buf` on the serial console.
    Write { buf: u64, count: usize },
    /// A write to a descriptor other than standard output or error.
    Ignored,
    /// Report that the caller exited with `code`.
    Exit { code: u64 },
    /// Report an unknown system call number.
    Unhandled { number: u64 },
}

/// The action and the return value of a system call.
pub open spec fn syscall_spec(frame: SyscallFrame) -> (SyscallAction, u64) {
    if frame.rax == SYS_WRITE {
        if frame.rdi == 1 || frame.rdi == 2 {
            (SyscallAction::Write { buf: frame.rsi, count: frame.rdx as usize }, (frame.rdx as usize) as u64)
        } else {
            (SyscallAction::Ignored, 0)
        }
    } else if frame.rax == SYS_EXIT {
        (SyscallAction::Exit { code: frame.rdi }, 0)
    } else {
        (SyscallAction::Unhandled { number: frame.rax }, ENOSYS_RETURN)
    }
}

/// Routes a system call by its number in rax: `write` to standard output
/// or error prints the buffer and returns the byte count, other writes
/// return 0, `exit` is reported and returns 0, and any other number is
/// reported and returns `-ENOSYS`, that is `ENOSYS_RETURN`.
pub fn rust_syscall_router(frame: &SyscallFrame) -> (r: (SyscallAction, u64))
    ensures
        r == syscall_spec(*frame),
{
    let sys_no = frame.rax;
    match sys_no {
        1 => {
            let fd = frame.rdi;
            let buf_ptr = frame.rsi;
            let count = frame.rdx as usize;
            if fd == 1 || fd == 2 {
                return (SyscallAction::Write { buf: buf_ptr, count }, count as u64);
            }
            (SyscallAction::Ignored, 0)
        },
        60 => {
            let code = frame.rdi;
            (SyscallAction::Exit { code }, 0)
        },
        _ => {
            (SyscallAction::Unhandled { number: sys_no }, ENOSYS_RETURN)
        },
    }
}

} // verus!
