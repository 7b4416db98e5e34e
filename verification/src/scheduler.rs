//! Preemptive round-robin scheduling of kernel threads by saved stack
//! pointer.
use vstd::prelude::*;

verus! {

/// Size of a thread's stack in bytes.
pub const STACK_SIZE: usize = 16 * 1024;

/// Number of 64-bit words of the frame that starts a new thread: the 15
/// general-purpose registers the timer handler pops, then the interrupt
/// frame (RIP, CS, RFLAGS, RSP, SS) that `iretq` pops.
pub const INITIAL_FRAME_WORDS: usize = 20;

/// A kernel thread: its id, the stack pointer at which its context is
/// saved, and whether it runs.
#[derive(Clone, Copy)]
pub struct Thread {
    pub id: u64,
    pub rsp: u64,
    pub is_active: bool,
}

/// The words of a new thread's initial frame, from its stack pointer
/// upwards: zeroed registers, then RIP = `entry`, the kernel code segment,
/// RFLAGS with interrupts enabled, the stack top, and a null stack segment.
pub open spec fn initial_frame_spec(stack_top: u64, entry: u64) -> Seq<u64> {
    Seq::new(15, |i: int| 0u64) + seq![entry, 0x08u64, 0x202u64, stack_top, 0u64]
}

/// The words to store from the new thread's stack pointer
/// `stack_top - 8 * INITIAL_FRAME_WORDS` upwards.
pub fn initial_frame(stack_top: u64, entry: u64) -> (r: Vec<u64>)
    ensures
        r@ == initial_frame_spec(stack_top, entry),
{
    let mut words: Vec<u64> = Vec::new();
    let mut k: usize = 0;
    while k < 15
        invariant
            k <= 15,
            words@ == Seq::new(k as nat, |i: int| 0u64),
        decreases 15 - k,
    {
        words.push(0);
        k = k + 1;
        assert(words@ =~= Seq::new(k as nat, |i: int| 0u64));
    }
    words.push(entry);
    words.push(0x08);
    words.push(0x202);
    words.push(stack_top);
    words.push(0);
    assert(words@ =~= initial_frame_spec(stack_top, entry));
    words
}

impl Thread {
    /// A running thread whose context is the initial frame below
    /// `stack_top` (see [`initial_frame`]).
    pub fn new(id: u64, stack_top: u64) -> (r: Thread)
        requires
            stack_top >= 8 * INITIAL_FRAME_WORDS,
        ensures
            r.id == id,
            r.rsp == stack_top - 8 * INITIAL_FRAME_WORDS,
            r.is_active,
    {
        Thread { id, rsp: stack_top - 8 * INITIAL_FRAME_WORDS as u64, is_active: true }
    }
}

/// One scheduling step on the thread list `threads` with current thread
/// `cur`: the interrupted context `rsp` is saved to the current thread,
/// the next thread in turn becomes current, and its saved stack pointer is
/// returned.  With no threads, `rsp` comes back and nothing changes.
pub open spec fn sched_step(threads: Seq<Thread>, cur: int, rsp: u64) -> (Seq<Thread>, int, u64) {
    if threads.len() == 0 {
        (threads, cur, rsp)
    } else {
        let saved = threads.update(cur, Thread { rsp, ..threads[cur] });
        let next = (cur + 1) % (threads.len() as int);
        (saved, next, saved[next].rsp)
    }
}

/// The thread list and current index after the first `k` scheduling steps
/// with the interrupted contexts `rsps`.
pub open spec fn sched_after(threads: Seq<Thread>, cur: int, rsps: Seq<u64>, k: int) -> (Seq<Thread>, int)
    decreases k,
{
    if k <= 0 {
        (threads, cur)
    } else {
        let (t1, c1) = sched_after(threads, cur, rsps, k - 1);
        let (t2, c2, _) = sched_step(t1, c1, rsps[k - 1]);
        (t2, c2)
    }
}

/// The stack pointer returned by scheduling step `k` (counting from 1).
pub open spec fn sched_output(threads: Seq<Thread>, cur: int, rsps: Seq<u64>, k: int) -> u64 {
    let (t1, c1) = sched_after(threads, cur, rsps, k - 1);
    sched_step(t1, c1, rsps[k - 1]).2
}

proof fn lemma_mod_next(c: int, k: int, n: int)
    requires
        0 <= c < n,
        0 <= k <= n,
    ensures
        (c + k) % n == if c + k < n { c + k } else { c + k - n },
{
    if c + k < n {
        vstd::arithmetic::div_mod::lemma_fundamental_div_mod_converse(c + k, n, 0, c + k);
    } else {
        vstd::arithmetic::div_mod::lemma_fundamental_div_mod_converse(c + k, n, 1, c + k - n);
    }
}

proof fn lemma_sched_after(threads: Seq<Thread>, cur: int, rsps: Seq<u64>, k: int)
    requires
        threads.len() >= 1,
        0 <= cur < threads.len(),
        0 <= k <= rsps.len(),
        k <= threads.len(),
    ensures
        ({
            let (t, c) = sched_after(threads, cur, rsps, k);
            &&& t.len() == threads.len()
            &&& c == (cur + k) % (threads.len() as int)
            &&& 0 <= c < threads.len()
            &&& forall|j: int| 0 <= j < t.len() ==> #[trigger] t[j].id == threads[j].id
            &&& k >= 1 ==> t[cur].rsp == rsps[0]
        }),
    decreases k,
{
    let n = threads.len() as int;
    lemma_mod_next(cur, k, n);
    if k > 0 {
        lemma_sched_after(threads, cur, rsps, k - 1);
        lemma_mod_next(cur, k - 1, n);
        let (t1, c1) = sched_after(threads, cur, rsps, k - 1);
        lemma_mod_next(c1, 1, n);
        if k >= 2 {
            assert(c1 != cur);
        }
    }
}

/// Round-robin: every thread gets the processor in turn, so the context
/// saved by a scheduling step is the one resumed exactly one full rotation
/// later, the current index after `k` steps is `k` places further on, and
/// the thread ids never change.
pub proof fn lemma_round_robin(threads: Seq<Thread>, cur: int, rsps: Seq<u64>)
    requires
        threads.len() >= 1,
        0 <= cur < threads.len(),
        rsps.len() == threads.len(),
    ensures
        sched_output(threads, cur, rsps, threads.len() as int) == rsps[0],
        forall|k: int| 0 <= k <= threads.len() ==> #[trigger] sched_after(threads, cur, rsps, k).1 == (cur + k) % (threads.len() as int),
{
    let n = threads.len() as int;
    assert forall|k: int| 0 <= k <= n implies #[trigger] sched_after(threads, cur, rsps, k).1 == (cur + k) % n by {
        lemma_sched_after(threads, cur, rsps, k);
    }
    lemma_sched_after(threads, cur, rsps, n - 1);
    lemma_mod_next(cur, n - 1, n);
    lemma_mod_next(cur, n, n);
    let (t1, c1) = sched_after(threads, cur, rsps, n - 1);
    lemma_mod_next(c1, 1, n);
    assert((c1 + 1) % n == cur);
}

/// The round-robin scheduler.
pub struct Scheduler {
    pub threads: Vec<Thread>,
    pub current_idx: usize,
}

impl Scheduler {
    /// The current index names a thread, or is 0 when there is none.
    pub open spec fn wf(&self) -> bool {
        if self.threads@.len() == 0 {
            self.current_idx == 0
        } else {
            self.current_idx < self.threads@.len()
        }
    }

    /// A scheduler with no threads.
    pub fn new() -> (r: Self)
        ensures
            r.threads@ == Seq::<Thread>::empty(),
            r.current_idx == 0,
            r.wf(),
    {
        Scheduler { threads: Vec::new(), current_idx: 0 }
    }

    /// Adds a thread at the end of the rotation.
    pub fn spawn(&mut self, thread: Thread)
        ensures
            final(self).threads@ == old(self).threads@.push(thread),
            final(self).current_idx == old(self).current_idx,
            old(self).wf() ==> final(self).wf(),
    {
        self.threads.push(thread);
    }

    /// Saves `current_rsp` as the current thread's context, moves to the
    /// next thread in turn and returns the stack pointer to resume it at.
    pub fn next_task_rsp(&mut self, current_rsp: u64) -> (r: u64)
        requires
            old(self).threads@.len() == 0 || old(self).current_idx < old(self).threads@.len(),
        ensures
            (final(self).threads@, final(self).current_idx as int, r)
                == sched_step(old(self).threads@, old(self).current_idx as int, current_rsp),
            old(self).wf() ==> final(self).wf(),
    {
        if self.threads.len() == 0 {
            return current_rsp;
        }
        let cur = self.current_idx;
        let mut t = self.threads[cur];
        t.rsp = current_rsp;
        self.threads.set(cur, t);
        self.current_idx = (self.current_idx + 1) % self.threads.len();
        self.threads[self.current_idx].rsp
    }
}

} // verus!
