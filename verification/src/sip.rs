//! Software-isolated processes: their identities and capability tokens.
use vstd::prelude::*;

pub mod ash;
pub mod ipc;

verus! {

/// Identifies one software-isolated process.
#[derive(Debug, Clone, Copy, PartialEq, Eq, Structural)]
pub struct SipId(pub u64);

/// The source of process ids; ids are handed out in increasing order from 1.
pub struct SipIdCounter {
    next: u64,
}

impl SipIdCounter {
    /// The id the counter hands out next.
    pub closed spec fn next_id(&self) -> u64 {
        self.next
    }

    /// A counter whose first id is 1.
    pub fn new() -> (r: Self)
        ensures
            r.next_id() == 1,
    {
        SipIdCounter { next: 1 }
    }
}

impl SipId {
    /// A fresh id: the counter's next one; the counter moves on by one,
    /// wrapping at the end of the range.
    pub fn new(counter: &mut SipIdCounter) -> (r: SipId)
        ensures
            r.0 == old(counter).next_id(),
            final(counter).next_id() == vstd::wrapping::u64_specs::wrapping_add(old(counter).next_id(), 1),
    {
        let id = counter.next;
        counter.next = counter.next.wrapping_add(1);
        SipId(id)
    }
}

/// The counter's next id after `k` ids were handed out from `start`.
pub open spec fn counter_after(start: u64, k: nat) -> u64
    decreases k,
{
    if k == 0 {
        start
    } else {
        vstd::wrapping::u64_specs::wrapping_add(counter_after(start, (k - 1) as nat), 1)
    }
}

proof fn lemma_counter_after(start: u64, k: nat)
    requires
        start + k <= u64::MAX,
    ensures
        counter_after(start, k) == start + k,
    decreases k,
{
    if k > 0 {
        lemma_counter_after(start, (k - 1) as nat);
    }
}

/// Process ids are unique: of the first `k` ids a counter hands out from
/// `start` (the `i`-th being `counter_after(start, i)`), the `i`-th is
/// `start + i`, so they strictly increase and no two are equal, as long as
/// the counter does not wrap.  A new counter starts at 1.
pub proof fn lemma_ids_unique(start: u64, k: nat)
    requires
        start + k <= u64::MAX + 1,
    ensures
        forall|i: nat| i < k ==> #[trigger] counter_after(start, i) == start + i,
        forall|i: nat, j: nat| i < j < k ==> #[trigger] counter_after(start, i) < #[trigger] counter_after(start, j),
        forall|i: nat, j: nat| i < k && j < k && i != j ==> #[trigger] counter_after(start, i) != #[trigger] counter_after(start, j),
{
    assert forall|i: nat| i < k implies #[trigger] counter_after(start, i) == start + i by {
        lemma_counter_after(start, i);
    }
}

/// The capability token a process receives when it starts; it cannot be
/// cloned.
pub struct SipEnv {
    id: SipId,
}

impl SipEnv {
    /// The id of the process the token belongs to.
    pub closed spec fn id_spec(&self) -> SipId {
        self.id
    }

    /// The id of the process the token belongs to.
    pub fn id(&self) -> (r: SipId)
        ensures
            r == self.id_spec(),
    {
        self.id
    }
}

/// A software-isolated process; its body, a future, is driven by the
/// executor that runs it.
pub struct Sip {
    id: SipId,
}

impl Sip {
    /// The process id.
    pub closed spec fn id_spec(&self) -> SipId {
        self.id
    }

    /// Creates a process with a fresh id and the token its entry point is
    /// started with; both carry the same id.
    pub fn spawn(counter: &mut SipIdCounter) -> (r: (Sip, SipEnv))
        ensures
            r.0.id_spec().0 == old(counter).next_id(),
            r.1.id_spec() == r.0.id_spec(),
            final(counter).next_id() == vstd::wrapping::u64_specs::wrapping_add(old(counter).next_id(), 1),
    {
        let id = SipId::new(counter);
        let env = SipEnv { id };
        (Sip { id }, env)
    }

    /// The process id.
    pub fn id(&self) -> (r: SipId)
        ensures
            r == self.id_spec(),
    {
        self.id
    }
}

} // verus!
