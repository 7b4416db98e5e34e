//! The tick counter and the tasks sleeping until a tick.
use vstd::prelude::*;
use std::collections::BTreeMap;
use vstd::std_specs::iter::IteratorSpec;

verus! {

/// The wakers registered for ticks `0..=n`, in order of tick and, for one
/// tick, in order of registration.
pub open spec fn due_wakers(m: Map<usize, Vec<u64>>, n: int) -> Seq<u64>
    decreases n + 1,
{
    if n < 0 {
        Seq::empty()
    } else {
        due_wakers(m, n - 1) + if m.contains_key(n as usize) { m[n as usize]@ } else { Seq::empty() }
    }
}

/// The wakers registered for ticks after `n`.
pub open spec fn later_wakers(m: Map<usize, Vec<u64>>, n: int) -> Map<usize, Vec<u64>> {
    m.restrict(m.dom().filter(|k: usize| k > n))
}

/// The tick counter with the wakers (by id) of the tasks sleeping until
/// each tick.
pub struct Timer {
    ticks: usize,
    wakers: BTreeMap<usize, Vec<u64>>,
}

/// A future that is ready once the tick counter reaches `target_tick`.
pub struct SleepFuture {
    pub target_tick: usize,
}

impl Timer {
    /// Ticks counted so far.
    pub closed spec fn ticks_spec(&self) -> int {
        self.ticks as int
    }

    /// The registered wakers by tick.
    pub closed spec fn wakers_spec(&self) -> Map<usize, Vec<u64>> {
        self.wakers@
    }

    /// A timer at tick 0 with nobody sleeping.
    pub fn new() -> (r: Self)
        ensures
            r.ticks_spec() == 0,
            r.wakers_spec() == Map::<usize, Vec<u64>>::empty(),
    {
        Timer { ticks: 0, wakers: BTreeMap::new() }
    }
}

proof fn lemma_due_no_keys(m: Map<usize, Vec<u64>>, lo: int, hi: int)
    requires
        -1 <= lo <= hi <= usize::MAX,
        forall|k: usize| lo < k <= hi ==> !m.contains_key(k),
    ensures
        due_wakers(m, hi) == due_wakers(m, lo),
    decreases hi - lo,
{
    if hi > lo {
        lemma_due_no_keys(m, lo, hi - 1);
        assert(!m.contains_key(hi as usize));
        assert(due_wakers(m, hi) =~= due_wakers(m, hi - 1));
    }
}

/// Ticks counted so far.
pub fn get_ticks(timer: &Timer) -> (r: usize)
    ensures
        r == timer.ticks_spec(),
{
    timer.ticks
}

/// The key of entry `i` of a map's ordered entries.
pub open spec fn key_at(s: Seq<(&usize, &Vec<u64>)>, i: int) -> int {
    *s[i].0 as int
}

/// `s` lists the entries of `m` once each, in increasing key order.
pub open spec fn ordered_entries(m: Map<usize, Vec<u64>>, s: Seq<(&usize, &Vec<u64>)>) -> bool {
    &&& forall|i: int, j: int| 0 <= i < j < s.len() ==> key_at(s, i) < key_at(s, j)
    &&& forall|i: int| 0 <= i < s.len() ==> m.contains_key(*s[i].0) && m[*s[i].0] == *s[i].1
    &&& forall|k: usize| m.contains_key(k) ==> exists|i: int| 0 <= i < s.len() && key_at(s, i) == k
}

proof fn lemma_ordered_entries(m: Map<usize, Vec<u64>>, s: Seq<(&usize, &Vec<u64>)>)
    requires
        vstd::std_specs::btree::increasing_seq(s.map_values(|kv: (&usize, &Vec<u64>)| *kv.0)),
        forall|i: int| 0 <= i < s.len() ==> m.contains_key(*s[i].0) && m[*s[i].0] == *s[i].1,
        forall|k: usize| m.contains_key(k) ==> s.contains((&k, &m[k])),
    ensures
        ordered_entries(m, s),
{
    let keys = s.map_values(|kv: (&usize, &Vec<u64>)| *kv.0);
    assert(vstd::laws_cmp::obeys_cmp::<usize>());
    vstd::std_specs::btree::axiom_increasing_seq_meaning(keys);
    assert forall|i: int, j: int| 0 <= i < j < s.len() implies key_at(s, i) < key_at(s, j) by {
        assert(keys[i] == *s[i].0);
        assert(keys[j] == *s[j].0);
        assert(vstd::std_specs::cmp::OrdSpec::cmp_spec(&keys[i], &keys[j]) is Less);
    }
    assert forall|k: usize| m.contains_key(k) implies exists|i: int| 0 <= i < s.len() && key_at(s, i) == k by {
        let i = s.index_of((&k, &m[k]));
        assert(key_at(s, i) == k);
    }
}

/// Counts one tick and hands back, for waking, the wakers of every task
/// sleeping until the new tick or earlier, in order of tick; their entries
/// are dropped.
pub fn tick(timer: &mut Timer) -> (to_wake: Vec<u64>)
    requires
        old(timer).ticks_spec() < usize::MAX,
    ensures
        final(timer).ticks_spec() == old(timer).ticks_spec() + 1,
        to_wake@ == due_wakers(old(timer).wakers_spec(), old(timer).ticks_spec() + 1),
        final(timer).wakers_spec() == later_wakers(old(timer).wakers_spec(), old(timer).ticks_spec() + 1),
{
    broadcast use vstd::std_specs::btree::group_btree_axioms;
    let current = timer.ticks;
    timer.ticks = current + 1;
    let target = current + 1;
    let ghost m = timer.wakers@;

    let mut to_wake: Vec<u64> = Vec::new();
    let mut keys_to_remove: Vec<usize> = Vec::new();
    let iter = timer.wakers.iter();
    let ghost s = iter.remaining();
    proof {
        lemma_ordered_entries(m, s);
        assert forall|x: int| #![trigger due_wakers(m, x)]
            -1 <= x <= usize::MAX && (0 < s.len() ==> x < key_at(s, 0))
            implies to_wake@ == due_wakers(m, x) by {
            assert forall|kk: usize| -1 < kk <= x implies !m.contains_key(kk) by {
                if m.contains_key(kk) {
                    let i = choose|i: int| 0 <= i < s.len() && key_at(s, i) == kk;
                    if i > 0 {
                        assert(key_at(s, 0) < key_at(s, i));
                    }
                }
            }
            lemma_due_no_keys(m, -1, x);
            assert(to_wake@ =~= due_wakers(m, -1));
        }
    }
    for (tick, waker_list) in it: iter
        invariant_except_break
            keys_to_remove@.len() == it.index(),
            forall|i: int| 0 <= i < it.index() ==> keys_to_remove@[i] == key_at(s, i) && key_at(s, i) <= target,
            forall|x: int| #![trigger due_wakers(m, x)]
                (if it.index() == 0 { -1 } else { key_at(s, it.index() - 1) }) <= x <= usize::MAX
                && (it.index() < s.len() ==> x < key_at(s, it.index() as int))
                ==> to_wake@ == due_wakers(m, x),
            forall|k: usize| #![trigger keys_to_remove@.contains(k)]
                m.contains_key(k) && (it.index() < s.len() ==> k < key_at(s, it.index() as int)) && k <= target
                ==> keys_to_remove@.contains(k),
        invariant
            it.seq() == s,
            ordered_entries(m, s),
            m == timer.wakers@,
            target == current + 1,
            timer.ticks == target,
            forall|i: int| 0 <= i < keys_to_remove@.len() ==> m.contains_key(keys_to_remove@[i]) && keys_to_remove@[i] <= target,
            forall|i: int, j: int| 0 <= i < j < keys_to_remove@.len() ==> keys_to_remove@[i] < keys_to_remove@[j],
        ensures
            to_wake@ == due_wakers(m, target as int),
            forall|k: usize| m.contains_key(k) && k <= target ==> keys_to_remove@.contains(k),
    {
        let ghost idx = it.index() as int;
        let ghost prev = if idx == 0 { -1 } else { key_at(s, idx - 1) };
        assert(*tick == key_at(s, idx));
        assert(*waker_list == *s[idx].1);
        if *tick <= target {
            let ghost old_keys = keys_to_remove@;
            keys_to_remove.push(*tick);
            let ghost before = to_wake@;
            let mut j: usize = 0;
            while j < waker_list.len()
                invariant
                    j <= waker_list@.len(),
                    to_wake@ == before + waker_list@.subrange(0, j as int),
                decreases waker_list@.len() - j,
            {
                to_wake.push(waker_list[j]);
                j = j + 1;
                assert(to_wake@ =~= before + waker_list@.subrange(0, j as int));
            }
            assert(waker_list@.subrange(0, waker_list@.len() as int) =~= waker_list@);
            proof {
                let k = key_at(s, idx);
                if idx > 0 {
                    assert(key_at(s, idx - 1) < k);
                }
                assert(before == due_wakers(m, k - 1));
                assert(m.contains_key(k as usize) && m[k as usize] == *waker_list);
                assert(to_wake@ == due_wakers(m, k));
                assert forall|x: int| #![trigger due_wakers(m, x)]
                    k <= x <= usize::MAX && (idx + 1 < s.len() ==> x < key_at(s, idx + 1))
                    implies to_wake@ == due_wakers(m, x) by {
                    assert forall|kk: usize| k < kk <= x implies !m.contains_key(kk) by {
                        if m.contains_key(kk) {
                            let i = choose|i: int| 0 <= i < s.len() && key_at(s, i) == kk;
                            if i <= idx {
                                if i < idx {
                                    assert(key_at(s, i) < key_at(s, idx));
                                }
                            } else if i > idx + 1 {
                                assert(key_at(s, idx + 1) < key_at(s, i));
                            }
                        }
                    }
                    lemma_due_no_keys(m, k, x);
                }
                assert forall|kk: usize| #![trigger keys_to_remove@.contains(kk)]
                    m.contains_key(kk) && (idx + 1 < s.len() ==> kk < key_at(s, idx + 1)) && kk <= target
                    implies keys_to_remove@.contains(kk) by {
                    if kk == k {
                        assert(keys_to_remove@[idx] == kk);
                    } else {
                        let i = choose|i: int| 0 <= i < s.len() && key_at(s, i) == kk;
                        if i > idx {
                            if i > idx + 1 {
                                assert(key_at(s, idx + 1) < key_at(s, i));
                            }
                        }
                        if i < idx {
                            assert(key_at(s, i) < key_at(s, idx));
                        }
                        assert(i < idx);
                        assert(old_keys.contains(kk));
                        assert(keys_to_remove@[old_keys.index_of(kk)] == kk);
                    }
                }
            }
        } else {
            proof {
                assert(to_wake@ == due_wakers(m, target as int));
                assert forall|kk: usize| m.contains_key(kk) && kk <= target implies keys_to_remove@.contains(kk) by {
                    let i = choose|i: int| 0 <= i < s.len() && key_at(s, i) == kk;
                    if i > idx {
                        assert(key_at(s, idx) < key_at(s, i));
                    }
                    assert(keys_to_remove@[i] == kk);
                }
            }
            break;
        }
    }

    assert(keys_to_remove@.subrange(0, keys_to_remove@.len() as int) =~= keys_to_remove@);
    let mut k: usize = 0;
    while k < keys_to_remove.len()
        invariant
            forall|i: int, j: int| 0 <= i < j < keys_to_remove@.len() ==> keys_to_remove@[i] < keys_to_remove@[j],
            timer.ticks == target,
            k <= keys_to_remove@.len(),
            forall|i: int| 0 <= i < keys_to_remove@.len() ==> m.contains_key(keys_to_remove@[i]) && keys_to_remove@[i] <= target,
            forall|key: usize| m.contains_key(key) && key <= target ==> keys_to_remove@.contains(key),
            forall|key: usize| #[trigger] timer.wakers@.contains_key(key) <==> m.contains_key(key) && (key > target || keys_to_remove@.subrange(k as int, keys_to_remove@.len() as int).contains(key)),
            forall|key: usize| #[trigger] timer.wakers@.contains_key(key) ==> timer.wakers@[key] == m[key],
        decreases keys_to_remove@.len() - k,
    {
        let ghost before = timer.wakers@;
        timer.wakers.remove(&keys_to_remove[k]);
        proof {
            let removed = keys_to_remove@[k as int];
            let rest = keys_to_remove@.subrange(k as int + 1, keys_to_remove@.len() as int);
            assert(keys_to_remove@.subrange(k as int, keys_to_remove@.len() as int) =~= seq![removed] + rest);
            assert(!rest.contains(removed)) by {
                if rest.contains(removed) {
                    let j = rest.index_of(removed);
                    assert(keys_to_remove@[k as int] < keys_to_remove@[k + 1 + j]);
                }
            }
            assert(timer.wakers@ == before.remove(removed));
            assert forall|key: usize| #[trigger] timer.wakers@.contains_key(key) <==> m.contains_key(key) && (key > target || rest.contains(key)) by {
                if key != removed {
                    if rest.contains(key) {
                        assert((seq![removed] + rest).contains(key)) by {
                            let j = rest.index_of(key);
                            assert((seq![removed] + rest)[j + 1] == key);
                        }
                    }
                    if (seq![removed] + rest).contains(key) {
                        let j = (seq![removed] + rest).index_of(key);
                        assert(j != 0);
                        assert(rest[j - 1] == key);
                    }
                }
            }
        }
        k = k + 1;
    }
    to_wake
}

/// A future for `ticks` ticks from the current tick.
pub fn sleep(timer: &Timer, ticks: usize) -> (r: SleepFuture)
    requires
        timer.ticks_spec() + ticks <= usize::MAX,
    ensures
        r.target_tick == timer.ticks_spec() + ticks,
{
    let current = timer.ticks;
    SleepFuture { target_tick: current + ticks }
}

impl SleepFuture {
    /// Polls the sleep: ready once the target tick is reached; otherwise
    /// the task's waker goes last in the list for the target tick.
    pub fn poll(&self, timer: &mut Timer, waker: u64) -> (ready: bool)
        ensures
            ready == (old(timer).ticks_spec() >= self.target_tick),
            final(timer).ticks_spec() == old(timer).ticks_spec(),
            ready ==> final(timer).wakers_spec() == old(timer).wakers_spec(),
            !ready ==> final(timer).wakers_spec().dom() == old(timer).wakers_spec().dom().insert(self.target_tick),
            !ready ==> final(timer).wakers_spec()[self.target_tick]@ == (if old(timer).wakers_spec().contains_key(self.target_tick) {
                old(timer).wakers_spec()[self.target_tick]@
            } else {
                Seq::<u64>::empty()
            }).push(waker),
            !ready ==> forall|k: usize| k != self.target_tick && #[trigger] old(timer).wakers_spec().contains_key(k)
                ==> final(timer).wakers_spec()[k] == old(timer).wakers_spec()[k],
    {
        let current = timer.ticks;
        if current >= self.target_tick {
            true
        } else {
            let mut waker_list = match timer.wakers.remove(&self.target_tick) {
                Some(list) => list,
                None => Vec::new(),
            };
            waker_list.push(waker);
            timer.wakers.insert(self.target_tick, waker_list);
            false
        }
    }
}

/// A sleeper is woken by the first tick that reaches its target and not by
/// any earlier one: the wakers handed out up to tick `n` hold the waker
/// registered for tick `t` exactly when `n >= t`, when no other tick lists
/// it.
pub proof fn lemma_woken_at_target(m: Map<usize, Vec<u64>>, t: usize, w: u64, n: int)
    requires
        m.contains_key(t),
        m[t]@.contains(w),
        forall|k: usize| k != t && #[trigger] m.contains_key(k) ==> !m[k]@.contains(w),
        -1 <= n <= usize::MAX,
    ensures
        due_wakers(m, n).contains(w) <==> n >= t,
    decreases n + 1,
{
    if n >= 0 {
        lemma_woken_at_target(m, t, w, n - 1);
        let prev = due_wakers(m, n - 1);
        let here = if m.contains_key(n as usize) { m[n as usize]@ } else { Seq::empty() };
        if prev.contains(w) {
            let i = prev.index_of(w);
            assert((prev + here)[i] == w);
        }
        if n == t {
            let i = here.index_of(w);
            assert((prev + here)[prev.len() + i] == w);
        }
        if (prev + here).contains(w) {
            let i = (prev + here).index_of(w);
            if i >= prev.len() {
                assert(here[i - prev.len()] == w);
                assert(here.contains(w));
            } else {
                assert(prev[i] == w);
            }
        }
    }
}

} // verus!
