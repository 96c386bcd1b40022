//! The per-node grow-only counter payload: a mapping from owning node id to
//! that node's locally observed total.  Only the owning node ever writes its
//! own entry; the aggregate value is the (saturating) sum over all entries.

use vstd::prelude::*;

verus! {

/// One counter entry: the owning node's id and its locally observed total.
pub struct CounterEntry {
    pub id: String,
    pub value: u64,
}

/// The grow-only counter state of one node, plus the latch recording whether
/// its background dissemination task has been started.
pub struct GcounterData {
    pub node_data: Vec<CounterEntry>,
    pub gossip_task_started: bool,
}

/// Every entry belongs to a different owning node.
pub open spec fn ids_distinct(s: Seq<CounterEntry>) -> bool {
    forall|i: int, j: int|
        0 <= i < j < s.len() ==> (#[trigger] s[i]).id@ != (#[trigger] s[j]).id@
}

/// Whether some entry is owned by `id`.
pub open spec fn has_entry(s: Seq<CounterEntry>, id: Seq<char>) -> bool {
    exists|i: int| 0 <= i < s.len() && (#[trigger] s[i]).id@ == id
}

/// The value recorded for `id`, taking an absent entry as zero.
pub open spec fn entry_value(s: Seq<CounterEntry>, id: Seq<char>) -> u64
    decreases s.len(),
{
    if s.len() == 0 {
        0u64
    } else if s.last().id@ == id {
        s.last().value
    } else {
        entry_value(s.drop_last(), id)
    }
}

/// Saturating addition on `u64`.
pub open spec fn sat_add(a: u64, b: u64) -> u64 {
    if a + b > u64::MAX {
        u64::MAX
    } else {
        (a + b) as u64
    }
}

/// The saturating sum of all entry values.
pub open spec fn sat_sum(s: Seq<CounterEntry>) -> u64
    decreases s.len(),
{
    if s.len() == 0 {
        0u64
    } else {
        sat_add(sat_sum(s.drop_last()), s.last().value)
    }
}

/// With distinct owners, the recorded value of entry `i`'s owner is exactly
/// that entry's value.
pub proof fn lemma_entry_value_at(s: Seq<CounterEntry>, i: int)
    requires
        ids_distinct(s),
        0 <= i < s.len(),
    ensures
        entry_value(s, s[i].id@) == s[i].value,
    decreases s.len(),
{
    if i == s.len() - 1 {
    } else {
        assert(s.drop_last()[i] == s[i]);
        lemma_entry_value_at(s.drop_last(), i);
    }
}

/// An owner without an entry reads as zero.
pub proof fn lemma_entry_value_absent(s: Seq<CounterEntry>, id: Seq<char>)
    requires
        !has_entry(s, id),
    ensures
        entry_value(s, id) == 0,
    decreases s.len(),
{
    if s.len() > 0 {
        assert(s[s.len() - 1].id@ != id);
        assert(forall|i: int|
            0 <= i < s.drop_last().len() ==> (#[trigger] s.drop_last()[i]) == s[i]);
        lemma_entry_value_absent(s.drop_last(), id);
    }
}

/// Overwriting entry `i` leaves every other owner's recorded value alone.
pub proof fn lemma_entry_value_update_other(
    s: Seq<CounterEntry>,
    i: int,
    e: CounterEntry,
    other: Seq<char>,
)
    requires
        0 <= i < s.len(),
        other != e.id@,
        other != s[i].id@,
    ensures
        entry_value(s.update(i, e), other) == entry_value(s, other),
    decreases s.len(),
{
    let t = s.update(i, e);
    if i == s.len() - 1 {
        assert(t.drop_last() =~= s.drop_last());
    } else {
        assert(t.last() == s.last());
        assert(t.drop_last() =~= s.drop_last().update(i, e));
        lemma_entry_value_update_other(s.drop_last(), i, e, other);
    }
}

/// Appending an entry leaves every other owner's recorded value alone.
pub proof fn lemma_entry_value_push_other(s: Seq<CounterEntry>, e: CounterEntry, other: Seq<char>)
    requires
        other != e.id@,
    ensures
        entry_value(s.push(e), other) == entry_value(s, other),
{
    assert(s.push(e).drop_last() =~= s);
}

impl GcounterData {
    /// Well-formedness: one entry per owning node.
    pub open spec fn wf(self) -> bool {
        ids_distinct(self.node_data@)
    }

    /// Creates an empty counter payload with no background task started.
    pub fn new() -> (r: Self)
        ensures
            r.wf(),
            r.node_data@ == Seq::<CounterEntry>::empty(),
            !r.gossip_task_started,
    {
        Self { node_data: Vec::new(), gossip_task_started: false }
    }

    /// Position of the entry owned by `id`, if any.
    fn find_entry(&self, id: &String) -> (r: Option<usize>)
        ensures
            match r {
                Some(i) => i < self.node_data@.len() && self.node_data@[i as int].id@ == id@,
                None => !has_entry(self.node_data@, id@),
            },
    {
        let mut i: usize = 0;
        while i < self.node_data.len()
            invariant
                i <= self.node_data.len(),
                forall|k: int| 0 <= k < i ==> (#[trigger] self.node_data@[k]).id@ != id@,
            decreases self.node_data.len() - i,
        {
            if self.node_data[i].id == *id {
                return Some(i);
            }
            i = i + 1;
        }
        None
    }

    /// Adds `delta` (saturating) to the entry owned by `id`, creating the
    /// entry at `delta` when absent.  Only the owning node calls this for its
    /// own id, so plain read-modify-write is safe.
    pub fn increment_own(&mut self, id: &String, delta: u64)
        requires
            old(self).wf(),
        ensures
            final(self).wf(),
            final(self).gossip_task_started == old(self).gossip_task_started,
            entry_value(final(self).node_data@, id@)
                == sat_add(entry_value(old(self).node_data@, id@), delta),
            forall|other: Seq<char>| other != id@
                ==> entry_value(final(self).node_data@, other)
                    == entry_value(old(self).node_data@, other),
            forall|other: Seq<char>| other != id@
                ==> has_entry(final(self).node_data@, other)
                    == has_entry(old(self).node_data@, other),
            has_entry(final(self).node_data@, id@),
            sat_sum(final(self).node_data@) >= sat_sum(old(self).node_data@),
    {
        self.write_entry(id, delta, true);
    }

    /// Overwrites the cached copy of `id`'s entry with `value`, as received
    /// from `id`'s own gossip; creates the entry when absent.  Last-write
    /// overwrite is safe because each entry has exactly one legitimate
    /// writer, from whose perspective values never decrease.
    pub fn set_entry(&mut self, id: &String, value: u64)
        requires
            old(self).wf(),
        ensures
            final(self).wf(),
            final(self).gossip_task_started == old(self).gossip_task_started,
            entry_value(final(self).node_data@, id@) == value,
            forall|other: Seq<char>| other != id@
                ==> entry_value(final(self).node_data@, other)
                    == entry_value(old(self).node_data@, other),
            forall|other: Seq<char>| other != id@
                ==> has_entry(final(self).node_data@, other)
                    == has_entry(old(self).node_data@, other),
            has_entry(final(self).node_data@, id@),
            value >= entry_value(old(self).node_data@, id@)
                ==> sat_sum(final(self).node_data@) >= sat_sum(old(self).node_data@),
    {
        self.write_entry(id, value, false);
    }

    /// Shared write path: either bump the owner's entry by `arg` (saturating)
    /// or overwrite it with `arg`.
    fn write_entry(&mut self, id: &String, arg: u64, bump: bool)
        requires
            old(self).wf(),
        ensures
            final(self).wf(),
            final(self).gossip_task_started == old(self).gossip_task_started,
            entry_value(final(self).node_data@, id@) == (if bump {
                sat_add(entry_value(old(self).node_data@, id@), arg)
            } else {
                arg
            }),
            forall|other: Seq<char>| other != id@
                ==> entry_value(final(self).node_data@, other)
                    == entry_value(old(self).node_data@, other),
            forall|other: Seq<char>| other != id@
                ==> has_entry(final(self).node_data@, other)
                    == has_entry(old(self).node_data@, other),
            has_entry(final(self).node_data@, id@),
            (if bump {
                true
            } else {
                arg >= entry_value(old(self).node_data@, id@)
            }) ==> sat_sum(final(self).node_data@) >= sat_sum(old(self).node_data@),
    {
        let ghost olds = old(self).node_data@;
        match self.find_entry(id) {
            Some(i) => {
                let prev = self.node_data[i].value;
                let new_value = if bump {
                    prev.saturating_add(arg)
                } else {
                    arg
                };
                let mut e = self.node_data.remove(i);
                e.value = new_value;
                self.node_data.insert(i, e);
                proof {
                    let news = self.node_data@;
                    assert(news =~= olds.update(i as int, news[i as int]));
                    assert(news[i as int].id@ == id@);
                    lemma_entry_value_at(olds, i as int);
                    lemma_entry_value_at(news, i as int);
                    assert forall|other: Seq<char>| other != id@
                        implies entry_value(news, other) == entry_value(olds, other) by {
                        lemma_entry_value_update_other(olds, i as int, news[i as int], other);
                    }
                    assert forall|other: Seq<char>| other != id@
                        implies has_entry(news, other) == has_entry(olds, other) by {
                        if has_entry(news, other) {
                            let j = choose|j: int|
                                0 <= j < news.len() && (#[trigger] news[j]).id@ == other;
                            assert((#[trigger] olds[j]).id@ == other);
                        }
                        if has_entry(olds, other) {
                            let j = choose|j: int|
                                0 <= j < olds.len() && (#[trigger] olds[j]).id@ == other;
                            assert((#[trigger] news[j]).id@ == other);
                        }
                    }
                    if bump || new_value >= prev {
                        lemma_sat_sum_update_geq(olds, i as int, news[i as int]);
                    }
                }
            },
            None => {
                let e = CounterEntry { id: id.clone(), value: arg };
                self.node_data.push(e);
                proof {
                    let news = self.node_data@;
                    assert(news.last().id@ == id@);
                    assert(news.drop_last() =~= olds);
                    lemma_entry_value_absent(olds, id@);
                    assert forall|other: Seq<char>| other != id@
                        implies entry_value(news, other) == entry_value(olds, other) by {
                        lemma_entry_value_push_other(olds, news.last(), other);
                    }
                    assert forall|other: Seq<char>| other != id@
                        implies has_entry(news, other) == has_entry(olds, other) by {
                        if has_entry(news, other) {
                            let j = choose|j: int|
                                0 <= j < news.len() && (#[trigger] news[j]).id@ == other;
                            assert(j < olds.len());
                            assert((#[trigger] olds[j]).id@ == other);
                        }
                        if has_entry(olds, other) {
                            let j = choose|j: int|
                                0 <= j < olds.len() && (#[trigger] olds[j]).id@ == other;
                            assert((#[trigger] news[j]).id@ == other);
                        }
                    }
                    assert forall|i: int, j: int|
                        0 <= i < j < news.len()
                        implies (#[trigger] news[i]).id@ != (#[trigger] news[j]).id@ by {
                        if j == news.len() - 1 {
                            assert(olds[i].id@ != id@);
                        }
                    }
                    assert(sat_sum(news) == sat_add(sat_sum(olds), arg));
                }
            },
        }
    }

    /// The value recorded for `id`, zero when absent.
    pub fn get_value(&self, id: &String) -> (r: u64)
        requires
            self.wf(),
        ensures
            r == entry_value(self.node_data@, id@),
    {
        match self.find_entry(id) {
            Some(i) => {
                proof {
                    lemma_entry_value_at(self.node_data@, i as int);
                }
                self.node_data[i].value
            },
            None => {
                proof {
                    lemma_entry_value_absent(self.node_data@, id@);
                }
                0
            },
        }
    }

    /// The aggregate counter value: the saturating sum of every entry.
    pub fn total(&self) -> (r: u64)
        ensures
            r == sat_sum(self.node_data@),
    {
        let mut acc: u64 = 0;
        let mut i: usize = 0;
        while i < self.node_data.len()
            invariant
                i <= self.node_data.len(),
                acc == sat_sum(self.node_data@.subrange(0, i as int)),
            decreases self.node_data.len() - i,
        {
            acc = acc.saturating_add(self.node_data[i].value);
            proof {
                let s = self.node_data@;
                assert(s.subrange(0, i + 1 as int).drop_last() =~= s.subrange(0, i as int));
                assert(s.subrange(0, i + 1 as int).last() == s[i as int]);
            }
            i = i + 1;
        }
        proof {
            assert(self.node_data@.subrange(0, self.node_data@.len() as int)
                =~= self.node_data@);
        }
        acc
    }
}

/// The mathematical sum of all entry values.
pub open spec fn exact_sum(s: Seq<CounterEntry>) -> int
    decreases s.len(),
{
    if s.len() == 0 {
        0
    } else {
        exact_sum(s.drop_last()) + s.last().value
    }
}

/// The mathematical sum never goes negative.
pub proof fn lemma_exact_sum_nonneg(s: Seq<CounterEntry>)
    ensures
        exact_sum(s) >= 0,
    decreases s.len(),
{
    if s.len() > 0 {
        lemma_exact_sum_nonneg(s.drop_last());
    }
}

/// While the mathematical sum fits in the machine word, the saturating sum
/// read out by `total` equals it exactly.
pub proof fn lemma_sat_sum_exact(s: Seq<CounterEntry>)
    requires
        exact_sum(s) <= u64::MAX,
    ensures
        sat_sum(s) == exact_sum(s),
    decreases s.len(),
{
    if s.len() > 0 {
        lemma_exact_sum_nonneg(s.drop_last());
        lemma_sat_sum_exact(s.drop_last());
    }
}

/// Raising one entry's value (same owner) never lowers the saturating sum.
pub proof fn lemma_sat_sum_update_geq(s: Seq<CounterEntry>, i: int, e: CounterEntry)
    requires
        0 <= i < s.len(),
        e.value >= s[i].value,
    ensures
        sat_sum(s.update(i, e)) >= sat_sum(s),
    decreases s.len(),
{
    let t = s.update(i, e);
    if i == s.len() - 1 {
        assert(t.drop_last() =~= s.drop_last());
    } else {
        assert(t.last() == s.last());
        assert(t.drop_last() =~= s.drop_last().update(i, e));
        lemma_sat_sum_update_geq(s.drop_last(), i, e);
    }
}

} // verus!
