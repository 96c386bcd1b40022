//! A fixed-capacity least-recently-used cache.
//!
//! `touch`-style insertion (`add_val`) moves an existing key to the
//! most-recently-used position or inserts it there; insertion beyond
//! capacity evicts the least-recently-used key.  The backing structure is a
//! doubly-linked recency order kept in an index-based arena: a contiguous
//! table of entries addressed by integer handle, with explicit previous /
//! next handle fields and a free list for reclaimed slots, which avoids any
//! reference-cycle bookkeeping.

use vstd::prelude::*;

verus! {

/// One arena slot: the stored key and the neighbouring handles in recency
/// order.
pub struct DoublyLinkedListNode {
    pub val: u64,
    pub next: Option<usize>,
    pub prev: Option<usize>,
}

/// The recency order: an arena of slots threaded into a doubly-linked list
/// from most- (`head`) to least-recently used (`tail`), plus the free list
/// of reclaimed handles.  The ghost `order` names the handles in list
/// order and ties the link fields to it.
pub struct DoublyLinkedList {
    pub nodes: Vec<DoublyLinkedListNode>,
    pub head: Option<usize>,
    pub tail: Option<usize>,
    pub free: Vec<usize>,
    pub order: Ghost<Seq<usize>>,
}

impl DoublyLinkedList {
    /// The stored keys, most-recently used first.
    pub open spec fn vals(self) -> Seq<u64> {
        Seq::new(self.order@.len(), |k: int| self.nodes@[self.order@[k] as int].val)
    }

    /// Well-formedness: the ghost order holds distinct valid handles, the
    /// link fields thread exactly that order, the free list holds distinct
    /// valid handles disjoint from it, and no key is stored twice.
    pub open spec fn wf(self) -> bool {
        let ord = self.order@;
        &&& (forall|k: int| 0 <= k < ord.len() ==> (#[trigger] ord[k]) < self.nodes@.len())
        &&& ord.no_duplicates()
        &&& (forall|k: int|
            0 <= k < self.free@.len() ==> (#[trigger] self.free@[k]) < self.nodes@.len())
        &&& self.free@.no_duplicates()
        &&& (forall|k: int| 0 <= k < self.free@.len() ==> !ord.contains(#[trigger] self.free@[k]))
        &&& self.head == (if ord.len() == 0 {
            Option::<usize>::None
        } else {
            Some(ord[0])
        })
        &&& self.tail == (if ord.len() == 0 {
            Option::<usize>::None
        } else {
            Some(ord.last())
        })
        &&& (forall|k: int|
            0 <= k < ord.len() ==> (#[trigger] self.nodes@[ord[k] as int]).next == (if k + 1
                < ord.len() {
                Some(ord[k + 1])
            } else {
                Option::<usize>::None
            }))
        &&& (forall|k: int|
            0 <= k < ord.len() ==> (#[trigger] self.nodes@[ord[k] as int]).prev == (if k > 0 {
                Some(ord[k - 1])
            } else {
                Option::<usize>::None
            }))
        &&& (forall|k1: int, k2: int|
            0 <= k1 < k2 < ord.len() ==> (#[trigger] self.nodes@[ord[k1] as int]).val
                != (#[trigger] self.nodes@[ord[k2] as int]).val)
    }

    /// Every arena slot is either in the recency order or on the free list.
    pub open spec fn complete(self) -> bool {
        self.order@.len() + self.free@.len() == self.nodes@.len()
    }

    /// Creates an empty list.
    pub fn new() -> (r: Self)
        ensures
            r.wf(),
            r.complete(),
            r.vals() == Seq::<u64>::empty(),
            r.order@ == Seq::<usize>::empty(),
    {
        Self {
            nodes: Vec::new(),
            head: None,
            tail: None,
            free: Vec::new(),
            order: Ghost(Seq::empty()),
        }
    }

    /// Walks the list for the handle storing `val`.
    fn find(&self, val: u64) -> (r: Option<usize>)
        requires
            self.wf(),
        ensures
            match r {
                Some(i) => self.order@.contains(i) && i < self.nodes@.len()
                    && self.nodes@[i as int].val == val,
                None => !self.vals().contains(val),
            },
    {
        let ghost ord = self.order@;
        let mut cur: Option<usize> = self.head;
        let ghost mut k: int = 0;
        loop
            invariant
                self.wf(),
                ord == self.order@,
                0 <= k <= ord.len(),
                cur == (if k < ord.len() {
                    Some(ord[k])
                } else {
                    Option::<usize>::None
                }),
                forall|j: int|
                    0 <= j < k ==> (#[trigger] self.nodes@[ord[j] as int]).val != val,
            decreases ord.len() - k,
        {
            match cur {
                Some(i) => {
                    proof {
                        assert(ord[k] == i);
                        assert(i < self.nodes@.len());
                    }
                    if self.nodes[i].val == val {
                        proof {
                            assert(ord.contains(i));
                        }
                        return Some(i);
                    }
                    cur = self.nodes[i].next;
                    proof {
                        k = k + 1;
                    }
                },
                None => {
                    proof {
                        assert(k == ord.len());
                        assert forall|j: int| 0 <= j < self.vals().len()
                            implies self.vals()[j] != val by {
                            assert(self.nodes@[ord[j] as int].val != val);
                        }
                    }
                    return None;
                },
            }
        }
    }

    /// Unlinks the handle `i` from the recency order, leaving its slot
    /// parked outside both the order and the free list.
    fn detach(&mut self, i: usize)
        requires
            old(self).wf(),
            old(self).order@.contains(i),
        ensures
            final(self).wf(),
            final(self).order@ == old(self).order@.remove(old(self).order@.index_of(i)),
            final(self).vals() == old(self).vals().remove(old(self).order@.index_of(i)),
            final(self).free == old(self).free,
            final(self).nodes@.len() == old(self).nodes@.len(),
            i < final(self).nodes@.len(),
            final(self).nodes@[i as int].val == old(self).nodes@[i as int].val,
            !final(self).order@.contains(i),
            forall|j: int|
                0 <= j < final(self).nodes@.len() ==> (#[trigger] final(self).nodes@[j]).val
                    == old(self).nodes@[j].val,
    {
        let ghost ord = self.order@;
        let ghost k = ord.index_of(i);
        proof {
            assert(0 <= k < ord.len() && ord[k] == i);
        }
        let prev = self.nodes[i].prev;
        let next = self.nodes[i].next;
        match prev {
            Some(p) => {
                proof {
                    assert(self.nodes@[ord[k] as int].prev == Some(ord[k - 1]));
                    assert(p == ord[k - 1]);
                    assert(p < self.nodes@.len());
                }
                self.nodes[p].next = next;
            },
            None => {
                self.head = next;
            },
        }
        match next {
            Some(nx) => {
                proof {
                    assert(old(self).nodes@[ord[k] as int].next == (if k + 1 < ord.len() {
                        Some(ord[k + 1])
                    } else {
                        Option::<usize>::None
                    }));
                    assert(nx == ord[k + 1]);
                    assert(nx < self.nodes@.len());
                }
                self.nodes[nx].prev = prev;
            },
            None => {
                self.tail = prev;
            },
        }
        self.nodes[i].prev = None;
        self.nodes[i].next = None;
        proof {
            self.order = Ghost(ord.remove(k));
        }
        proof {
            let newo = self.order@;
            assert(newo.len() == ord.len() - 1);
            assert forall|m1: int, m2: int| 0 <= m1 < m2 < ord.len()
                implies ord[m1] != ord[m2] by {}
            if !(!newo.contains(i)) {
                let m = choose|m: int| 0 <= m < newo.len() && newo[m] == i;
                if m < k {
                    assert(ord[m] == i && ord[k] == i);
                } else {
                    assert(ord[m + 1] == i && ord[k] == i);
                }
            }
            assert forall|m: int| 0 <= m < newo.len()
                implies (#[trigger] self.nodes@[newo[m] as int]).next == (if m + 1 < newo.len() {
                Some(newo[m + 1])
            } else {
                Option::<usize>::None
            }) && (#[trigger] self.nodes@[newo[m] as int]).prev == (if m > 0 {
                Some(newo[m - 1])
            } else {
                Option::<usize>::None
            }) by {
                let x = newo[m];
                if m < k {
                    assert(x == ord[m]);
                } else {
                    assert(x == ord[m + 1]);
                }
            }
            assert(self.vals() =~= old(self).vals().remove(k));
        }
    }

    /// Threads the parked handle `i` in at the most-recently-used end.
    fn push_front(&mut self, i: usize)
        requires
            old(self).wf(),
            i < old(self).nodes@.len(),
            !old(self).order@.contains(i),
            !old(self).free@.contains(i),
            forall|m: int|
                0 <= m < old(self).order@.len()
                    ==> (#[trigger] old(self).nodes@[old(self).order@[m] as int]).val
                    != old(self).nodes@[i as int].val,
        ensures
            final(self).wf(),
            final(self).order@ == seq![i] + old(self).order@,
            final(self).vals() == seq![old(self).nodes@[i as int].val] + old(self).vals(),
            final(self).free == old(self).free,
            final(self).nodes@.len() == old(self).nodes@.len(),
            forall|j: int|
                0 <= j < final(self).nodes@.len() ==> (#[trigger] final(self).nodes@[j]).val
                    == old(self).nodes@[j].val,
    {
        let ghost ord = self.order@;
        match self.head {
            Some(h) => {
                proof {
                    assert(h == ord[0]);
                    assert(h < self.nodes@.len());
                    assert(h != i);
                }
                self.nodes[i].next = Some(h);
                self.nodes[i].prev = None;
                self.nodes[h].prev = Some(i);
                self.head = Some(i);
            },
            None => {
                self.nodes[i].next = None;
                self.nodes[i].prev = None;
                self.head = Some(i);
                self.tail = Some(i);
            },
        }
        proof {
            self.order = Ghost(seq![i] + ord);
        }
        proof {
            let newo = self.order@;
            assert(newo[0] == i);
            assert forall|m: int| 0 <= m < ord.len() implies #[trigger] newo[m + 1] == ord[m] by {}
            assert forall|m1: int, m2: int| 0 <= m1 < m2 < newo.len()
                implies newo[m1] != newo[m2] by {
                if m1 == 0 {
                    assert(ord[m2 - 1] == newo[m2]);
                    assert(ord.contains(ord[m2 - 1]));
                } else {
                    assert(newo[m1] == ord[m1 - 1] && newo[m2] == ord[m2 - 1]);
                }
            }
            assert forall|m: int| 0 <= m < self.free@.len()
                implies !newo.contains(#[trigger] self.free@[m]) by {
                if newo.contains(self.free@[m]) {
                    let w = choose|w: int| 0 <= w < newo.len() && newo[w] == self.free@[m];
                    if w == 0 {
                        assert(self.free@[m] == i);
                        assert(old(self).free@.contains(i));
                    } else {
                        assert(ord[w - 1] == self.free@[m]);
                        assert(ord.contains(self.free@[m]));
                    }
                }
            }
            if ord.len() > 0 {
                assert(newo.last() == ord.last());
            }
            assert forall|m: int| 0 <= m < newo.len()
                implies (#[trigger] self.nodes@[newo[m] as int]).next == (if m + 1 < newo.len() {
                Some(newo[m + 1])
            } else {
                Option::<usize>::None
            }) && (#[trigger] self.nodes@[newo[m] as int]).prev == (if m > 0 {
                Some(newo[m - 1])
            } else {
                Option::<usize>::None
            }) by {
                if m >= 1 {
                    assert(newo[m] == ord[m - 1]);
                }
            }
            assert forall|m1: int, m2: int| 0 <= m1 < m2 < newo.len()
                implies (#[trigger] self.nodes@[newo[m1] as int]).val
                    != (#[trigger] self.nodes@[newo[m2] as int]).val by {
                if m1 == 0 {
                    assert(old(self).nodes@[ord[m2 - 1] as int].val
                        != old(self).nodes@[i as int].val);
                } else {
                    assert(newo[m1] == ord[m1 - 1] && newo[m2] == ord[m2 - 1]);
                }
            }
            assert(self.vals() =~= seq![old(self).nodes@[i as int].val] + old(self).vals());
        }
    }

    /// Takes a handle for a fresh entry storing `val`: reuses a reclaimed
    /// slot if one exists, otherwise grows the arena.
    fn acquire_slot(&mut self, val: u64) -> (i: usize)
        requires
            old(self).wf(),
        ensures
            final(self).wf(),
            i < final(self).nodes@.len(),
            !final(self).order@.contains(i),
            !final(self).free@.contains(i),
            final(self).nodes@[i as int].val == val,
            final(self).order@ == old(self).order@,
            final(self).vals() == old(self).vals(),
            final(self).head == old(self).head,
            final(self).tail == old(self).tail,
            old(self).complete() ==> final(self).order@.len() + final(self).free@.len() + 1
                == final(self).nodes@.len(),
            forall|j: int|
                0 <= j < old(self).nodes@.len() && j != i ==> (#[trigger] final(self).nodes@[j])
                    == old(self).nodes@[j],
    {
        let entry = DoublyLinkedListNode { val, next: None, prev: None };
        match self.free.pop() {
            Some(i) => {
                proof {
                    assert(old(self).free@.last() == i);
                    assert(i < self.nodes@.len());
                    assert(!self.order@.contains(i));
                }
                self.nodes[i] = entry;
                proof {
                    assert forall|m: int| 0 <= m < self.order@.len()
                        implies (#[trigger] self.nodes@[self.order@[m] as int])
                            == old(self).nodes@[self.order@[m] as int] by {
                        assert(self.order@[m] != i);
                    }
                    if self.free@.contains(i) {
                        let w = choose|w: int|
                            0 <= w < self.free@.len() && self.free@[w] == i;
                        assert(old(self).free@[w] == i);
                        assert(old(self).free@[old(self).free@.len() - 1] == i);
                    }
                    assert(self.vals() =~= old(self).vals());
                }
                i
            },
            None => {
                let i = self.nodes.len();
                self.nodes.push(entry);
                proof {
                    assert forall|m: int| 0 <= m < self.order@.len()
                        implies (#[trigger] self.nodes@[self.order@[m] as int])
                            == old(self).nodes@[self.order@[m] as int] by {
                        assert(self.order@[m] < i);
                    }
                    assert(self.vals() =~= old(self).vals());
                }
                i
            },
        }
    }

    /// Returns the parked handle `i` to the free list.
    fn release(&mut self, i: usize)
        requires
            old(self).wf(),
            i < old(self).nodes@.len(),
            !old(self).order@.contains(i),
            !old(self).free@.contains(i),
        ensures
            final(self).wf(),
            final(self).order@ == old(self).order@,
            final(self).vals() == old(self).vals(),
            final(self).nodes == old(self).nodes,
            final(self).head == old(self).head,
            final(self).tail == old(self).tail,
            final(self).free@ == old(self).free@.push(i),
    {
        self.free.push(i);
        proof {
            assert forall|m1: int, m2: int| 0 <= m1 < m2 < self.free@.len()
                implies self.free@[m1] != self.free@[m2] by {
                if m2 == self.free@.len() - 1 {
                    if old(self).free@[m1] == i {
                        assert(old(self).free@.contains(i));
                    }
                }
            }
            assert(self.vals() =~= old(self).vals());
        }
    }
}

/// Removes the first occurrence of `v` from `s`, if any.
pub open spec fn remove_first(s: Seq<u64>, v: u64) -> Seq<u64> {
    if s.contains(v) {
        s.remove(s.index_of(v))
    } else {
        s
    }
}

/// The fixed-capacity least-recently-used cache over the recency list.
pub struct LRUCache {
    pub size: u32,
    pub linked_list: DoublyLinkedList,
}

impl LRUCache {
    /// Structural invariant: the list is well formed and every arena slot
    /// is accounted for.
    pub open spec fn inv(self) -> bool {
        &&& self.linked_list.wf()
        &&& self.linked_list.complete()
    }

    /// Full invariant: additionally, the cache never holds more keys than
    /// its capacity.
    pub open spec fn wf(self) -> bool {
        &&& self.inv()
        &&& self.vals().len() <= self.size as int
    }

    /// The cached keys, most-recently used first.
    pub open spec fn vals(self) -> Seq<u64> {
        self.linked_list.vals()
    }

    /// Creates an empty cache of the given capacity.
    pub fn new(size: u32) -> (r: Self)
        ensures
            r.wf(),
            r.size == size,
            r.vals() == Seq::<u64>::empty(),
    {
        Self { size, linked_list: DoublyLinkedList::new() }
    }

    /// Touches `val`: moves it to the most-recently-used position if cached,
    /// inserts it there otherwise; insertion beyond capacity evicts the
    /// least-recently-used key.
    pub fn add_val(&mut self, val: u64)
        requires
            old(self).wf(),
        ensures
            final(self).wf(),
            final(self).size == old(self).size,
            final(self).vals() == (if old(self).vals().contains(val) {
                seq![val] + remove_first(old(self).vals(), val)
            } else if old(self).vals().len() < old(self).size as int {
                seq![val] + old(self).vals()
            } else {
                (seq![val] + old(self).vals()).drop_last()
            }),
    {
        let ghost oldvals = self.vals();
        match self.linked_list.find(val) {
            Some(i) => {
                let ghost ord = self.linked_list.order@;
                let ghost k = ord.index_of(i);
                proof {
                    let w = choose|w: int| 0 <= w < ord.len() && ord[w] == i;
                    assert(0 <= k < ord.len() && ord[k] == i);
                    assert(oldvals[k] == val);
                    assert(oldvals.contains(val));
                    let f = oldvals.index_of(val);
                    assert(0 <= f < oldvals.len() && oldvals[f] == val);
                    if f != k {
                        assert(self.linked_list.nodes@[ord[f] as int].val
                            != self.linked_list.nodes@[ord[k] as int].val);
                    }
                    assert(f == k);
                }
                let ghost predll = self.linked_list;
                self.linked_list.detach(i);
                proof {
                    assert forall|m: int| 0 <= m < self.linked_list.order@.len()
                        implies (#[trigger] self.linked_list.nodes@[self.linked_list.order@[m]
                            as int]).val != self.linked_list.nodes@[i as int].val by {
                        let newo = self.linked_list.order@;
                        let mo: int = if m < k {
                            m
                        } else {
                            m + 1
                        };
                        assert(newo[m] == ord[mo]);
                        if mo < k {
                            assert(predll.nodes@[ord[mo] as int].val
                                != predll.nodes@[ord[k] as int].val);
                        } else {
                            assert(predll.nodes@[ord[k] as int].val
                                != predll.nodes@[ord[mo] as int].val);
                        }
                        assert(self.linked_list.nodes@[newo[m] as int].val
                            == predll.nodes@[newo[m] as int].val);
                        assert(self.linked_list.nodes@[i as int].val
                            == predll.nodes@[i as int].val);
                    }
                    if self.linked_list.free@.contains(i) {
                        let w = choose|w: int|
                            0 <= w < self.linked_list.free@.len()
                                && self.linked_list.free@[w] == i;
                        assert(predll.free@[w] == i);
                        assert(!ord.contains(predll.free@[w]));
                        assert(ord.contains(i));
                    }
                }
                self.linked_list.push_front(i);
                proof {
                    assert(self.vals() =~= seq![val] + remove_first(oldvals, val));
                }
            },
            None => {
                let i = self.linked_list.acquire_slot(val);
                proof {
                    assert forall|m: int| 0 <= m < self.linked_list.order@.len()
                        implies (#[trigger] self.linked_list.nodes@[self.linked_list.order@[m]
                            as int]).val != self.linked_list.nodes@[i as int].val by {
                        assert(self.linked_list.vals()[m] == oldvals[m]);
                        if oldvals[m] == val {
                            assert(oldvals.contains(val));
                        }
                    }
                }
                self.linked_list.push_front(i);
                proof {
                    assert(self.vals() =~= seq![val] + oldvals);
                }
                if self.len_internal() > self.size as usize {
                    self.remove_last_used_val();
                    proof {
                        assert(oldvals.len() >= self.size as int);
                        assert(self.vals() =~= (seq![val] + oldvals).drop_last());
                    }
                }
            },
        }
    }

    /// The number of cached keys.
    fn len_internal(&self) -> (r: usize)
        requires
            self.inv(),
        ensures
            r == self.vals().len(),
    {
        self.linked_list.nodes.len() - self.linked_list.free.len()
    }

    /// Evicts the least-recently-used key, if any.
    pub fn remove_last_used_val(&mut self)
        requires
            old(self).inv(),
        ensures
            final(self).inv(),
            final(self).size == old(self).size,
            final(self).vals() == (if old(self).vals().len() == 0 {
                old(self).vals()
            } else {
                old(self).vals().drop_last()
            }),
    {
        let ghost ord = self.linked_list.order@;
        match self.linked_list.tail {
            Some(t) => {
                proof {
                    assert(ord[ord.len() - 1] == t);
                    assert(ord.contains(t));
                    let k = ord.index_of(t);
                    assert(0 <= k < ord.len() && ord[k] == t);
                    if k != ord.len() - 1 {
                        assert(ord[k] != ord[ord.len() - 1]);
                    }
                    assert(k == ord.len() - 1);
                }
                self.linked_list.detach(t);
                proof {
                    if self.linked_list.free@.contains(t) {
                        let w = choose|w: int|
                            0 <= w < self.linked_list.free@.len()
                                && self.linked_list.free@[w] == t;
                        assert(old(self).linked_list.free@[w] == t);
                        assert(!ord.contains(old(self).linked_list.free@[w]));
                        assert(ord.contains(t));
                    }
                }
                self.linked_list.release(t);
                proof {
                    assert(self.vals() =~= old(self).vals().drop_last());
                }
            },
            None => {
                proof {
                    assert(ord.len() == 0);
                }
            },
        }
    }
}

} // verus!
