//! The node registry: the shared table of node identities and their mutable
//! state, plus the completion latch of the one-shot topology build.
//!
//! The registry is an explicitly constructed object owned by the embedding
//! process, which guards it with a single reader/writer lock; the library
//! itself only ever sees it through `&` and `&mut` borrows, so every handler
//! is a pure state transition.

use vstd::prelude::*;
use crate::node::Node;

verus! {

/// The registry of all known nodes.  Node ids are unique and immutable
/// after creation; exactly one `Node` exists per known id.
pub struct Cluster {
    pub nodes: Vec<Node>,
    pub is_topology_done: bool,
}

impl Cluster {
    /// Well-formedness: ids are pairwise distinct and every node's payloads
    /// are well formed.
    pub open spec fn wf(self) -> bool {
        &&& forall|i: int, j: int|
                0 <= i < j < self.nodes@.len()
                    ==> (#[trigger] self.nodes@[i]).id@ != (#[trigger] self.nodes@[j]).id@
        &&& forall|i: int| 0 <= i < self.nodes@.len() ==> (#[trigger] self.nodes@[i]).wf()
    }

    /// Whether some node carries the id.
    pub open spec fn has_node(self, id: Seq<char>) -> bool {
        exists|i: int| 0 <= i < self.nodes@.len() && (#[trigger] self.nodes@[i]).id@ == id
    }

    /// The position of the node carrying `id` (meaningful when present).
    pub open spec fn node_index(self, id: Seq<char>) -> int {
        choose|i: int| 0 <= i < self.nodes@.len() && (#[trigger] self.nodes@[i]).id@ == id
    }

    /// Machine-limit headroom for handlers that draw a single message id
    /// for the node addressed as `dest`: its strictly increasing counter
    /// must not be exhausted.
    pub open spec fn id_headroom_one(self, dest: Seq<char>) -> bool {
        forall|i: int|
            0 <= i < self.nodes@.len() && (#[trigger] self.nodes@[i]).id@ == dest
                ==> self.nodes@[i].next_msg_id + 1 <= u64::MAX
    }

    /// Machine-limit headroom for handlers that draw one message id per
    /// peer plus `extra` more: the addressed node's strictly increasing
    /// counter must have that much room left.
    pub open spec fn id_headroom(self, dest: Seq<char>, extra: int) -> bool {
        forall|i: int|
            0 <= i < self.nodes@.len() && (#[trigger] self.nodes@[i]).id@ == dest
                ==> self.nodes@[i].next_msg_id + self.nodes@[i].peers@.len() + extra <= u64::MAX
    }

    /// Executable check of `id_headroom`, for callers that must establish
    /// it before invoking a handler.
    pub fn check_id_headroom(&self, dest: &String, extra: u64) -> (r: bool)
        ensures
            r ==> self.id_headroom(dest@, extra as int),
            r && extra >= 1 ==> self.id_headroom_one(dest@),
    {
        let mut i: usize = 0;
        while i < self.nodes.len()
            invariant
                i <= self.nodes@.len(),
                forall|k: int|
                    0 <= k < i && (#[trigger] self.nodes@[k]).id@ == dest@
                        ==> self.nodes@[k].next_msg_id + self.nodes@[k].peers@.len()
                            + extra <= u64::MAX,
            decreases self.nodes@.len() - i,
        {
            if self.nodes[i].id == *dest {
                let room = u64::MAX - self.nodes[i].next_msg_id;
                if extra > room {
                    return false;
                }
                if self.nodes[i].peers.len() as u64 > room - extra {
                    return false;
                }
            }
            i = i + 1;
        }
        true
    }

    /// Creates an empty registry with the topology latch open.
    pub fn new() -> (r: Self)
        ensures
            r.wf(),
            r.nodes@ == Seq::<Node>::empty(),
            !r.is_topology_done,
    {
        Self { nodes: Vec::new(), is_topology_done: false }
    }

    /// Registers a node.  Fails (returning false, registry unchanged) when
    /// the id is already present.
    pub fn add_node(&mut self, node: Node) -> (r: bool)
        requires
            old(self).wf(),
            node.wf(),
        ensures
            final(self).wf(),
            r == !old(self).has_node(node.id@),
            r ==> final(self).nodes@ == old(self).nodes@.push(node),
            !r ==> *final(self) == *old(self),
            final(self).is_topology_done == old(self).is_topology_done,
    {
        if self.find_node(&node.id).is_some() {
            return false;
        }
        self.nodes.push(node);
        proof {
            let news = self.nodes@;
            let olds = old(self).nodes@;
            assert forall|i: int, j: int|
                0 <= i < j < news.len()
                implies (#[trigger] news[i]).id@ != (#[trigger] news[j]).id@ by {
                if j == news.len() - 1 {
                    assert(olds[i].id@ != node.id@);
                }
            }
        }
        true
    }

    /// In a well-formed registry, `node_index` inverts the id of the node
    /// at any position.
    pub proof fn lemma_node_index(self, idx: int)
        requires
            self.wf(),
            0 <= idx < self.nodes@.len(),
        ensures
            self.has_node(self.nodes@[idx].id@),
            self.node_index(self.nodes@[idx].id@) == idx,
    {
        let id = self.nodes@[idx].id@;
        assert(self.has_node(id));
        let c = self.node_index(id);
        assert(0 <= c < self.nodes@.len() && self.nodes@[c].id@ == id);
        if c != idx {
            if c < idx {
                assert(self.nodes@[c].id@ != self.nodes@[idx].id@);
            } else {
                assert(self.nodes@[idx].id@ != self.nodes@[c].id@);
            }
        }
    }

    /// Looks the id up in the registry, returning the node's position.
    pub fn find_node(&self, id: &String) -> (r: Option<usize>)
        ensures
            match r {
                Some(i) => i < self.nodes@.len() && self.nodes@[i as int].id@ == id@,
                None => !self.has_node(id@),
            },
    {
        let mut i: usize = 0;
        while i < self.nodes.len()
            invariant
                i <= self.nodes.len(),
                forall|k: int| 0 <= k < i ==> (#[trigger] self.nodes@[k]).id@ != id@,
            decreases self.nodes.len() - i,
        {
            if self.nodes[i].id == *id {
                return Some(i);
            }
            i = i + 1;
        }
        None
    }
}

} // verus!
