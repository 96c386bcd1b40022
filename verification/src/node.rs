//! One node's state: identity, ordered peer list, the strictly increasing
//! local message-id counter, and the lazily created payloads.

use vstd::prelude::*;
use crate::broadcast::BroadcastData;
use crate::gcounter_data::GcounterData;

verus! {

/// The state of a single known node.
///
/// `gossip_task_started` records whether the node's background broadcast
/// dissemination task has been spawned (the task handle itself lives with
/// the embedding process); the counter payload carries its own such latch.
pub struct Node {
    pub id: String,
    pub peers: Vec<String>,
    pub next_msg_id: u64,
    pub gcounter_data: GcounterData,
    pub broadcast_data: Option<BroadcastData>,
    pub gossip_task_started: bool,
}

impl Node {
    /// Well-formedness of the node's payloads.
    pub open spec fn wf(self) -> bool {
        &&& self.gcounter_data.wf()
        &&& match self.broadcast_data {
            Some(b) => b.wf(),
            None => true,
        }
    }

    /// Returns the current message id and advances the strictly increasing
    /// counter.
    pub fn get_next_id(&mut self) -> (r: u64)
        requires
            old(self).next_msg_id < u64::MAX,
        ensures
            r == old(self).next_msg_id,
            final(self).next_msg_id == old(self).next_msg_id + 1,
            final(self).id == old(self).id,
            final(self).peers == old(self).peers,
            final(self).gcounter_data == old(self).gcounter_data,
            final(self).broadcast_data == old(self).broadcast_data,
            final(self).gossip_task_started == old(self).gossip_task_started,
    {
        let msg_id = self.next_msg_id;
        self.next_msg_id = self.next_msg_id + 1;
        msg_id
    }
}

} // verus!
