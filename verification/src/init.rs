//! Node initialization: the `init` message creates the node's state exactly
//! once and replies `init_ok`.

use vstd::prelude::*;
use crate::message::{BodyBase, Message};
use crate::errors::Error;
use crate::node::Node;
use crate::cluster::Cluster;
use crate::gcounter_data::GcounterData;
use crate::broadcast::clone_strings;

verus! {

/// The body of an `init` request and its `init_ok` reply.
#[derive(Debug)]
pub struct InitBody {
    pub base: BodyBase,
    pub node_id: Option<String>,
    pub node_ids: Option<Vec<String>>,
}

/// Handles an `init` message: registers a fresh node under the given id
/// with the given flat peer list, an exhausted-by-nobody message-id counter
/// starting at zero and no payloads, and replies `init_ok`.  Registration
/// fails when the id already exists.
pub fn init(cluster: &mut Cluster, msg: Message<InitBody>) -> (r: Result<Message<InitBody>, Error>)
    requires
        old(cluster).wf(),
    ensures
        final(cluster).wf(),
        final(cluster).is_topology_done == old(cluster).is_topology_done,
        match r {
            Ok(reply) => ({
                let n = final(cluster).nodes@.last();
                &&& msg.body.node_id is Some
                &&& msg.body.node_ids is Some
                &&& !old(cluster).has_node(msg.body.node_id->0@)
                &&& final(cluster).nodes@ == old(cluster).nodes@.push(n)
                &&& n.id@ == msg.body.node_id->0@
                &&& n.peers@ == msg.body.node_ids->0@
                &&& n.next_msg_id == 0
                &&& n.gcounter_data.node_data@ == Seq::<crate::gcounter_data::CounterEntry>::empty()
                &&& !n.gcounter_data.gossip_task_started
                &&& n.broadcast_data is None
                &&& !n.gossip_task_started
                &&& final(cluster).has_node(msg.body.node_id->0@)
                &&& reply.src@ == msg.body.node_id->0@
                &&& reply.dest@ == msg.src@
                &&& reply.body.base.typ@ == "init_ok"@
                &&& reply.body.base.msg_id is None
                &&& reply.body.base.in_reply_to == msg.body.base.msg_id
                &&& reply.body.node_id is None
                &&& reply.body.node_ids is None
            }),
            Err(e) => ({
                &&& *final(cluster) == *old(cluster)
                &&& match e {
                    Error::MissingField => msg.body.node_id is None || msg.body.node_ids is None,
                    Error::ProtocolError => msg.body.node_id is Some && msg.body.node_ids is Some
                        && old(cluster).has_node(msg.body.node_id->0@),
                    _ => false,
                }
            }),
        },
{
    let node_id = match &msg.body.node_id {
        Some(id) => id.clone(),
        None => {
            return Err(Error::MissingField);
        },
    };
    let peers = match &msg.body.node_ids {
        Some(ids) => clone_strings(ids),
        None => {
            return Err(Error::MissingField);
        },
    };
    let node = Node {
        id: node_id.clone(),
        peers,
        next_msg_id: 0,
        gcounter_data: GcounterData::new(),
        broadcast_data: None,
        gossip_task_started: false,
    };
    if !cluster.add_node(node) {
        return Err(Error::ProtocolError);
    }
    let reply = Message {
        src: node_id,
        dest: msg.src.clone(),
        body: InitBody {
            base: BodyBase {
                typ: String::from_str("init_ok"),
                msg_id: None,
                in_reply_to: msg.body.base.msg_id,
            },
            node_id: None,
            node_ids: None,
        },
    };
    Ok(reply)
}

} // verus!
