//! Unique-id generation: replies `generate_ok` with a freshly drawn UUID.

use vstd::prelude::*;
use crate::message::{BodyBase, Message};
use crate::errors::Error;
use crate::cluster::Cluster;
use crate::broadcast::lemma_cluster_update_wf;

verus! {

/// The body of a `generate` request and its `generate_ok` reply.
#[derive(Debug)]
pub struct GenerateBody {
    pub base: BodyBase,
    pub id: Option<String>,
}

/// Relies on uuid::Uuid::new_v4 and its Display form: a version-4 UUID
/// rendered as the 36-character hyphenated string.  Nothing is assumed of
/// which UUID comes back.
#[verifier::external_body]
fn fresh_uuid() -> (r: String)
    ensures
        r@.len() == 36,
{
    uuid::Uuid::new_v4().to_string()
}

/// Handles a `generate` request: replies `generate_ok` carrying a freshly
/// generated unique id.
pub fn generate_unique_id(cluster: &mut Cluster, msg: Message<GenerateBody>) -> (r: Result<
    Message<GenerateBody>,
    Error,
>)
    requires
        old(cluster).wf(),
        old(cluster).id_headroom_one(msg.dest@),
    ensures
        final(cluster).wf(),
        final(cluster).is_topology_done == old(cluster).is_topology_done,
        match r {
            Ok(reply) => ({
                let i = old(cluster).node_index(msg.dest@);
                let oldn = old(cluster).nodes@[i];
                let newn = final(cluster).nodes@[i];
                &&& old(cluster).has_node(msg.dest@)
                &&& final(cluster).nodes@ == old(cluster).nodes@.update(i, newn)
                &&& newn.id == oldn.id
                &&& newn.peers == oldn.peers
                &&& newn.gcounter_data == oldn.gcounter_data
                &&& newn.broadcast_data == oldn.broadcast_data
                &&& newn.gossip_task_started == oldn.gossip_task_started
                &&& newn.next_msg_id == oldn.next_msg_id + 1
                &&& reply.src@ == oldn.id@
                &&& reply.dest@ == msg.src@
                &&& reply.body.base.typ@ == "generate_ok"@
                &&& reply.body.base.msg_id == Some(oldn.next_msg_id)
                &&& reply.body.base.in_reply_to == msg.body.base.msg_id
                &&& reply.body.id is Some
                &&& reply.body.id->0@.len() == 36
            }),
            Err(e) => ({
                &&& *final(cluster) == *old(cluster)
                &&& e == Error::UnknownNode
                &&& !old(cluster).has_node(msg.dest@)
            }),
        },
{
    let idx = match cluster.find_node(&msg.dest) {
        Some(i) => i,
        None => {
            return Err(Error::UnknownNode);
        },
    };
    proof {
        cluster.lemma_node_index(idx as int);
    }
    let ghost oldc = *cluster;
    let mut node = cluster.nodes.remove(idx);
    let unique_id = fresh_uuid();
    let reply_id = node.get_next_id();
    let reply = Message {
        src: node.id.clone(),
        dest: msg.src.clone(),
        body: GenerateBody {
            base: BodyBase {
                typ: String::from_str("generate_ok"),
                msg_id: Some(reply_id),
                in_reply_to: msg.body.base.msg_id,
            },
            id: Some(unique_id),
        },
    };
    let ghost newn = node;
    cluster.nodes.insert(idx, node);
    proof {
        assert(cluster.nodes@ =~= oldc.nodes@.update(idx as int, newn));
        lemma_cluster_update_wf(oldc, *cluster, idx as int);
    }
    Ok(reply)
}

} // verus!
