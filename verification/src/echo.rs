//! The trivial echo handler: replies `echo_ok` carrying the same payload.

use vstd::prelude::*;
use crate::message::{BodyBase, Message};
use crate::errors::Error;
use crate::cluster::Cluster;
use crate::broadcast::lemma_cluster_update_wf;

verus! {

/// The body of an `echo` request and its `echo_ok` reply.
#[derive(Debug)]
pub struct EchoBody {
    pub base: BodyBase,
    pub echo: Option<String>,
}

/// Handles an `echo` request: replies `echo_ok`, handing the `echo` payload
/// back unchanged.
pub fn echo(cluster: &mut Cluster, msg: Message<EchoBody>) -> (r: Result<Message<EchoBody>, Error>)
    requires
        old(cluster).wf(),
        old(cluster).id_headroom_one(msg.dest@),
    ensures
        final(cluster).wf(),
        final(cluster).is_topology_done == old(cluster).is_topology_done,
        match r {
            Ok(reply) => ({
                let i = old(cluster).node_index(msg.dest@);
                let oldn = old(cluster).nodes@[i];
                let newn = final(cluster).nodes@[i];
                &&& old(cluster).has_node(msg.dest@)
                &&& final(cluster).nodes@ == old(cluster).nodes@.update(i, newn)
                &&& newn.id == oldn.id
                &&& newn.peers == oldn.peers
                &&& newn.gcounter_data == oldn.gcounter_data
                &&& newn.broadcast_data == oldn.broadcast_data
                &&& newn.gossip_task_started == oldn.gossip_task_started
                &&& newn.next_msg_id == oldn.next_msg_id + 1
                &&& reply.src@ == oldn.id@
                &&& reply.dest@ == msg.src@
                &&& reply.body.base.typ@ == "echo_ok"@
                &&& reply.body.base.msg_id == Some(oldn.next_msg_id)
                &&& reply.body.base.in_reply_to == msg.body.base.msg_id
                &&& reply.body.echo == msg.body.echo
            }),
            Err(e) => ({
                &&& *final(cluster) == *old(cluster)
                &&& e == Error::UnknownNode
                &&& !old(cluster).has_node(msg.dest@)
            }),
        },
{
    let idx = match cluster.find_node(&msg.dest) {
        Some(i) => i,
        None => {
            return Err(Error::UnknownNode);
        },
    };
    proof {
        cluster.lemma_node_index(idx as int);
    }
    let ghost oldc = *cluster;
    let mut node = cluster.nodes.remove(idx);
    let reply_id = node.get_next_id();
    let reply = Message {
        src: node.id.clone(),
        dest: msg.src.clone(),
        body: EchoBody {
            base: BodyBase {
                typ: String::from_str("echo_ok"),
                msg_id: Some(reply_id),
                in_reply_to: msg.body.base.msg_id,
            },
            echo: msg.body.echo,
        },
    };
    let ghost newn = node;
    cluster.nodes.insert(idx, node);
    proof {
        assert(cluster.nodes@ =~= oldc.nodes@.update(idx as int, newn));
        lemma_cluster_update_wf(oldc, *cluster, idx as int);
    }
    Ok(reply)
}

} // verus!
