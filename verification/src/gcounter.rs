//! The grow-only counter handlers: `add` increments the addressed node's
//! own entry, `read` sums all entries, and counter gossip overwrites the
//! cached copy of the sender's entry.  A background task periodically sends
//! the node's own value to every peer.

use vstd::prelude::*;
use crate::message::{BodyBase, Message};
use crate::errors::Error;
use crate::cluster::Cluster;
use crate::broadcast::{others, filter_out_self, lemma_others_len, lemma_cluster_update_wf};
use crate::gcounter_data::{entry_value, has_entry, sat_add, sat_sum};

verus! {

/// The body of a counter `read` request and its `read_ok` reply.
#[derive(Debug)]
pub struct ReadBody {
    pub base: BodyBase,
    pub value: Option<u64>,
}

/// The body of an `add` request and its `add_ok` reply.
#[derive(Debug)]
pub struct AddBody {
    pub base: BodyBase,
    pub delta: Option<u64>,
}

/// The body of a counter gossip message: the sender's own current total.
#[derive(Debug)]
pub struct GossipBody {
    pub base: BodyBase,
    pub value: Option<u64>,
}

/// The effects of an `add` request: the `add_ok` reply, and whether the
/// caller must now spawn the node's background counter-gossip task.
#[derive(Debug)]
pub struct AddEffects {
    pub reply: Message<AddBody>,
    pub start_task: bool,
}

/// Shape of one outbound counter gossip message.
pub open spec fn counter_msg_ok(
    m: Message<GossipBody>,
    src: Seq<char>,
    dest: Seq<char>,
    msg_id: int,
    value: u64,
) -> bool {
    &&& m.src@ == src
    &&& m.dest@ == dest
    &&& m.body.base.typ@ == "gossip"@
    &&& m.body.base.msg_id == Some(msg_id as u64)
    &&& m.body.base.in_reply_to is None
    &&& m.body.value == Some(value)
}

/// Handles an `add` request: adds the delta (saturating) to the addressed
/// node's own counter entry — the entry's single legitimate writer — and
/// replies `add_ok`.
pub fn add(cluster: &mut Cluster, msg: Message<AddBody>) -> (r: Result<AddEffects, Error>)
    requires
        old(cluster).wf(),
        old(cluster).id_headroom_one(msg.dest@),
    ensures
        final(cluster).wf(),
        final(cluster).is_topology_done == old(cluster).is_topology_done,
        match r {
            Ok(eff) => ({
                let i = old(cluster).node_index(msg.dest@);
                let oldn = old(cluster).nodes@[i];
                let newn = final(cluster).nodes@[i];
                &&& old(cluster).has_node(msg.dest@)
                &&& msg.body.delta is Some
                &&& final(cluster).nodes@ == old(cluster).nodes@.update(i, newn)
                &&& newn.id == oldn.id
                &&& newn.peers == oldn.peers
                &&& newn.broadcast_data == oldn.broadcast_data
                &&& newn.gossip_task_started == oldn.gossip_task_started
                &&& newn.next_msg_id == oldn.next_msg_id + 1
                &&& newn.gcounter_data.gossip_task_started
                &&& eff.start_task == !oldn.gcounter_data.gossip_task_started
                &&& entry_value(newn.gcounter_data.node_data@, oldn.id@) == sat_add(
                    entry_value(oldn.gcounter_data.node_data@, oldn.id@),
                    msg.body.delta->0,
                )
                &&& (forall|other: Seq<char>| other != oldn.id@
                    ==> entry_value(newn.gcounter_data.node_data@, other)
                        == entry_value(oldn.gcounter_data.node_data@, other))
                &&& (forall|other: Seq<char>| other != oldn.id@
                    ==> has_entry(newn.gcounter_data.node_data@, other)
                        == has_entry(oldn.gcounter_data.node_data@, other))
                &&& sat_sum(newn.gcounter_data.node_data@)
                    >= sat_sum(oldn.gcounter_data.node_data@)
                &&& eff.reply.src@ == oldn.id@
                &&& eff.reply.dest@ == msg.src@
                &&& eff.reply.body.base.typ@ == "add_ok"@
                &&& eff.reply.body.base.msg_id == Some(oldn.next_msg_id)
                &&& eff.reply.body.base.in_reply_to == msg.body.base.msg_id
                &&& eff.reply.body.delta is None
            }),
            Err(e) => ({
                &&& *final(cluster) == *old(cluster)
                &&& match e {
                    Error::UnknownNode => !old(cluster).has_node(msg.dest@),
                    Error::MissingField => old(cluster).has_node(msg.dest@) && msg.body.delta
                        is None,
                    _ => false,
                }
            }),
        },
{
    let idx = match cluster.find_node(&msg.dest) {
        Some(i) => i,
        None => {
            return Err(Error::UnknownNode);
        },
    };
    proof {
        cluster.lemma_node_index(idx as int);
    }
    let delta = match msg.body.delta {
        Some(d) => d,
        None => {
            return Err(Error::MissingField);
        },
    };
    let ghost oldc = *cluster;
    let mut node = cluster.nodes.remove(idx);
    let ghost oldn = node;
    let start_task = !node.gcounter_data.gossip_task_started;
    node.gcounter_data.gossip_task_started = true;
    let own_id = node.id.clone();
    node.gcounter_data.increment_own(&own_id, delta);
    let reply_id = node.get_next_id();
    let reply = Message {
        src: node.id.clone(),
        dest: msg.src.clone(),
        body: AddBody {
            base: BodyBase {
                typ: String::from_str("add_ok"),
                msg_id: Some(reply_id),
                in_reply_to: msg.body.base.msg_id,
            },
            delta: None,
        },
    };
    let ghost newn = node;
    cluster.nodes.insert(idx, node);
    proof {
        assert(cluster.nodes@ =~= oldc.nodes@.update(idx as int, newn));
        lemma_cluster_update_wf(oldc, *cluster, idx as int);
    }
    Ok(AddEffects { reply, start_task })
}

/// Handles a counter `read` request: replies with the saturating sum of
/// every entry — the aggregate counter value.
pub fn read(cluster: &mut Cluster, msg: Message<ReadBody>) -> (r: Result<Message<ReadBody>, Error>)
    requires
        old(cluster).wf(),
        old(cluster).id_headroom_one(msg.dest@),
    ensures
        final(cluster).wf(),
        final(cluster).is_topology_done == old(cluster).is_topology_done,
        match r {
            Ok(reply) => ({
                let i = old(cluster).node_index(msg.dest@);
                let oldn = old(cluster).nodes@[i];
                let newn = final(cluster).nodes@[i];
                &&& old(cluster).has_node(msg.dest@)
                &&& final(cluster).nodes@ == old(cluster).nodes@.update(i, newn)
                &&& newn.id == oldn.id
                &&& newn.peers == oldn.peers
                &&& newn.broadcast_data == oldn.broadcast_data
                &&& newn.gcounter_data == oldn.gcounter_data
                &&& newn.gossip_task_started == oldn.gossip_task_started
                &&& newn.next_msg_id == oldn.next_msg_id + 1
                &&& reply.src@ == oldn.id@
                &&& reply.dest@ == msg.src@
                &&& reply.body.base.typ@ == "read_ok"@
                &&& reply.body.base.msg_id == Some(oldn.next_msg_id)
                &&& reply.body.base.in_reply_to == msg.body.base.msg_id
                &&& reply.body.value == Some(sat_sum(oldn.gcounter_data.node_data@))
            }),
            Err(e) => ({
                &&& *final(cluster) == *old(cluster)
                &&& e == Error::UnknownNode
                &&& !old(cluster).has_node(msg.dest@)
            }),
        },
{
    let idx = match cluster.find_node(&msg.dest) {
        Some(i) => i,
        None => {
            return Err(Error::UnknownNode);
        },
    };
    proof {
        cluster.lemma_node_index(idx as int);
    }
    let ghost oldc = *cluster;
    let mut node = cluster.nodes.remove(idx);
    let ghost oldn = node;
    let sum = node.gcounter_data.total();
    let reply_id = node.get_next_id();
    let reply = Message {
        src: node.id.clone(),
        dest: msg.src.clone(),
        body: ReadBody {
            base: BodyBase {
                typ: String::from_str("read_ok"),
                msg_id: Some(reply_id),
                in_reply_to: msg.body.base.msg_id,
            },
            value: Some(sum),
        },
    };
    let ghost newn = node;
    cluster.nodes.insert(idx, node);
    proof {
        assert(cluster.nodes@ =~= oldc.nodes@.update(idx as int, newn));
        lemma_cluster_update_wf(oldc, *cluster, idx as int);
    }
    Ok(reply)
}

/// Handles an incoming counter gossip message: overwrites the cached copy
/// of the sender's entry with the received value.  Last-write overwrite is
/// safe because each entry has exactly one legitimate writer — its owner —
/// from whose perspective values never decrease.  No reply is sent.
pub fn gossip(cluster: &mut Cluster, msg: Message<GossipBody>) -> (r: Result<(), Error>)
    requires
        old(cluster).wf(),
    ensures
        final(cluster).wf(),
        final(cluster).is_topology_done == old(cluster).is_topology_done,
        match r {
            Ok(()) => ({
                let i = old(cluster).node_index(msg.dest@);
                let oldn = old(cluster).nodes@[i];
                let newn = final(cluster).nodes@[i];
                &&& old(cluster).has_node(msg.dest@)
                &&& msg.body.value is Some
                &&& final(cluster).nodes@ == old(cluster).nodes@.update(i, newn)
                &&& newn.id == oldn.id
                &&& newn.peers == oldn.peers
                &&& newn.broadcast_data == oldn.broadcast_data
                &&& newn.gossip_task_started == oldn.gossip_task_started
                &&& newn.next_msg_id == oldn.next_msg_id
                &&& newn.gcounter_data.gossip_task_started
                    == oldn.gcounter_data.gossip_task_started
                &&& entry_value(newn.gcounter_data.node_data@, msg.src@) == msg.body.value->0
                &&& (forall|other: Seq<char>| other != msg.src@
                    ==> entry_value(newn.gcounter_data.node_data@, other)
                        == entry_value(oldn.gcounter_data.node_data@, other))
                &&& (forall|other: Seq<char>| other != msg.src@
                    ==> has_entry(newn.gcounter_data.node_data@, other)
                        == has_entry(oldn.gcounter_data.node_data@, other))
                &&& (msg.body.value->0 >= entry_value(oldn.gcounter_data.node_data@, msg.src@)
                    ==> sat_sum(newn.gcounter_data.node_data@)
                        >= sat_sum(oldn.gcounter_data.node_data@))
            }),
            Err(e) => ({
                &&& *final(cluster) == *old(cluster)
                &&& match e {
                    Error::UnknownNode => !old(cluster).has_node(msg.dest@),
                    Error::MissingField => old(cluster).has_node(msg.dest@) && msg.body.value
                        is None,
                    _ => false,
                }
            }),
        },
{
    let idx = match cluster.find_node(&msg.dest) {
        Some(i) => i,
        None => {
            return Err(Error::UnknownNode);
        },
    };
    proof {
        cluster.lemma_node_index(idx as int);
    }
    let value = match msg.body.value {
        Some(v) => v,
        None => {
            return Err(Error::MissingField);
        },
    };
    let ghost oldc = *cluster;
    let mut node = cluster.nodes.remove(idx);
    node.gcounter_data.set_entry(&msg.src, value);
    let ghost newn = node;
    cluster.nodes.insert(idx, node);
    proof {
        assert(cluster.nodes@ =~= oldc.nodes@.update(idx as int, newn));
        lemma_cluster_update_wf(oldc, *cluster, idx as int);
    }
    Ok(())
}

/// One cycle of the background counter-gossip task: read the node's own
/// current value and produce one gossip message per peer (excluding the
/// node itself) carrying it.  Skipped when the node is unknown.
pub fn gossip_tick(cluster: &mut Cluster, node_id: &String) -> (r: Option<
    Vec<Message<GossipBody>>,
>)
    requires
        old(cluster).wf(),
        old(cluster).id_headroom(node_id@, 0),
    ensures
        final(cluster).wf(),
        final(cluster).is_topology_done == old(cluster).is_topology_done,
        !old(cluster).has_node(node_id@) ==> *final(cluster) == *old(cluster) && r is None,
        old(cluster).has_node(node_id@) ==> ({
            let i = old(cluster).node_index(node_id@);
            let oldn = old(cluster).nodes@[i];
            let newn = final(cluster).nodes@[i];
            &&& r is Some
            &&& final(cluster).nodes@ == old(cluster).nodes@.update(i, newn)
            &&& newn.id == oldn.id
            &&& newn.peers == oldn.peers
            &&& newn.broadcast_data == oldn.broadcast_data
            &&& newn.gcounter_data == oldn.gcounter_data
            &&& newn.gossip_task_started == oldn.gossip_task_started
            &&& newn.next_msg_id == oldn.next_msg_id + others(oldn).len()
            &&& r->0@.len() == others(oldn).len()
            &&& forall|k: int|
                0 <= k < r->0@.len() ==> counter_msg_ok(
                    #[trigger] r->0@[k],
                    oldn.id@,
                    others(oldn)[k]@,
                    oldn.next_msg_id + k,
                    entry_value(oldn.gcounter_data.node_data@, oldn.id@),
                )
        }),
{
    let idx = match cluster.find_node(node_id) {
        Some(i) => i,
        None => {
            return None;
        },
    };
    proof {
        cluster.lemma_node_index(idx as int);
    }
    let ghost oldc = *cluster;
    let mut node = cluster.nodes.remove(idx);
    let ghost oldn = node;
    let current_value = node.gcounter_data.get_value(&node.id);
    let targets = filter_out_self(&node.peers, &node.id);
    proof {
        lemma_others_len(node.peers@, node.id@);
        assert(oldn == old(cluster).nodes@[idx as int]);
        assert(oldn.next_msg_id + oldn.peers@.len() <= u64::MAX);
    }
    let first_id = node.next_msg_id;
    let mut msgs: Vec<Message<GossipBody>> = Vec::new();
    let mut k: usize = 0;
    while k < targets.len()
        invariant
            first_id + targets@.len() <= u64::MAX,
            k <= targets@.len(),
            msgs@.len() == k,
            node.id == oldn.id,
            forall|j: int|
                0 <= j < k ==> counter_msg_ok(
                    #[trigger] msgs@[j],
                    oldn.id@,
                    targets@[j]@,
                    first_id + j,
                    current_value,
                ),
        decreases targets@.len() - k,
    {
        let m = Message {
            src: node.id.clone(),
            dest: targets[k].clone(),
            body: GossipBody {
                base: BodyBase {
                    typ: String::from_str("gossip"),
                    msg_id: Some(first_id + k as u64),
                    in_reply_to: None,
                },
                value: Some(current_value),
            },
        };
        msgs.push(m);
        k = k + 1;
    }
    node.next_msg_id = first_id + targets.len() as u64;
    let ghost newn = node;
    cluster.nodes.insert(idx, node);
    proof {
        assert(cluster.nodes@ =~= oldc.nodes@.update(idx as int, newn));
        lemma_cluster_update_wf(oldc, *cluster, idx as int);
    }
    Some(msgs)
}

} // verus!
