//! Broadcast gossip: the message body carried between peers and the handler
//! that merges an incoming value set, deduplicates on the origin reference,
//! and re-triggers one round of outbound gossip.

use vstd::prelude::*;
use crate::message::{BodyBase, Message};
use crate::errors::Error;
use crate::cluster::Cluster;
use crate::broadcast::{
    BroadcastData, node_data_seq, node_value_set, node_seen_set, node_watermark, others,
    prepare_gossip_batch, lemma_cluster_update_wf,
};

verus! {

/// The body of a broadcast gossip message: the full value set of the sender
/// plus the origin reference (`org_msg_id`, `org_msg_src`) used by the
/// receiver's dedup ledger.
#[derive(Debug)]
pub struct GossipBody {
    pub base: BodyBase,
    pub gossip_data: Option<Vec<u64>>,
    pub org_msg_id: u64,
    pub org_msg_src: String,
}

/// Shape of one outbound gossip message.
pub open spec fn gossip_msg_ok(
    m: Message<GossipBody>,
    src: Seq<char>,
    dest: Seq<char>,
    msg_id: int,
    data: Seq<u64>,
    org_id: u64,
    org_src: Seq<char>,
) -> bool {
    &&& m.src@ == src
    &&& m.dest@ == dest
    &&& m.body.base.typ@ == "gossip"@
    &&& m.body.base.msg_id == Some(msg_id as u64)
    &&& m.body.base.in_reply_to is None
    &&& m.body.gossip_data is Some
    &&& m.body.gossip_data->0@ == data
    &&& m.body.org_msg_id == org_id
    &&& m.body.org_msg_src@ == org_src
}

/// Builds one outbound gossip message.
pub fn create_gossip_message(
    src: &String,
    dest: &String,
    msg_id: u64,
    data: Vec<u64>,
    org_msg_id: u64,
    org_msg_src: &String,
) -> (m: Message<GossipBody>)
    ensures
        gossip_msg_ok(m, src@, dest@, msg_id as int, data@, org_msg_id, org_msg_src@),
{
    Message {
        src: src.clone(),
        dest: dest.clone(),
        body: GossipBody {
            base: BodyBase {
                typ: String::from_str("gossip"),
                msg_id: Some(msg_id),
                in_reply_to: None,
            },
            gossip_data: Some(data),
            org_msg_id,
            org_msg_src: org_msg_src.clone(),
        },
    }
}

/// Builds the per-peer fan-out: one gossip message per target, with
/// consecutive message ids starting at `first_msg_id`.
pub fn build_gossip_messages(
    src: &String,
    targets: &Vec<String>,
    first_msg_id: u64,
    data: &Vec<u64>,
    org_msg_id: u64,
    org_msg_src: &String,
) -> (msgs: Vec<Message<GossipBody>>)
    requires
        first_msg_id + targets@.len() <= u64::MAX,
    ensures
        msgs@.len() == targets@.len(),
        forall|k: int|
            0 <= k < msgs@.len() ==> gossip_msg_ok(
                #[trigger] msgs@[k],
                src@,
                targets@[k]@,
                first_msg_id + k,
                data@,
                org_msg_id,
                org_msg_src@,
            ),
{
    let mut msgs: Vec<Message<GossipBody>> = Vec::new();
    let mut k: usize = 0;
    while k < targets.len()
        invariant
            first_msg_id + targets@.len() <= u64::MAX,
            k <= targets@.len(),
            msgs@.len() == k,
            forall|j: int|
                0 <= j < k ==> gossip_msg_ok(
                    #[trigger] msgs@[j],
                    src@,
                    targets@[j]@,
                    first_msg_id + j,
                    data@,
                    org_msg_id,
                    org_msg_src@,
                ),
        decreases targets@.len() - k,
    {
        let m = create_gossip_message(
            src,
            &targets[k],
            first_msg_id + k as u64,
            clone_values(data),
            org_msg_id,
            org_msg_src,
        );
        msgs.push(m);
        k = k + 1;
    }
    msgs
}

/// The effects of a gossip delivery: the `gossip_ok` reply (suppressed for
/// acknowledgements and for repeats of an already-observed origin
/// reference), the re-triggered fan-out round, and whether the caller must
/// now spawn the node's background dissemination task.
#[derive(Debug)]
pub struct GossipEffects {
    pub reply: Option<Message<GossipBody>>,
    pub gossip: Vec<Message<GossipBody>>,
    pub start_task: bool,
}

/// Handles an incoming gossip (or gossip-acknowledgement) message: merges
/// the carried value set into the addressed node's state, and — unless the
/// message is an acknowledgement or repeats an already-observed origin
/// reference — replies `gossip_ok` with the merged set and re-triggers one
/// round of outbound gossip tagged with the same origin reference.  The
/// dedup ledger guarantees that re-propagation terminates.
pub fn gossip(cluster: &mut Cluster, msg: Message<GossipBody>) -> (r: Result<GossipEffects, Error>)
    requires
        old(cluster).wf(),
        old(cluster).id_headroom(msg.dest@, 2),
    ensures
        final(cluster).wf(),
        final(cluster).is_topology_done == old(cluster).is_topology_done,
        match r {
            Ok(eff) => ({
                let i = old(cluster).node_index(msg.dest@);
                let oldn = old(cluster).nodes@[i];
                let newn = final(cluster).nodes@[i];
                let pair = (msg.body.org_msg_src@, msg.body.org_msg_id);
                &&& old(cluster).has_node(msg.dest@)
                &&& msg.body.gossip_data is Some
                &&& final(cluster).nodes@ == old(cluster).nodes@.update(i, newn)
                &&& newn.id == oldn.id
                &&& newn.peers == oldn.peers
                &&& newn.gcounter_data == oldn.gcounter_data
                &&& newn.gossip_task_started
                &&& newn.broadcast_data is Some
                &&& node_value_set(newn) == node_value_set(oldn).union(
                    msg.body.gossip_data->0@.to_set(),
                )
                &&& eff.start_task == !oldn.gossip_task_started
                &&& (if msg.body.base.typ@ == "gossip_ok"@ {
                    &&& node_seen_set(newn) == node_seen_set(oldn)
                    &&& node_watermark(newn) == node_watermark(oldn)
                    &&& newn.next_msg_id == oldn.next_msg_id
                    &&& eff.reply is None
                    &&& eff.gossip@.len() == 0
                } else if node_seen_set(oldn).contains(pair) {
                    &&& node_seen_set(newn) == node_seen_set(oldn).insert(pair)
                    &&& node_watermark(newn) == node_watermark(oldn)
                    &&& newn.next_msg_id == oldn.next_msg_id
                    &&& eff.reply is None
                    &&& eff.gossip@.len() == 0
                } else {
                    &&& node_seen_set(newn) == node_seen_set(oldn).insert(pair)
                    &&& eff.reply is Some
                    &&& eff.reply->0.src@ == oldn.id@
                    &&& eff.reply->0.dest@ == msg.src@
                    &&& eff.reply->0.body.base.typ@ == "gossip_ok"@
                    &&& eff.reply->0.body.base.msg_id == Some(oldn.next_msg_id)
                    &&& eff.reply->0.body.base.in_reply_to == msg.body.base.msg_id
                    &&& eff.reply->0.body.gossip_data is Some
                    &&& eff.reply->0.body.gossip_data->0@ == node_data_seq(newn)
                    &&& eff.reply->0.body.org_msg_id == msg.body.org_msg_id
                    &&& eff.reply->0.body.org_msg_src@ == msg.body.org_msg_src@
                    &&& (if node_data_seq(newn).len() == node_watermark(oldn) {
                        &&& eff.gossip@.len() == 0
                        &&& node_watermark(newn) == node_watermark(oldn)
                        &&& newn.next_msg_id == oldn.next_msg_id + 1
                    } else {
                        &&& node_watermark(newn) == node_data_seq(newn).len()
                        &&& newn.next_msg_id == oldn.next_msg_id + 1 + others(oldn).len()
                        &&& eff.gossip@.len() == others(oldn).len()
                        &&& forall|k: int|
                            0 <= k < eff.gossip@.len() ==> gossip_msg_ok(
                                #[trigger] eff.gossip@[k],
                                oldn.id@,
                                others(oldn)[k]@,
                                oldn.next_msg_id + 1 + k,
                                node_data_seq(newn),
                                msg.body.org_msg_id,
                                msg.body.org_msg_src@,
                            )
                    })
                })
            }),
            Err(e) => ({
                &&& *final(cluster) == *old(cluster)
                &&& match e {
                    Error::UnknownNode => !old(cluster).has_node(msg.dest@),
                    Error::MissingField => old(cluster).has_node(msg.dest@)
                        && msg.body.gossip_data is None,
                    _ => false,
                }
            }),
        },
{
    let idx = match cluster.find_node(&msg.dest) {
        Some(i) => i,
        None => {
            return Err(Error::UnknownNode);
        },
    };
    proof {
        cluster.lemma_node_index(idx as int);
    }
    if msg.body.gossip_data.is_none() {
        return Err(Error::MissingField);
    }
    let ghost oldc = *cluster;
    let mut node = cluster.nodes.remove(idx);
    let ghost oldn = node;
    if node.broadcast_data.is_none() {
        node.broadcast_data = Some(BroadcastData::new());
    }
    match (&mut node.broadcast_data, &msg.body.gossip_data) {
        (Some(b), Some(values)) => b.extend(values),
        _ => {},
    }
    let start_task = !node.gossip_task_started;
    node.gossip_task_started = true;
    let is_ack = msg.body.base.typ == String::from_str("gossip_ok");
    let fresh = if is_ack {
        false
    } else {
        match &mut node.broadcast_data {
            Some(b) => b.add_if_not_present(&msg.body.org_msg_src, msg.body.org_msg_id),
            None => false,
        }
    };
    if !fresh {
        let ghost newn = node;
        cluster.nodes.insert(idx, node);
        proof {
            assert(cluster.nodes@ =~= oldc.nodes@.update(idx as int, newn));
            lemma_cluster_update_wf(oldc, *cluster, idx as int);
            assert(node_value_set(newn) =~= node_value_set(oldn).union(
                msg.body.gossip_data->0@.to_set(),
            ));
            if !is_ack {
                let pair = (msg.body.org_msg_src@, msg.body.org_msg_id);
                assert(node_seen_set(oldn).contains(pair));
                assert(node_seen_set(newn) =~= node_seen_set(oldn).insert(pair));
            }
        }
        return Ok(GossipEffects { reply: None, gossip: Vec::new(), start_task });
    }
    let reply_id = node.get_next_id();
    let data_now = match &node.broadcast_data {
        Some(b) => b.clone_data(),
        None => Vec::new(),
    };
    let reply = Message {
        src: node.id.clone(),
        dest: msg.src.clone(),
        body: GossipBody {
            base: BodyBase {
                typ: String::from_str("gossip_ok"),
                msg_id: Some(reply_id),
                in_reply_to: msg.body.base.msg_id,
            },
            gossip_data: Some(data_now),
            org_msg_id: msg.body.org_msg_id,
            org_msg_src: msg.body.org_msg_src.clone(),
        },
    };
    let src_id = node.id.clone();
    let ghost midn = node;
    cluster.nodes.insert(idx, node);
    proof {
        assert(cluster.nodes@ =~= oldc.nodes@.update(idx as int, midn));
        lemma_cluster_update_wf(oldc, *cluster, idx as int);
        cluster.lemma_node_index(idx as int);
        assert(oldn == old(cluster).nodes@[idx as int]);
        assert(oldn.next_msg_id + oldn.peers@.len() + 2 <= u64::MAX);
        assert forall|p: int|
            0 <= p < cluster.nodes@.len() && (#[trigger] cluster.nodes@[p]).id@ == src_id@
            implies cluster.nodes@[p].next_msg_id + cluster.nodes@[p].peers@.len() + 1
                <= u64::MAX by {
            if p != idx {
                assert(cluster.nodes@[p].id@ != cluster.nodes@[idx as int].id@);
            }
        }
    }
    let ghost midc = *cluster;
    let batch = prepare_gossip_batch(cluster, &src_id);
    let gossip_msgs: Vec<Message<GossipBody>> = match batch {
        None => Vec::new(),
        Some((src2, data2, peers2)) => {
            let mut msgs: Vec<Message<GossipBody>> = Vec::new();
            let mut k: usize = 0;
            while k < peers2.len()
                invariant
                    k <= peers2@.len(),
                    msgs@.len() == k,
                    forall|j: int|
                        0 <= j < k ==> gossip_msg_ok(
                            #[trigger] msgs@[j],
                            src2@,
                            (#[trigger] peers2@[j]).0@,
                            peers2@[j].1 as int,
                            data2@,
                            msg.body.org_msg_id,
                            msg.body.org_msg_src@,
                        ),
                decreases peers2@.len() - k,
            {
                let m = create_gossip_message(
                    &src2,
                    &peers2[k].0,
                    peers2[k].1,
                    clone_values(&data2),
                    msg.body.org_msg_id,
                    &msg.body.org_msg_src,
                );
                msgs.push(m);
                k = k + 1;
            }
            proof {
                let i = idx as int;
                midc.lemma_node_index(i);
                crate::broadcast::lemma_others_len(oldn.peers@, oldn.id@);
                assert(others(midn) == others(oldn));
                assert forall|j: int| 0 <= j < msgs@.len() implies gossip_msg_ok(
                    #[trigger] msgs@[j],
                    oldn.id@,
                    others(oldn)[j]@,
                    oldn.next_msg_id + 1 + j,
                    node_data_seq(midn),
                    msg.body.org_msg_id,
                    msg.body.org_msg_src@,
                ) by {
                    assert(gossip_msg_ok(
                        msgs@[j],
                        src2@,
                        peers2@[j].0@,
                        peers2@[j].1 as int,
                        data2@,
                        msg.body.org_msg_id,
                        msg.body.org_msg_src@,
                    ));
                    assert(peers2@[j].0@ == others(midn)[j]@);
                }
            }
            msgs
        },
    };
    proof {
        let i = idx as int;
        let newn = cluster.nodes@[i];
        assert(midc.node_index(src_id@) == i);
        assert(cluster.nodes@ =~= oldc.nodes@.update(i, newn));
        assert(node_value_set(newn) =~= node_value_set(oldn).union(
            msg.body.gossip_data->0@.to_set(),
        ));
        let pair = (msg.body.org_msg_src@, msg.body.org_msg_id);
        assert(node_seen_set(midn) == node_seen_set(oldn).insert(pair));
        assert(others(midn) == others(oldn));
        assert(node_data_seq(newn) == node_data_seq(midn));
    }
    Ok(GossipEffects { reply: Some(reply), gossip: gossip_msgs, start_task })
}

/// Copies a value vector.
pub fn clone_values(data: &Vec<u64>) -> (r: Vec<u64>)
    ensures
        r@ == data@,
{
    let mut r: Vec<u64> = Vec::new();
    let mut i: usize = 0;
    while i < data.len()
        invariant
            i <= data@.len(),
            r@ == data@.subrange(0, i as int),
        decreases data@.len() - i,
    {
        r.push(data[i]);
        proof {
            assert(data@.subrange(0, i + 1 as int)
                =~= data@.subrange(0, i as int).push(data@[i as int]));
        }
        i = i + 1;
    }
    proof {
        assert(data@.subrange(0, data@.len() as int) =~= data@);
    }
    r
}

} // verus!
