//! The per-node broadcast payload: a union-only value set, the dedup ledger
//! of already-applied (origin, message-id) pairs, and the dissemination
//! watermark.

use vstd::prelude::*;
use crate::message::{BodyBase, Message};
use crate::errors::Error;
use crate::node::Node;
use crate::cluster::Cluster;
use crate::gossip::{GossipBody, gossip_msg_ok, build_gossip_messages, clone_values};

verus! {

/// The body of a `broadcast` request (and its `broadcast_ok` reply).
#[derive(Debug)]
pub struct BroadcastBody {
    pub base: BodyBase,
    pub message: Option<u64>,
}

/// The body of a broadcast `read` request and its `read_ok` reply.
#[derive(Debug)]
pub struct ReadBody {
    pub base: BodyBase,
    pub messages: Option<Vec<u64>>,
}

/// The body of a `topology` request and its `topology_ok` reply.  The
/// topology received on the wire is ignored; the overlay is built locally.
#[derive(Debug)]
pub struct TopologyBody {
    pub base: BodyBase,
    pub topology: Option<Vec<(String, Vec<String>)>>,
}

/// Broadcast state of one node.
///
/// `data` is the set of delivered values (union-only, never shrinks),
/// `seen_msg` the dedup ledger of (origin, message-id) pairs already applied,
/// and `last_gossip_len` the size of the value set at the last gossip send,
/// used to skip no-op dissemination cycles.
#[derive(Debug)]
pub struct BroadcastData {
    pub data: Vec<u64>,
    pub seen_msg: Vec<(String, u64)>,
    pub last_gossip_len: usize,
}

impl BroadcastData {
    /// The value set as a mathematical set.
    pub open spec fn value_set(self) -> Set<u64> {
        self.data@.to_set()
    }

    /// The dedup ledger as a mathematical set of (origin, message-id) pairs.
    pub open spec fn seen_set(self) -> Set<(Seq<char>, u64)> {
        Set::new(|p: (Seq<char>, u64)| exists|i: int|
            0 <= i < self.seen_msg@.len()
            && (#[trigger] self.seen_msg@[i]).0@ == p.0
            && self.seen_msg@[i].1 == p.1)
    }

    /// Well-formedness: neither backing vector holds a duplicate.
    pub open spec fn wf(self) -> bool {
        &&& self.data@.no_duplicates()
        &&& forall|i: int, j: int|
                0 <= i < j < self.seen_msg@.len() ==> !((#[trigger] self.seen_msg@[i]).0@
                    == (#[trigger] self.seen_msg@[j]).0@ && self.seen_msg@[i].1
                    == self.seen_msg@[j].1)
    }

    /// Creates an empty payload: no values, nothing seen, watermark zero.
    pub fn new() -> (r: Self)
        ensures
            r.wf(),
            r.data@ == Seq::<u64>::empty(),
            r.seen_msg@ == Seq::<(String, u64)>::empty(),
            r.last_gossip_len == 0,
    {
        Self { data: Vec::new(), seen_msg: Vec::new(), last_gossip_len: 0 }
    }

    /// Adds one delivered value to the value set; a value already present is
    /// left alone, so the set only ever grows.
    pub fn insert(&mut self, value: u64)
        requires
            old(self).wf(),
        ensures
            final(self).wf(),
            final(self).value_set() == old(self).value_set().insert(value),
            final(self).data@ == (if old(self).data@.contains(value) {
                old(self).data@
            } else {
                old(self).data@.push(value)
            }),
            final(self).seen_msg == old(self).seen_msg,
            final(self).last_gossip_len == old(self).last_gossip_len,
    {
        if !contains_value(&self.data, value) {
            self.data.push(value);
            proof {
                seq_to_set_push(old(self).data@, value);
            }
        } else {
            proof {
                assert(self.value_set() =~= old(self).value_set().insert(value));
            }
        }
    }

    /// Unions a batch of incoming gossip values into the value set
    /// (idempotent and commutative at the set level).
    pub fn extend(&mut self, values: &Vec<u64>)
        requires
            old(self).wf(),
        ensures
            final(self).wf(),
            final(self).value_set() == old(self).value_set().union(values@.to_set()),
            old(self).data@.is_prefix_of(final(self).data@),
            final(self).seen_msg == old(self).seen_msg,
            final(self).last_gossip_len == old(self).last_gossip_len,
    {
        let ghost orig = *self;
        let mut i: usize = 0;
        while i < values.len()
            invariant
                self.wf(),
                i <= values.len(),
                self.value_set() == orig.value_set().union(values@.subrange(0, i as int).to_set()),
                orig.data@.is_prefix_of(self.data@),
                self.seen_msg == orig.seen_msg,
                self.last_gossip_len == orig.last_gossip_len,
            decreases values.len() - i,
        {
            self.insert(values[i]);
            proof {
                assert(values@.subrange(0, i + 1 as int).drop_last()
                    =~= values@.subrange(0, i as int));
                seq_to_set_push(values@.subrange(0, i as int), values@[i as int]);
                assert(values@.subrange(0, i + 1 as int)
                    =~= values@.subrange(0, i as int).push(values@[i as int]));
                assert(self.value_set() =~= orig.value_set().union(
                    values@.subrange(0, i + 1 as int).to_set()));
            }
            i = i + 1;
        }
        proof {
            assert(values@.subrange(0, values@.len() as int) =~= values@);
        }
    }

    /// Returns a copy of the current value set for outbound gossip or
    /// client reads.
    pub fn clone_data(&self) -> (r: Vec<u64>)
        ensures
            r@ == self.data@,
    {
        let mut r: Vec<u64> = Vec::new();
        let mut i: usize = 0;
        while i < self.data.len()
            invariant
                i <= self.data.len(),
                r@ == self.data@.subrange(0, i as int),
            decreases self.data.len() - i,
        {
            r.push(self.data[i]);
            proof {
                assert(self.data@.subrange(0, i + 1 as int)
                    =~= self.data@.subrange(0, i as int).push(self.data@[i as int]));
            }
            i = i + 1;
        }
        proof {
            assert(self.data@.subrange(0, self.data@.len() as int) =~= self.data@);
        }
        r
    }

    /// Records one (origin, message-id) pair in the dedup ledger.  Returns
    /// true exactly on the first observation of the pair and false on every
    /// repeat; the ledger is append-only.
    pub fn add_if_not_present(&mut self, origin: &String, msg_id: u64) -> (r: bool)
        requires
            old(self).wf(),
        ensures
            final(self).wf(),
            r == !old(self).seen_set().contains((origin@, msg_id)),
            final(self).seen_set() == old(self).seen_set().insert((origin@, msg_id)),
            final(self).data == old(self).data,
            final(self).last_gossip_len == old(self).last_gossip_len,
    {
        let mut i: usize = 0;
        while i < self.seen_msg.len()
            invariant
                self == old(self),
                self.wf(),
                i <= self.seen_msg.len(),
                forall|k: int|
                    0 <= k < i ==> !((#[trigger] self.seen_msg@[k]).0@ == origin@
                        && self.seen_msg@[k].1 == msg_id),
            decreases self.seen_msg.len() - i,
        {
            if self.seen_msg[i].0 == *origin && self.seen_msg[i].1 == msg_id {
                proof {
                    assert(self.seen_msg@[i as int].0@ == origin@
                        && self.seen_msg@[i as int].1 == msg_id);
                    assert(self.seen_set().contains((origin@, msg_id)));
                    assert(self.seen_set() =~= self.seen_set().insert((origin@, msg_id)));
                }
                return false;
            }
            i = i + 1;
        }
        proof {
            assert(!self.seen_set().contains((origin@, msg_id)));
        }
        let key = (origin.clone(), msg_id);
        self.seen_msg.push(key);
        proof {
            let ghost pair = (origin@, msg_id);
            let ghost olds = old(self).seen_msg@;
            let ghost news = self.seen_msg@;
            assert(news[news.len() - 1].0@ == origin@ && news[news.len() - 1].1 == msg_id);
            assert forall|p: (Seq<char>, u64)| self.seen_set().contains(p)
                implies old(self).seen_set().insert(pair).contains(p) by {
                let i = choose|i: int|
                    0 <= i < news.len() && (#[trigger] news[i]).0@ == p.0 && news[i].1 == p.1;
                if i < olds.len() {
                    assert((#[trigger] olds[i]).0@ == p.0 && olds[i].1 == p.1);
                } else {
                    assert(p == pair);
                }
            }
            assert forall|p: (Seq<char>, u64)| old(self).seen_set().insert(pair).contains(p)
                implies self.seen_set().contains(p) by {
                if p == pair {
                    assert((#[trigger] news[news.len() - 1]).0@ == p.0
                        && news[news.len() - 1].1 == p.1);
                } else {
                    let i = choose|i: int|
                        0 <= i < olds.len() && (#[trigger] olds[i]).0@ == p.0 && olds[i].1 == p.1;
                    assert((#[trigger] news[i]).0@ == p.0 && news[i].1 == p.1);
                }
            }
            assert(self.seen_set() =~= old(self).seen_set().insert(pair));
        }
        true
    }
}

/// Linear membership scan over the value vector.
fn contains_value(data: &Vec<u64>, value: u64) -> (r: bool)
    ensures
        r == data@.contains(value),
{
    let mut i: usize = 0;
    while i < data.len()
        invariant
            i <= data.len(),
            forall|k: int| 0 <= k < i ==> data@[k] != value,
        decreases data.len() - i,
    {
        if data[i] == value {
            return true;
        }
        i = i + 1;
    }
    false
}

/// Pushing one element extends a sequence's set of elements by that element.
proof fn seq_to_set_push(s: Seq<u64>, v: u64)
    ensures
        s.push(v).to_set() == s.to_set().insert(v),
{
    assert forall|x: u64| s.push(v).to_set().contains(x)
        implies s.to_set().insert(v).contains(x) by {
        if s.push(v).contains(x) {
            let i = choose|i: int| 0 <= i < s.push(v).len() && s.push(v)[i] == x;
            if i < s.len() {
                assert(s.contains(x));
            }
        }
    }
    assert forall|x: u64| s.to_set().insert(v).contains(x)
        implies s.push(v).to_set().contains(x) by {
        if x == v {
            assert(s.push(v)[s.len() as int] == v);
            assert(s.push(v).contains(x));
        } else {
            assert(s.contains(x));
            let i = choose|i: int| 0 <= i < s.len() && s[i] == x;
            assert(s.push(v)[i] == x);
            assert(s.push(v).contains(x));
        }
    }
    assert(s.push(v).to_set() =~= s.to_set().insert(v));
}

/// The broadcast value sequence of a node (empty while the payload is not
/// yet created).
pub open spec fn node_data_seq(n: Node) -> Seq<u64> {
    match n.broadcast_data {
        Some(b) => b.data@,
        None => Seq::empty(),
    }
}

/// The broadcast value set of a node.
pub open spec fn node_value_set(n: Node) -> Set<u64> {
    node_data_seq(n).to_set()
}

/// The dedup ledger of a node.
pub open spec fn node_seen_set(n: Node) -> Set<(Seq<char>, u64)> {
    match n.broadcast_data {
        Some(b) => b.seen_set(),
        None => Set::empty(),
    }
}

/// The dissemination watermark of a node.
pub open spec fn node_watermark(n: Node) -> int {
    match n.broadcast_data {
        Some(b) => b.last_gossip_len as int,
        None => 0,
    }
}

/// The peer list with the node's own id filtered out.
pub open spec fn others_of(peers: Seq<String>, id: Seq<char>) -> Seq<String> {
    peers.filter(|p: String| p@ != id)
}

/// The gossip fan-out targets of a node: its peers excluding itself.
pub open spec fn others(n: Node) -> Seq<String> {
    others_of(n.peers@, n.id@)
}

/// The fan-out is never larger than the peer list.
pub proof fn lemma_others_len(peers: Seq<String>, id: Seq<char>)
    ensures
        others_of(peers, id).len() <= peers.len(),
{
    peers.lemma_filter_len(|p: String| p@ != id);
}

/// One filtering step.
proof fn lemma_others_push(s: Seq<String>, x: String, id: Seq<char>)
    ensures
        others_of(s.push(x), id) == (if x@ != id {
            others_of(s, id).push(x)
        } else {
            others_of(s, id)
        }),
{
    reveal(Seq::filter);
    assert(s.push(x).drop_last() =~= s);
    assert(s.push(x).last() == x);
}

/// Copies the peer list without the node's own id.
pub fn filter_out_self(peers: &Vec<String>, id: &String) -> (r: Vec<String>)
    ensures
        r@ == others_of(peers@, id@),
{
    let mut r: Vec<String> = Vec::new();
    let mut i: usize = 0;
    while i < peers.len()
        invariant
            i <= peers@.len(),
            r@ == others_of(peers@.subrange(0, i as int), id@),
        decreases peers@.len() - i,
    {
        if !(peers[i] == *id) {
            r.push(peers[i].clone());
        }
        proof {
            assert(peers@.subrange(0, i + 1 as int)
                =~= peers@.subrange(0, i as int).push(peers@[i as int]));
            lemma_others_push(peers@.subrange(0, i as int), peers@[i as int], id@);
        }
        i = i + 1;
    }
    proof {
        assert(peers@.subrange(0, peers@.len() as int) =~= peers@);
    }
    r
}

/// What `broadcast` (and a value-merging gossip) leaves of the addressed
/// node, apart from the dedup ledger: identity, peers and counter state are
/// untouched, the payload exists, the background task latch is set, and the
/// watermark records the new value-set size.
pub open spec fn broadcast_node_frame(oldn: Node, newn: Node) -> bool {
    &&& newn.id == oldn.id
    &&& newn.peers == oldn.peers
    &&& newn.gcounter_data == oldn.gcounter_data
    &&& newn.gossip_task_started
    &&& newn.broadcast_data is Some
}

/// The effects of a `broadcast` request: the `broadcast_ok` reply and the
/// gossip fan-out to send once the registry lock is released, plus whether
/// the caller must now spawn the node's background dissemination task.
#[derive(Debug)]
pub struct BroadcastEffects {
    pub reply: Message<BroadcastBody>,
    pub gossip: Vec<Message<GossipBody>>,
    pub start_task: bool,
}

/// Handles a `broadcast` request: stores the value into the addressed
/// node's value set, prepares one gossip message per peer (excluding the
/// node itself) carrying the full value set tagged with the originating
/// message's id and source, and builds the `broadcast_ok` reply.
pub fn broadcast(cluster: &mut Cluster, msg: Message<BroadcastBody>) -> (r: Result<
    BroadcastEffects,
    Error,
>)
    requires
        old(cluster).wf(),
        old(cluster).id_headroom(msg.dest@, 1),
    ensures
        final(cluster).wf(),
        final(cluster).is_topology_done == old(cluster).is_topology_done,
        match r {
            Ok(eff) => ({
                let i = old(cluster).node_index(msg.dest@);
                let oldn = old(cluster).nodes@[i];
                let newn = final(cluster).nodes@[i];
                &&& old(cluster).has_node(msg.dest@)
                &&& msg.body.base.msg_id is Some
                &&& msg.body.message is Some
                &&& final(cluster).nodes@ == old(cluster).nodes@.update(i, newn)
                &&& broadcast_node_frame(oldn, newn)
                &&& node_value_set(newn) == node_value_set(oldn).insert(msg.body.message->0)
                &&& node_seen_set(newn) == node_seen_set(oldn)
                &&& node_watermark(newn) == node_data_seq(newn).len()
                &&& newn.next_msg_id == oldn.next_msg_id + others(oldn).len() + 1
                &&& eff.gossip@.len() == others(oldn).len()
                &&& forall|k: int|
                        0 <= k < eff.gossip@.len() ==> gossip_msg_ok(
                            #[trigger] eff.gossip@[k],
                            oldn.id@,
                            others(oldn)[k]@,
                            oldn.next_msg_id + k,
                            node_data_seq(newn),
                            msg.body.base.msg_id->0,
                            msg.src@,
                        )
                &&& eff.reply.src@ == oldn.id@
                &&& eff.reply.dest@ == msg.src@
                &&& eff.reply.body.base.typ@ == "broadcast_ok"@
                &&& eff.reply.body.base.msg_id == Some(
                    (oldn.next_msg_id + others(oldn).len()) as u64,
                )
                &&& eff.reply.body.base.in_reply_to == msg.body.base.msg_id
                &&& eff.reply.body.message is None
                &&& eff.start_task == !oldn.gossip_task_started
            }),
            Err(e) => ({
                &&& *final(cluster) == *old(cluster)
                &&& match e {
                    Error::UnknownNode => !old(cluster).has_node(msg.dest@),
                    Error::MissingField => old(cluster).has_node(msg.dest@) && (msg.body.base.msg_id
                        is None || msg.body.message is None),
                    _ => false,
                }
            }),
        },
{
    let idx = match cluster.find_node(&msg.dest) {
        Some(i) => i,
        None => {
            return Err(Error::UnknownNode);
        },
    };
    proof {
        cluster.lemma_node_index(idx as int);
    }
    let org_msg_id = match msg.body.base.msg_id {
        Some(x) => x,
        None => {
            return Err(Error::MissingField);
        },
    };
    let value = match msg.body.message {
        Some(v) => v,
        None => {
            return Err(Error::MissingField);
        },
    };
    let ghost oldc = *cluster;
    let mut node = cluster.nodes.remove(idx);
    let ghost oldn = node;
    if node.broadcast_data.is_none() {
        node.broadcast_data = Some(BroadcastData::new());
    }
    match &mut node.broadcast_data {
        Some(b) => b.insert(value),
        None => {},
    }
    let start_task = !node.gossip_task_started;
    node.gossip_task_started = true;
    let gossip_data = match &node.broadcast_data {
        Some(b) => b.clone_data(),
        None => Vec::new(),
    };
    match &mut node.broadcast_data {
        Some(b) => b.last_gossip_len = gossip_data.len(),
        None => {},
    }
    let targets = filter_out_self(&node.peers, &node.id);
    proof {
        lemma_others_len(node.peers@, node.id@);
        assert(oldn.next_msg_id + oldn.peers@.len() + 1 <= u64::MAX);
    }
    let first_id = node.next_msg_id;
    let gossip = build_gossip_messages(
        &node.id,
        &targets,
        first_id,
        &gossip_data,
        org_msg_id,
        &msg.src,
    );
    node.next_msg_id = first_id + targets.len() as u64;
    let reply_id = node.get_next_id();
    let reply = Message {
        src: node.id.clone(),
        dest: msg.src.clone(),
        body: BroadcastBody {
            base: BodyBase {
                typ: String::from_str("broadcast_ok"),
                msg_id: Some(reply_id),
                in_reply_to: msg.body.base.msg_id,
            },
            message: None,
        },
    };
    let ghost newn = node;
    cluster.nodes.insert(idx, node);
    proof {
        assert(cluster.nodes@ =~= oldc.nodes@.update(idx as int, newn));
        assert(node_value_set(newn) =~= node_value_set(oldn).insert(value));
        assert(node_seen_set(newn) =~= node_seen_set(oldn));
        lemma_cluster_update_wf(oldc, *cluster, idx as int);
    }
    Ok(BroadcastEffects { reply, gossip, start_task })
}

/// Updating one node in place (same id, well-formed payloads) keeps the
/// registry well formed.
pub proof fn lemma_cluster_update_wf(oldc: Cluster, newc: Cluster, i: int)
    requires
        oldc.wf(),
        0 <= i < oldc.nodes@.len(),
        newc.nodes@ == oldc.nodes@.update(i, newc.nodes@[i]),
        newc.nodes@[i].id@ == oldc.nodes@[i].id@,
        newc.nodes@[i].wf(),
    ensures
        newc.wf(),
{
    assert forall|p: int, q: int|
        0 <= p < q < newc.nodes@.len()
        implies (#[trigger] newc.nodes@[p]).id@ != (#[trigger] newc.nodes@[q]).id@ by {
        assert(oldc.nodes@[p].id@ != oldc.nodes@[q].id@);
        assert(newc.nodes@[p].id@ == oldc.nodes@[p].id@);
        assert(newc.nodes@[q].id@ == oldc.nodes@[q].id@);
    }
    assert forall|p: int| 0 <= p < newc.nodes@.len() implies (#[trigger] newc.nodes@[p]).wf() by {
        if p != i {
            assert(newc.nodes@[p] == oldc.nodes@[p]);
        }
    }
}

/// Handles a broadcast `read` request: replies with a copy of the node's
/// current value set (creating an empty payload on first touch).
pub fn read(cluster: &mut Cluster, msg: Message<ReadBody>) -> (r: Result<Message<ReadBody>, Error>)
    requires
        old(cluster).wf(),
        old(cluster).id_headroom_one(msg.dest@),
    ensures
        final(cluster).wf(),
        final(cluster).is_topology_done == old(cluster).is_topology_done,
        match r {
            Ok(reply) => ({
                let i = old(cluster).node_index(msg.dest@);
                let oldn = old(cluster).nodes@[i];
                let newn = final(cluster).nodes@[i];
                &&& old(cluster).has_node(msg.dest@)
                &&& final(cluster).nodes@ == old(cluster).nodes@.update(i, newn)
                &&& newn.id == oldn.id
                &&& newn.peers == oldn.peers
                &&& newn.gcounter_data == oldn.gcounter_data
                &&& newn.gossip_task_started == oldn.gossip_task_started
                &&& newn.next_msg_id == oldn.next_msg_id + 1
                &&& newn.broadcast_data is Some
                &&& node_data_seq(newn) == node_data_seq(oldn)
                &&& node_seen_set(newn) == node_seen_set(oldn)
                &&& node_watermark(newn) == node_watermark(oldn)
                &&& reply.src@ == oldn.id@
                &&& reply.dest@ == msg.src@
                &&& reply.body.base.typ@ == "read_ok"@
                &&& reply.body.base.msg_id == Some(oldn.next_msg_id)
                &&& reply.body.base.in_reply_to == msg.body.base.msg_id
                &&& reply.body.messages is Some
                &&& reply.body.messages->0@ == node_data_seq(oldn)
            }),
            Err(e) => ({
                &&& *final(cluster) == *old(cluster)
                &&& e == Error::UnknownNode
                &&& !old(cluster).has_node(msg.dest@)
            }),
        },
{
    let idx = match cluster.find_node(&msg.dest) {
        Some(i) => i,
        None => {
            return Err(Error::UnknownNode);
        },
    };
    proof {
        cluster.lemma_node_index(idx as int);
    }
    let ghost oldc = *cluster;
    let mut node = cluster.nodes.remove(idx);
    let ghost oldn = node;
    if node.broadcast_data.is_none() {
        node.broadcast_data = Some(BroadcastData::new());
    }
    let messages = match &node.broadcast_data {
        Some(b) => b.clone_data(),
        None => Vec::new(),
    };
    let reply_id = node.get_next_id();
    let reply = Message {
        src: node.id.clone(),
        dest: msg.src.clone(),
        body: ReadBody {
            base: BodyBase {
                typ: String::from_str("read_ok"),
                msg_id: Some(reply_id),
                in_reply_to: msg.body.base.msg_id,
            },
            messages: Some(messages),
        },
    };
    let ghost newn = node;
    cluster.nodes.insert(idx, node);
    proof {
        assert(cluster.nodes@ =~= oldc.nodes@.update(idx as int, newn));
        assert(node_seen_set(newn) =~= node_seen_set(oldn));
        lemma_cluster_update_wf(oldc, *cluster, idx as int);
    }
    Ok(reply)
}

/// The value set after a sequence of gossip deliveries, applied in order.
/// Each delivery merges one incoming value set, exactly as `extend` does.
pub open spec fn apply_deliveries(s: Set<u64>, ds: Seq<Set<u64>>) -> Set<u64>
    decreases ds.len(),
{
    if ds.len() == 0 {
        s
    } else {
        apply_deliveries(s.union(ds[0]), ds.drop_first())
    }
}

/// The union of a sequence of value sets.
pub open spec fn union_all(ds: Seq<Set<u64>>) -> Set<u64>
    decreases ds.len(),
{
    if ds.len() == 0 {
        Set::empty()
    } else {
        ds[0].union(union_all(ds.drop_first()))
    }
}

/// Convergence: delivering any sequence of gossip value sets leaves the
/// node's value set equal to its starting set united with everything ever
/// delivered — so the result does not depend on delivery order or on
/// duplication, only on which values were delivered at all.
pub proof fn lemma_convergence(s: Set<u64>, ds: Seq<Set<u64>>)
    ensures
        apply_deliveries(s, ds) == s.union(union_all(ds)),
    decreases ds.len(),
{
    if ds.len() == 0 {
        assert(s.union(Set::empty()) =~= s);
    } else {
        lemma_convergence(s.union(ds[0]), ds.drop_first());
        assert(s.union(ds[0]).union(union_all(ds.drop_first())) =~= s.union(
            ds[0].union(union_all(ds.drop_first())),
        ));
    }
}

/// Convergence, stated between two nodes: two delivery histories carrying
/// the same values in any order and multiplicity drive the same starting
/// set to the same final set.
pub proof fn lemma_convergence_order_independent(
    s: Set<u64>,
    ds1: Seq<Set<u64>>,
    ds2: Seq<Set<u64>>,
)
    requires
        union_all(ds1) == union_all(ds2),
    ensures
        apply_deliveries(s, ds1) == apply_deliveries(s, ds2),
{
    lemma_convergence(s, ds1);
    lemma_convergence(s, ds2);
}

/// Idempotence: applying the same gossip value-set payload twice produces
/// the same state as applying it once.
pub proof fn lemma_gossip_idempotent(s: Set<u64>, d: Set<u64>)
    ensures
        s.union(d).union(d) == s.union(d),
{
    assert(s.union(d).union(d) =~= s.union(d));
}

/// The dedup ledger after observing a sequence of further (origin,
/// message-id) pairs, exactly as `add_if_not_present` extends it.
pub open spec fn observe_all(
    seen: Set<(Seq<char>, u64)>,
    ps: Seq<(Seq<char>, u64)>,
) -> Set<(Seq<char>, u64)>
    decreases ps.len(),
{
    if ps.len() == 0 {
        seen
    } else {
        observe_all(seen.insert(ps[0]), ps.drop_first())
    }
}

/// The ledger is append-only: a pair once recorded stays recorded.
pub proof fn lemma_observe_monotone(
    seen: Set<(Seq<char>, u64)>,
    ps: Seq<(Seq<char>, u64)>,
    q: (Seq<char>, u64),
)
    requires
        seen.contains(q),
    ensures
        observe_all(seen, ps).contains(q),
    decreases ps.len(),
{
    if ps.len() > 0 {
        lemma_observe_monotone(seen.insert(ps[0]), ps.drop_first(), q);
    }
}

/// Dedup correctness: the first observation of a pair finds it absent (so
/// `add_if_not_present` returns true), and after that observation every
/// later observation of the same pair finds it present (so every repeat
/// returns false), whatever else is observed in between.
pub proof fn lemma_dedup_correct(
    seen: Set<(Seq<char>, u64)>,
    p: (Seq<char>, u64),
    later: Seq<(Seq<char>, u64)>,
)
    requires
        !seen.contains(p),
    ensures
        observe_all(seen.insert(p), later).contains(p),
{
    lemma_observe_monotone(seen.insert(p), later, p);
}

/// Copies a list of node ids.
pub fn clone_strings(v: &Vec<String>) -> (r: Vec<String>)
    ensures
        r@ == v@,
{
    let mut r: Vec<String> = Vec::new();
    let mut i: usize = 0;
    while i < v.len()
        invariant
            i <= v@.len(),
            r@ == v@.subrange(0, i as int),
        decreases v@.len() - i,
    {
        r.push(v[i].clone());
        proof {
            assert(v@.subrange(0, i + 1 as int)
                =~= v@.subrange(0, i as int).push(v@[i as int]));
        }
        i = i + 1;
    }
    proof {
        assert(v@.subrange(0, v@.len() as int) =~= v@);
    }
    r
}

/// Handles a `topology` request.  The first such request per process builds
/// the overlay graph from the addressed node's initial peer list — the
/// ordered list of all node ids — and writes the adjacency lists back into
/// every registered node's peer list; a completion latch makes every later
/// request a no-op.  Whenever every listed id is registered, the written
/// overlay is symmetric, keeps consecutive ids adjacent, and connects every
/// pair of listed ids by at most two peer-list edges.
pub fn topology(cluster: &mut Cluster, msg: Message<TopologyBody>) -> (r: Result<
    Message<TopologyBody>,
    Error,
>)
    requires
        old(cluster).wf(),
    ensures
        final(cluster).wf(),
        match r {
            Ok(reply) => ({
                let i = old(cluster).node_index(msg.dest@);
                let oldn = old(cluster).nodes@[i];
                let idsv = crate::topology::ids_view(oldn.peers@);
                &&& old(cluster).has_node(msg.dest@)
                &&& reply.src@ == oldn.id@
                &&& reply.dest@ == msg.src@
                &&& reply.body.base.typ@ == "topology_ok"@
                &&& reply.body.base.msg_id is None
                &&& reply.body.base.in_reply_to == msg.body.base.msg_id
                &&& reply.body.topology is None
                &&& final(cluster).is_topology_done
                &&& (old(cluster).is_topology_done ==> *final(cluster) == *old(cluster))
                &&& (!old(cluster).is_topology_done ==> {
                    &&& crate::topology::distinct_ids_spec(idsv)
                    &&& final(cluster).nodes@.len() == old(cluster).nodes@.len()
                    &&& (forall|p: int|
                        0 <= p < final(cluster).nodes@.len() ==> {
                            let o = #[trigger] old(cluster).nodes@[p];
                            let n = final(cluster).nodes@[p];
                            &&& n.id == o.id
                            &&& n.next_msg_id == o.next_msg_id
                            &&& n.gcounter_data == o.gcounter_data
                            &&& n.broadcast_data == o.broadcast_data
                            &&& n.gossip_task_started == o.gossip_task_started
                        })
                    &&& (forall|p: int|
                        0 <= p < final(cluster).nodes@.len() && !crate::topology::ids_contain(
                            idsv,
                            (#[trigger] final(cluster).nodes@[p]).id@,
                        ) ==> final(cluster).nodes@[p].peers == old(cluster).nodes@[p].peers)
                    &&& ((forall|k: int|
                        0 <= k < idsv.len() ==> old(cluster).has_node(#[trigger] idsv[k])) ==> {
                        &&& (forall|a: int, b: int|
                            #![auto]
                            0 <= a < idsv.len() && 0 <= b < idsv.len() ==> (
                            crate::topology::peer_edge(*final(cluster), idsv[a], idsv[b])
                                <==> crate::topology::peer_edge(
                                *final(cluster),
                                idsv[b],
                                idsv[a],
                            )))
                        &&& (forall|a: int, b: int|
                            #![auto]
                            0 <= a && b == a + 1 && b < idsv.len() ==> crate::topology::peer_edge(
                                *final(cluster),
                                idsv[a],
                                idsv[b],
                            ))
                        &&& (forall|a: int, b: int|
                            #![auto]
                            0 <= a < idsv.len() && 0 <= b < idsv.len()
                                ==> crate::topology::within_two_ids(
                                *final(cluster),
                                idsv,
                                a,
                                b,
                            ))
                    })
                })
            }),
            Err(e) => ({
                &&& *final(cluster) == *old(cluster)
                &&& match e {
                    Error::UnknownNode => !old(cluster).has_node(msg.dest@),
                    Error::ProtocolError => ({
                        let i = old(cluster).node_index(msg.dest@);
                        let oldn = old(cluster).nodes@[i];
                        &&& old(cluster).has_node(msg.dest@)
                        &&& !old(cluster).is_topology_done
                        &&& !crate::topology::distinct_ids_spec(
                            crate::topology::ids_view(oldn.peers@),
                        )
                    }),
                    _ => false,
                }
            }),
        },
{
    let idx = match cluster.find_node(&msg.dest) {
        Some(i) => i,
        None => {
            return Err(Error::UnknownNode);
        },
    };
    proof {
        cluster.lemma_node_index(idx as int);
    }
    let src_id = cluster.nodes[idx].id.clone();
    let reply = Message {
        src: src_id,
        dest: msg.src.clone(),
        body: TopologyBody {
            base: BodyBase {
                typ: String::from_str("topology_ok"),
                msg_id: None,
                in_reply_to: msg.body.base.msg_id,
            },
            topology: None,
        },
    };
    if cluster.is_topology_done {
        return Ok(reply);
    }
    let all_nodes = clone_strings(&cluster.nodes[idx].peers);
    if !crate::topology::distinct_ids(&all_nodes) {
        return Err(Error::ProtocolError);
    }
    let g = crate::topology::build_optimized_topology(all_nodes.len());
    let ghost oldc = *cluster;
    crate::topology::apply_topology_to_cluster(cluster, &g, &all_nodes);
    cluster.is_topology_done = true;
    proof {
        let idsv = crate::topology::ids_view(all_nodes@);
        let c = *cluster;
        if forall|k: int| 0 <= k < idsv.len() ==> oldc.has_node(#[trigger] idsv[k]) {
            assert forall|k: int| 0 <= k < all_nodes@.len() implies c.has_node(
                crate::topology::ids_view(all_nodes@)[k],
            ) by {
                assert(oldc.has_node(idsv[k]));
            }
            assert forall|k: int| 0 <= k < all_nodes@.len() implies crate::topology::row_assigned(
                c,
                g@,
                all_nodes@,
                c.node_index(crate::topology::ids_view(all_nodes@)[k]),
                k,
            ) by {
                assert(oldc.has_node(idsv[k]));
                assert(c.node_index(idsv[k]) == oldc.node_index(idsv[k]));
            }
            crate::topology::lemma_peer_edges_match(c, g@, all_nodes@);
            assert forall|a: int, b: int|
                #![auto]
                0 <= a < idsv.len() && 0 <= b < idsv.len() implies (crate::topology::peer_edge(
                c,
                idsv[a],
                idsv[b],
            ) <==> crate::topology::peer_edge(c, idsv[b], idsv[a])) by {
                assert(crate::topology::has_edge(g@, a, b) ==> crate::topology::has_edge(
                    g@,
                    b,
                    a,
                ));
                assert(crate::topology::has_edge(g@, b, a) ==> crate::topology::has_edge(
                    g@,
                    a,
                    b,
                ));
            }
            assert forall|a: int, b: int|
                #![auto]
                0 <= a && b == a + 1 && b < idsv.len() implies crate::topology::peer_edge(
                c,
                idsv[a],
                idsv[b],
            ) by {
                assert(crate::topology::has_edge(g@, a, b));
            }
            assert forall|a: int, b: int|
                #![auto]
                0 <= a < idsv.len() && 0 <= b < idsv.len()
                implies crate::topology::within_two_ids(c, idsv, a, b) by {
                assert(crate::topology::within_two(g@, a, b));
                if a == b {
                } else if crate::topology::has_edge(g@, a, b) {
                    assert(crate::topology::peer_edge(c, idsv[a], idsv[b]));
                } else {
                    let k = choose|k: int|
                        #![auto]
                        crate::topology::has_edge(g@, a, k) && crate::topology::has_edge(
                            g@,
                            k,
                            b,
                        );
                    assert(0 <= k < g@.len());
                    assert(crate::topology::peer_edge(c, idsv[a], idsv[k]));
                    assert(crate::topology::peer_edge(c, idsv[k], idsv[b]));
                }
            }
        }
    }
    Ok(reply)
}

/// One dissemination decision of the background task: if the node's value
/// set has grown past the watermark, advance the watermark, draw one message
/// id per peer (excluding the node itself), and hand back the data to send.
/// Returns `None` — a skipped cycle — when the node is unknown or nothing
/// new has appeared since the last send.
pub fn prepare_gossip_batch(cluster: &mut Cluster, node_id: &String) -> (r: Option<
    (String, Vec<u64>, Vec<(String, u64)>),
>)
    requires
        old(cluster).wf(),
        old(cluster).id_headroom(node_id@, 1),
    ensures
        final(cluster).wf(),
        final(cluster).is_topology_done == old(cluster).is_topology_done,
        !old(cluster).has_node(node_id@) ==> *final(cluster) == *old(cluster) && r is None,
        old(cluster).has_node(node_id@) ==> ({
            let i = old(cluster).node_index(node_id@);
            let oldn = old(cluster).nodes@[i];
            let newn = final(cluster).nodes@[i];
            &&& final(cluster).nodes@ == old(cluster).nodes@.update(i, newn)
            &&& newn.id == oldn.id
            &&& newn.peers == oldn.peers
            &&& newn.gcounter_data == oldn.gcounter_data
            &&& newn.gossip_task_started == oldn.gossip_task_started
            &&& newn.broadcast_data is Some
            &&& node_data_seq(newn) == node_data_seq(oldn)
            &&& node_seen_set(newn) == node_seen_set(oldn)
            &&& (match r {
                None => {
                    &&& node_data_seq(oldn).len() == node_watermark(oldn)
                    &&& node_watermark(newn) == node_watermark(oldn)
                    &&& newn.next_msg_id == oldn.next_msg_id
                },
                Some((src, data, peers)) => {
                    &&& node_data_seq(oldn).len() != node_watermark(oldn)
                    &&& node_watermark(newn) == node_data_seq(newn).len()
                    &&& src@ == oldn.id@
                    &&& data@ == node_data_seq(oldn)
                    &&& peers@.len() == others(oldn).len()
                    &&& (forall|k: int|
                        0 <= k < peers@.len() ==> (#[trigger] peers@[k]).0@ == others(oldn)[k]@
                            && peers@[k].1 == oldn.next_msg_id + k)
                    &&& newn.next_msg_id == oldn.next_msg_id + others(oldn).len()
                },
            })
        }),
{
    let idx = match cluster.find_node(node_id) {
        Some(i) => i,
        None => {
            return None;
        },
    };
    proof {
        cluster.lemma_node_index(idx as int);
    }
    let ghost oldc = *cluster;
    let mut node = cluster.nodes.remove(idx);
    let ghost oldn = node;
    if node.broadcast_data.is_none() {
        node.broadcast_data = Some(BroadcastData::new());
    }
    let gossip_data = match &node.broadcast_data {
        Some(b) => b.clone_data(),
        None => Vec::new(),
    };
    let watermark = match &node.broadcast_data {
        Some(b) => b.last_gossip_len,
        None => 0,
    };
    if gossip_data.len() == watermark {
        let ghost newn = node;
        cluster.nodes.insert(idx, node);
        proof {
            assert(cluster.nodes@ =~= oldc.nodes@.update(idx as int, newn));
            assert(node_seen_set(newn) =~= node_seen_set(oldn));
            lemma_cluster_update_wf(oldc, *cluster, idx as int);
        }
        return None;
    }
    match &mut node.broadcast_data {
        Some(b) => b.last_gossip_len = gossip_data.len(),
        None => {},
    }
    let src = node.id.clone();
    let targets = filter_out_self(&node.peers, &node.id);
    proof {
        lemma_others_len(node.peers@, node.id@);
        assert(oldn.next_msg_id + oldn.peers@.len() + 1 <= u64::MAX);
    }
    let mut peers: Vec<(String, u64)> = Vec::new();
    let mut k: usize = 0;
    let first_id = node.next_msg_id;
    while k < targets.len()
        invariant
            first_id + targets@.len() <= u64::MAX,
            k <= targets@.len(),
            peers@.len() == k,
            forall|j: int|
                0 <= j < k ==> (#[trigger] peers@[j]).0@ == targets@[j]@ && peers@[j].1 == first_id
                    + j,
        decreases targets@.len() - k,
    {
        peers.push((targets[k].clone(), first_id + k as u64));
        k = k + 1;
    }
    node.next_msg_id = first_id + targets.len() as u64;
    let ghost newn = node;
    cluster.nodes.insert(idx, node);
    proof {
        assert(cluster.nodes@ =~= oldc.nodes@.update(idx as int, newn));
        assert(node_seen_set(newn) =~= node_seen_set(oldn));
        lemma_cluster_update_wf(oldc, *cluster, idx as int);
    }
    Some((src, gossip_data, peers))
}

/// Relies on rand::random: draws a fresh origin message id for a periodic
/// dissemination round.  Nothing is assumed of the value.
pub assume_specification<T>[ rand::random::<T> ]() -> (r: T)
    where
        rand::distributions::Standard: rand::distributions::Distribution<T>,
;

/// Shape of one periodic fan-out round: one gossip message per target in
/// order, consecutive message ids, the node's own id as origin source, and
/// one shared origin id `org`.
pub open spec fn tick_batch_ok(msgs: Seq<Message<GossipBody>>, oldn: Node, org: u64) -> bool {
    forall|k: int|
        0 <= k < msgs.len() ==> gossip_msg_ok(
            #[trigger] msgs[k],
            oldn.id@,
            others(oldn)[k]@,
            oldn.next_msg_id + k,
            node_data_seq(oldn),
            org,
            oldn.id@,
        )
}

/// One full cycle of the background dissemination task: diff the node's
/// value set against the watermark and, if it grew and the node has peers
/// besides itself, produce one gossip message per such peer, all tagged with
/// one freshly drawn origin id and the node itself as origin source.  The
/// caller sends the messages after releasing the registry lock.
#[verifier::spinoff_prover]
#[verifier::rlimit(30)]
pub fn gossip_tick(cluster: &mut Cluster, node_id: &String) -> (r: Option<
    Vec<Message<GossipBody>>,
>)
    requires
        old(cluster).wf(),
        old(cluster).id_headroom(node_id@, 1),
    ensures
        final(cluster).wf(),
        final(cluster).is_topology_done == old(cluster).is_topology_done,
        !old(cluster).has_node(node_id@) ==> *final(cluster) == *old(cluster) && r is None,
        old(cluster).has_node(node_id@) ==> ({
            let i = old(cluster).node_index(node_id@);
            let oldn = old(cluster).nodes@[i];
            let newn = final(cluster).nodes@[i];
            &&& final(cluster).nodes@ == old(cluster).nodes@.update(i, newn)
            &&& newn.id == oldn.id
            &&& newn.peers == oldn.peers
            &&& newn.gcounter_data == oldn.gcounter_data
            &&& newn.gossip_task_started == oldn.gossip_task_started
            &&& newn.broadcast_data is Some
            &&& node_data_seq(newn) == node_data_seq(oldn)
            &&& node_seen_set(newn) == node_seen_set(oldn)
            &&& (match r {
                None => {
                    ||| (node_data_seq(oldn).len() == node_watermark(oldn) && node_watermark(newn)
                        == node_watermark(oldn) && newn.next_msg_id == oldn.next_msg_id)
                    ||| (node_data_seq(oldn).len() != node_watermark(oldn) && others(oldn).len()
                        == 0 && node_watermark(newn) == node_data_seq(newn).len()
                        && newn.next_msg_id == oldn.next_msg_id)
                },
                Some(msgs) => {
                    &&& node_data_seq(oldn).len() != node_watermark(oldn)
                    &&& others(oldn).len() > 0
                    &&& node_watermark(newn) == node_data_seq(newn).len()
                    &&& newn.next_msg_id == oldn.next_msg_id + others(oldn).len()
                    &&& msgs@.len() == others(oldn).len()
                    &&& exists|org: u64| #[trigger] tick_batch_ok(msgs@, oldn, org)
                },
            })
        }),
{
    match prepare_gossip_batch(cluster, node_id) {
        None => None,
        Some((src, data, peers)) => {
            if peers.len() == 0 {
                return None;
            }
            let org: u64 = rand::random::<u64>();
            let mut msgs: Vec<Message<GossipBody>> = Vec::new();
            let mut k: usize = 0;
            while k < peers.len()
                invariant
                    k <= peers@.len(),
                    msgs@.len() == k,
                    forall|j: int|
                        0 <= j < k ==> gossip_msg_ok(
                            #[trigger] msgs@[j],
                            src@,
                            (#[trigger] peers@[j]).0@,
                            peers@[j].1 as int,
                            data@,
                            org,
                            src@,
                        ),
                decreases peers@.len() - k,
            {
                let m = crate::gossip::create_gossip_message(
                    &src,
                    &peers[k].0,
                    peers[k].1,
                    clone_values(&data),
                    org,
                    &src,
                );
                msgs.push(m);
                k = k + 1;
            }
            proof {
                let i = old(cluster).node_index(node_id@);
                let oldn = old(cluster).nodes@[i];
                assert forall|j: int| 0 <= j < msgs@.len() implies gossip_msg_ok(
                    #[trigger] msgs@[j],
                    oldn.id@,
                    others(oldn)[j]@,
                    oldn.next_msg_id + j,
                    node_data_seq(oldn),
                    org,
                    oldn.id@,
                ) by {
                    assert(gossip_msg_ok(
                        msgs@[j],
                        src@,
                        peers@[j].0@,
                        peers@[j].1 as int,
                        data@,
                        org,
                        src@,
                    ));
                    assert(peers@[j].0@ == others(oldn)[j]@);
                }
                assert(tick_batch_ok(msgs@, oldn, org));
            }
            Some(msgs)
        },
    }
}

} // verus!
