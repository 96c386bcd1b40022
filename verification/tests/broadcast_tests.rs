use gossip_engine::broadcast::{broadcast, prepare_gossip_batch, read, topology, BroadcastBody,
    BroadcastData, ReadBody, TopologyBody};
use gossip_engine::cluster::Cluster;
use gossip_engine::errors::Error;
use gossip_engine::gossip::{gossip, GossipBody};
use gossip_engine::init::{init, InitBody};
use gossip_engine::message::{BodyBase, Message};

fn base(typ: &str, msg_id: Option<u64>) -> BodyBase {
    BodyBase { typ: typ.to_string(), msg_id, in_reply_to: None }
}

fn cluster_of(ids: &[&str]) -> Cluster {
    let mut cluster = Cluster::new();
    let all: Vec<String> = ids.iter().map(|s| s.to_string()).collect();
    for id in ids {
        let msg = Message {
            src: "c0".to_string(),
            dest: id.to_string(),
            body: InitBody {
                base: base("init", Some(1)),
                node_id: Some(id.to_string()),
                node_ids: Some(all.clone()),
            },
        };
        let reply = init(&mut cluster, msg).expect("init should succeed");
        assert_eq!(reply.body.base.typ, "init_ok");
        assert_eq!(reply.src, id.to_string());
    }
    cluster
}

fn broadcast_value(cluster: &mut Cluster, node: &str, value: u64, msg_id: u64)
    -> (Message<BroadcastBody>, Vec<Message<GossipBody>>) {
    let msg = Message {
        src: "c1".to_string(),
        dest: node.to_string(),
        body: BroadcastBody { base: base("broadcast", Some(msg_id)), message: Some(value) },
    };
    let eff = broadcast(cluster, msg).expect("broadcast should succeed");
    (eff.reply, eff.gossip)
}

fn read_values(cluster: &mut Cluster, node: &str) -> Vec<u64> {
    let msg = Message {
        src: "c1".to_string(),
        dest: node.to_string(),
        body: ReadBody { base: base("read", Some(9)), messages: None },
    };
    let reply = read(cluster, msg).expect("read should succeed");
    let mut values = reply.body.messages.expect("read_ok carries messages");
    values.sort();
    values
}

#[test]
fn broadcast_stores_value_and_replies() {
    let mut cluster = cluster_of(&["n1", "n2", "n3"]);
    let (reply, gossip_msgs) = broadcast_value(&mut cluster, "n1", 42, 7);
    assert_eq!(reply.src, "n1");
    assert_eq!(reply.dest, "c1");
    assert_eq!(reply.body.base.typ, "broadcast_ok");
    assert_eq!(reply.body.base.in_reply_to, Some(7));
    assert_eq!(reply.body.message, None);
    // One gossip message per peer other than the node itself.
    assert_eq!(gossip_msgs.len(), 2);
    let dests: Vec<&str> = gossip_msgs.iter().map(|m| m.dest.as_str()).collect();
    assert_eq!(dests, vec!["n2", "n3"]);
    for m in &gossip_msgs {
        assert_eq!(m.src, "n1");
        assert_eq!(m.body.base.typ, "gossip");
        assert_eq!(m.body.gossip_data.as_ref().unwrap(), &vec![42]);
        assert_eq!(m.body.org_msg_id, 7);
        assert_eq!(m.body.org_msg_src, "c1");
    }
    assert_eq!(read_values(&mut cluster, "n1"), vec![42]);
}

#[test]
fn broadcast_msg_ids_are_consecutive() {
    let mut cluster = cluster_of(&["n1", "n2", "n3"]);
    let (reply, gossip_msgs) = broadcast_value(&mut cluster, "n1", 1, 5);
    // Fan-out draws the first ids, the reply the next one.
    assert_eq!(gossip_msgs[0].body.base.msg_id, Some(0));
    assert_eq!(gossip_msgs[1].body.base.msg_id, Some(1));
    assert_eq!(reply.body.base.msg_id, Some(2));
}

#[test]
fn scenario_three_nodes_converge_on_42() {
    // Initialize n1, n2, n3 with peer list [n1, n2, n3]; build the topology;
    // broadcast 42 at n1; after gossip propagation all reads return {42}.
    let mut cluster = cluster_of(&["n1", "n2", "n3"]);
    let topo_msg = Message {
        src: "c1".to_string(),
        dest: "n1".to_string(),
        body: TopologyBody { base: base("topology", Some(2)), topology: None },
    };
    let reply = topology(&mut cluster, topo_msg).expect("topology should succeed");
    assert_eq!(reply.body.base.typ, "topology_ok");
    assert_eq!(reply.body.base.in_reply_to, Some(2));

    let (_reply, first_round) = broadcast_value(&mut cluster, "n1", 42, 3);
    assert_eq!(read_values(&mut cluster, "n1"), vec![42]);

    // Deliver the gossip fan-out, then every re-triggered round, until quiet.
    let mut pending = first_round;
    let mut guard = 0;
    while let Some(m) = pending.pop() {
        guard += 1;
        assert!(guard < 100, "gossip must terminate");
        let dest = m.dest.clone();
        if cluster.find_node(&dest).is_none() {
            continue;
        }
        let eff = gossip(&mut cluster, m).expect("gossip should succeed");
        pending.extend(eff.gossip);
    }
    assert_eq!(read_values(&mut cluster, "n1"), vec![42]);
    assert_eq!(read_values(&mut cluster, "n2"), vec![42]);
    assert_eq!(read_values(&mut cluster, "n3"), vec![42]);
}

#[test]
fn gossip_merge_is_idempotent() {
    let mut cluster = cluster_of(&["n1", "n2"]);
    let payload = || Message {
        src: "n2".to_string(),
        dest: "n1".to_string(),
        body: GossipBody {
            base: base("gossip", Some(1)),
            gossip_data: Some(vec![1, 2, 3]),
            org_msg_id: 77,
            org_msg_src: "n2".to_string(),
        },
    };
    gossip(&mut cluster, payload()).expect("first delivery");
    let once = read_values(&mut cluster, "n1");
    gossip(&mut cluster, payload()).expect("second delivery");
    let twice = read_values(&mut cluster, "n1");
    assert_eq!(once, vec![1, 2, 3]);
    assert_eq!(twice, once);
}

#[test]
fn convergence_is_order_independent() {
    // The same deliveries in opposite orders, with duplication, converge.
    let batches: Vec<Vec<u64>> = vec![vec![1, 2], vec![3], vec![1, 3], vec![4]];
    let deliver = |cluster: &mut Cluster, data: &Vec<u64>, org: u64| {
        let msg = Message {
            src: "n2".to_string(),
            dest: "n1".to_string(),
            body: GossipBody {
                base: base("gossip", Some(org)),
                gossip_data: Some(data.clone()),
                org_msg_id: org,
                org_msg_src: "n2".to_string(),
            },
        };
        gossip(cluster, msg).expect("gossip should succeed");
    };
    let mut forward = cluster_of(&["n1", "n2"]);
    for (k, b) in batches.iter().enumerate() {
        deliver(&mut forward, b, k as u64);
    }
    let mut backward = cluster_of(&["n1", "n2"]);
    for (k, b) in batches.iter().enumerate().rev() {
        deliver(&mut backward, b, 100 + k as u64);
    }
    assert_eq!(read_values(&mut forward, "n1"), vec![1, 2, 3, 4]);
    assert_eq!(read_values(&mut backward, "n1"), vec![1, 2, 3, 4]);
}

#[test]
fn dedup_first_observation_true_then_false() {
    let mut data = BroadcastData::new();
    let origin = "n2".to_string();
    assert!(data.add_if_not_present(&origin, 10));
    assert!(!data.add_if_not_present(&origin, 10));
    assert!(!data.add_if_not_present(&origin, 10));
    // A different message id or origin is a fresh pair.
    assert!(data.add_if_not_present(&origin, 11));
    let other = "n3".to_string();
    assert!(data.add_if_not_present(&other, 10));
    // The old pair still reads as seen after the interleaved observations.
    assert!(!data.add_if_not_present(&origin, 10));
}

#[test]
fn gossip_reply_carries_merged_data_and_same_origin() {
    let mut cluster = cluster_of(&["n1", "n2"]);
    broadcast_value(&mut cluster, "n1", 5, 1);
    let msg = Message {
        src: "n2".to_string(),
        dest: "n1".to_string(),
        body: GossipBody {
            base: base("gossip", Some(8)),
            gossip_data: Some(vec![9]),
            org_msg_id: 8,
            org_msg_src: "n2".to_string(),
        },
    };
    let eff = gossip(&mut cluster, msg).expect("gossip should succeed");
    let reply = eff.reply.expect("fresh gossip is acknowledged");
    assert_eq!(reply.body.base.typ, "gossip_ok");
    assert_eq!(reply.src, "n1");
    assert_eq!(reply.dest, "n2");
    assert_eq!(reply.body.base.in_reply_to, Some(8));
    assert_eq!(reply.body.org_msg_id, 8);
    assert_eq!(reply.body.org_msg_src, "n2");
    let mut merged = reply.body.gossip_data.expect("reply carries the value set");
    merged.sort();
    assert_eq!(merged, vec![5, 9]);
}

#[test]
fn repeated_origin_reference_is_dropped() {
    let mut cluster = cluster_of(&["n1", "n2"]);
    let make = |values: Vec<u64>| Message {
        src: "n2".to_string(),
        dest: "n1".to_string(),
        body: GossipBody {
            base: base("gossip", Some(4)),
            gossip_data: Some(values),
            org_msg_id: 4,
            org_msg_src: "n2".to_string(),
        },
    };
    let first = gossip(&mut cluster, make(vec![1])).expect("first gossip");
    assert!(first.reply.is_some());
    let second = gossip(&mut cluster, make(vec![2])).expect("repeat gossip");
    // Repeat of a previously observed origin reference: merged but no reply
    // and no further propagation.
    assert!(second.reply.is_none());
    assert!(second.gossip.is_empty());
    assert_eq!(read_values(&mut cluster, "n1"), vec![1, 2]);
}

#[test]
fn gossip_ack_is_merged_without_reply() {
    let mut cluster = cluster_of(&["n1", "n2"]);
    let ack = Message {
        src: "n2".to_string(),
        dest: "n1".to_string(),
        body: GossipBody {
            base: base("gossip_ok", Some(4)),
            gossip_data: Some(vec![6]),
            org_msg_id: 4,
            org_msg_src: "n1".to_string(),
        },
    };
    let eff = gossip(&mut cluster, ack).expect("ack should be accepted");
    assert!(eff.reply.is_none());
    assert!(eff.gossip.is_empty());
    assert_eq!(read_values(&mut cluster, "n1"), vec![6]);
}

#[test]
fn prepare_gossip_batch_skips_quiescent_node() {
    let mut cluster = cluster_of(&["n1", "n2"]);
    let node = "n1".to_string();
    // Nothing broadcast yet: watermark equals the (empty) value set.
    assert!(prepare_gossip_batch(&mut cluster, &node).is_none());
    broadcast_value(&mut cluster, "n1", 1, 1);
    // The broadcast handler already advanced the watermark.
    assert!(prepare_gossip_batch(&mut cluster, &node).is_none());
    // A merge that grows the set re-arms the batch.
    let msg = Message {
        src: "n2".to_string(),
        dest: "n1".to_string(),
        body: GossipBody {
            base: base("gossip_ok", None),
            gossip_data: Some(vec![2]),
            org_msg_id: 0,
            org_msg_src: "n2".to_string(),
        },
    };
    gossip(&mut cluster, msg).expect("gossip merge");
    let (src, data, peers) = prepare_gossip_batch(&mut cluster, &node)
        .expect("grown set must be disseminated");
    assert_eq!(src, "n1");
    let mut data = data;
    data.sort();
    assert_eq!(data, vec![1, 2]);
    assert_eq!(peers.len(), 1);
    assert_eq!(peers[0].0, "n2");
    // And the watermark advances again.
    assert!(prepare_gossip_batch(&mut cluster, &node).is_none());
}

#[test]
fn broadcast_unknown_node_is_an_error() {
    let mut cluster = cluster_of(&["n1"]);
    let msg = Message {
        src: "c1".to_string(),
        dest: "n9".to_string(),
        body: BroadcastBody { base: base("broadcast", Some(1)), message: Some(1) },
    };
    assert_eq!(broadcast(&mut cluster, msg).unwrap_err(), Error::UnknownNode);
}

#[test]
fn broadcast_missing_message_is_an_error() {
    let mut cluster = cluster_of(&["n1"]);
    let msg = Message {
        src: "c1".to_string(),
        dest: "n1".to_string(),
        body: BroadcastBody { base: base("broadcast", Some(1)), message: None },
    };
    assert_eq!(broadcast(&mut cluster, msg).unwrap_err(), Error::MissingField);
}

#[test]
fn broadcast_missing_msg_id_is_an_error() {
    let mut cluster = cluster_of(&["n1"]);
    let msg = Message {
        src: "c1".to_string(),
        dest: "n1".to_string(),
        body: BroadcastBody { base: base("broadcast", None), message: Some(3) },
    };
    assert_eq!(broadcast(&mut cluster, msg).unwrap_err(), Error::MissingField);
}

#[test]
fn gossip_missing_data_is_an_error() {
    let mut cluster = cluster_of(&["n1"]);
    let msg = Message {
        src: "n2".to_string(),
        dest: "n1".to_string(),
        body: GossipBody {
            base: base("gossip", Some(1)),
            gossip_data: None,
            org_msg_id: 1,
            org_msg_src: "n2".to_string(),
        },
    };
    assert_eq!(gossip(&mut cluster, msg).unwrap_err(), Error::MissingField);
}

#[test]
fn init_duplicate_id_is_rejected() {
    let mut cluster = cluster_of(&["n1"]);
    let msg = Message {
        src: "c0".to_string(),
        dest: "n1".to_string(),
        body: InitBody {
            base: base("init", Some(1)),
            node_id: Some("n1".to_string()),
            node_ids: Some(vec!["n1".to_string()]),
        },
    };
    assert_eq!(init(&mut cluster, msg).unwrap_err(), Error::ProtocolError);
}

#[test]
fn init_missing_fields_are_rejected() {
    let mut cluster = Cluster::new();
    let msg = Message {
        src: "c0".to_string(),
        dest: "n1".to_string(),
        body: InitBody { base: base("init", Some(1)), node_id: None, node_ids: None },
    };
    assert_eq!(init(&mut cluster, msg).unwrap_err(), Error::MissingField);
}

#[test]
fn insert_and_extend_grow_the_value_set() {
    let mut data = BroadcastData::new();
    data.insert(3);
    data.insert(3);
    data.insert(1);
    assert_eq!(data.clone_data(), vec![3, 1]);
    data.extend(&vec![1, 4, 3, 5]);
    assert_eq!(data.clone_data(), vec![3, 1, 4, 5]);
    assert_eq!(data.last_gossip_len, 0);
}
