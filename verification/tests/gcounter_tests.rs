use gossip_engine::cluster::Cluster;
use gossip_engine::errors::Error;
use gossip_engine::gcounter::{add, gossip, gossip_tick, read, AddBody, GossipBody, ReadBody};
use gossip_engine::init::{init, InitBody};
use gossip_engine::message::{BodyBase, Message};

fn base(typ: &str, msg_id: Option<u64>) -> BodyBase {
    BodyBase { typ: typ.to_string(), msg_id, in_reply_to: None }
}

fn counter_cluster(ids: &[&str]) -> Cluster {
    let mut cluster = Cluster::new();
    let all: Vec<String> = ids.iter().map(|s| s.to_string()).collect();
    for id in ids {
        let msg = Message {
            src: "c0".to_string(),
            dest: id.to_string(),
            body: InitBody {
                base: base("init", Some(1)),
                node_id: Some(id.to_string()),
                node_ids: Some(all.clone()),
            },
        };
        init(&mut cluster, msg).expect("init should succeed");
    }
    cluster
}

fn add_delta(cluster: &mut Cluster, node: &str, delta: u64) {
    let msg = Message {
        src: "c1".to_string(),
        dest: node.to_string(),
        body: AddBody { base: base("add", Some(1)), delta: Some(delta) },
    };
    let eff = add(cluster, msg).expect("add should succeed");
    assert_eq!(eff.reply.body.base.typ, "add_ok");
}

fn read_total(cluster: &mut Cluster, node: &str) -> u64 {
    let msg = Message {
        src: "c1".to_string(),
        dest: node.to_string(),
        body: ReadBody { base: base("read", Some(2)), value: None },
    };
    let reply = read(cluster, msg).expect("read should succeed");
    assert_eq!(reply.body.base.typ, "read_ok");
    reply.body.value.expect("read_ok carries a value")
}

#[test]
fn add_accumulates_in_own_entry() {
    let mut cluster = counter_cluster(&["n1", "n2"]);
    add_delta(&mut cluster, "n1", 5);
    add_delta(&mut cluster, "n1", 7);
    assert_eq!(read_total(&mut cluster, "n1"), 12);
    // The other node has seen nothing yet.
    assert_eq!(read_total(&mut cluster, "n2"), 0);
}

#[test]
fn scenario_two_adds_one_gossip_round_each_way() {
    // add(5) at n1 and add(3) at n2, one gossip exchange in each direction,
    // then read() == 8 at both nodes.
    let mut cluster = counter_cluster(&["n1", "n2"]);
    add_delta(&mut cluster, "n1", 5);
    add_delta(&mut cluster, "n2", 3);
    let n1 = "n1".to_string();
    let n2 = "n2".to_string();
    let from_n1 = gossip_tick(&mut cluster, &n1).expect("n1 tick");
    let from_n2 = gossip_tick(&mut cluster, &n2).expect("n2 tick");
    for m in from_n1.into_iter().chain(from_n2.into_iter()) {
        assert_eq!(m.body.base.typ, "gossip");
        gossip(&mut cluster, m).expect("counter gossip should succeed");
    }
    assert_eq!(read_total(&mut cluster, "n1"), 8);
    assert_eq!(read_total(&mut cluster, "n2"), 8);
}

#[test]
fn gossip_overwrites_senders_entry() {
    let mut cluster = counter_cluster(&["n1", "n2"]);
    let deliver = |cluster: &mut Cluster, value: u64| {
        let msg = Message {
            src: "n2".to_string(),
            dest: "n1".to_string(),
            body: GossipBody { base: base("gossip", Some(1)), value: Some(value) },
        };
        gossip(cluster, msg).expect("counter gossip should succeed");
    };
    deliver(&mut cluster, 4);
    assert_eq!(read_total(&mut cluster, "n1"), 4);
    // The owner's value only grows, so a later (larger) copy wins...
    deliver(&mut cluster, 9);
    assert_eq!(read_total(&mut cluster, "n1"), 9);
    // ...and a re-delivered duplicate changes nothing.
    deliver(&mut cluster, 9);
    assert_eq!(read_total(&mut cluster, "n1"), 9);
}

#[test]
fn read_never_decreases_under_adds_and_gossip() {
    let mut cluster = counter_cluster(&["n1", "n2", "n3"]);
    let mut last = read_total(&mut cluster, "n1");
    add_delta(&mut cluster, "n1", 2);
    let after_add = read_total(&mut cluster, "n1");
    assert!(after_add >= last);
    last = after_add;
    for value in [1u64, 3, 3, 7] {
        let msg = Message {
            src: "n2".to_string(),
            dest: "n1".to_string(),
            body: GossipBody { base: base("gossip", Some(1)), value: Some(value) },
        };
        gossip(&mut cluster, msg).expect("counter gossip should succeed");
        let now = read_total(&mut cluster, "n1");
        assert!(now >= last);
        last = now;
    }
    assert_eq!(last, 9);
}

#[test]
fn counter_tick_sends_own_value_to_each_peer() {
    let mut cluster = counter_cluster(&["n1", "n2", "n3"]);
    add_delta(&mut cluster, "n1", 6);
    let n1 = "n1".to_string();
    let msgs = gossip_tick(&mut cluster, &n1).expect("tick at a known node");
    assert_eq!(msgs.len(), 2);
    let dests: Vec<&str> = msgs.iter().map(|m| m.dest.as_str()).collect();
    assert_eq!(dests, vec!["n2", "n3"]);
    for m in &msgs {
        assert_eq!(m.src, "n1");
        assert_eq!(m.body.value, Some(6));
        assert_eq!(m.body.base.in_reply_to, None);
    }
}

#[test]
fn counter_tick_unknown_node_is_skipped() {
    let mut cluster = counter_cluster(&["n1"]);
    let ghost_node = "n9".to_string();
    assert!(gossip_tick(&mut cluster, &ghost_node).is_none());
}

#[test]
fn add_missing_delta_is_an_error() {
    let mut cluster = counter_cluster(&["n1"]);
    let msg = Message {
        src: "c1".to_string(),
        dest: "n1".to_string(),
        body: AddBody { base: base("add", Some(1)), delta: None },
    };
    assert_eq!(add(&mut cluster, msg).unwrap_err(), Error::MissingField);
}

#[test]
fn counter_unknown_node_errors() {
    let mut cluster = counter_cluster(&["n1"]);
    let add_msg = Message {
        src: "c1".to_string(),
        dest: "nx".to_string(),
        body: AddBody { base: base("add", Some(1)), delta: Some(1) },
    };
    assert_eq!(add(&mut cluster, add_msg).unwrap_err(), Error::UnknownNode);
    let read_msg = Message {
        src: "c1".to_string(),
        dest: "nx".to_string(),
        body: ReadBody { base: base("read", Some(1)), value: None },
    };
    assert_eq!(read(&mut cluster, read_msg).unwrap_err(), Error::UnknownNode);
    let gossip_msg = Message {
        src: "n1".to_string(),
        dest: "nx".to_string(),
        body: GossipBody { base: base("gossip", Some(1)), value: Some(1) },
    };
    assert_eq!(gossip(&mut cluster, gossip_msg).unwrap_err(), Error::UnknownNode);
}

#[test]
fn add_saturates_at_the_machine_limit() {
    let mut cluster = counter_cluster(&["n1"]);
    add_delta(&mut cluster, "n1", u64::MAX - 1);
    add_delta(&mut cluster, "n1", 5);
    assert_eq!(read_total(&mut cluster, "n1"), u64::MAX);
}
