use gossip_engine::cluster::Cluster;
use gossip_engine::echo::{echo, EchoBody};
use gossip_engine::errors::Error;
use gossip_engine::generate::{generate_unique_id, GenerateBody};
use gossip_engine::init::{init, InitBody};
use gossip_engine::message::{BodyBase, Message};

fn base(typ: &str, msg_id: Option<u64>) -> BodyBase {
    BodyBase { typ: typ.to_string(), msg_id, in_reply_to: None }
}

fn one_node_cluster() -> Cluster {
    let mut cluster = Cluster::new();
    let msg = Message {
        src: "c0".to_string(),
        dest: "n1".to_string(),
        body: InitBody {
            base: base("init", Some(1)),
            node_id: Some("n1".to_string()),
            node_ids: Some(vec!["n1".to_string(), "n2".to_string()]),
        },
    };
    init(&mut cluster, msg).expect("init should succeed");
    cluster
}

#[test]
fn init_registers_a_fresh_node() {
    let cluster = one_node_cluster();
    let idx = cluster.find_node(&"n1".to_string()).expect("n1 registered");
    let node = &cluster.nodes[idx];
    assert_eq!(node.id, "n1");
    assert_eq!(node.peers, vec!["n1".to_string(), "n2".to_string()]);
    assert_eq!(node.next_msg_id, 0);
    assert!(node.broadcast_data.is_none());
    assert!(!node.gossip_task_started);
    assert!(node.gcounter_data.node_data.is_empty());
    assert!(!node.gcounter_data.gossip_task_started);
}

#[test]
fn echo_replies_with_the_same_payload() {
    let mut cluster = one_node_cluster();
    let msg = Message {
        src: "c1".to_string(),
        dest: "n1".to_string(),
        body: EchoBody { base: base("echo", Some(3)), echo: Some("hello there".to_string()) },
    };
    let reply = echo(&mut cluster, msg).expect("echo should succeed");
    assert_eq!(reply.src, "n1");
    assert_eq!(reply.dest, "c1");
    assert_eq!(reply.body.base.typ, "echo_ok");
    assert_eq!(reply.body.base.msg_id, Some(0));
    assert_eq!(reply.body.base.in_reply_to, Some(3));
    assert_eq!(reply.body.echo, Some("hello there".to_string()));
}

#[test]
fn echo_unknown_node_is_an_error() {
    let mut cluster = one_node_cluster();
    let msg = Message {
        src: "c1".to_string(),
        dest: "n8".to_string(),
        body: EchoBody { base: base("echo", Some(3)), echo: Some("x".to_string()) },
    };
    assert_eq!(echo(&mut cluster, msg).unwrap_err(), Error::UnknownNode);
}

#[test]
fn generate_returns_a_fresh_unique_id() {
    let mut cluster = one_node_cluster();
    let request = |msg_id| Message {
        src: "c1".to_string(),
        dest: "n1".to_string(),
        body: GenerateBody { base: base("generate", Some(msg_id)), id: None },
    };
    let first = generate_unique_id(&mut cluster, request(1)).expect("generate");
    let second = generate_unique_id(&mut cluster, request(2)).expect("generate");
    assert_eq!(first.body.base.typ, "generate_ok");
    let a = first.body.id.expect("generate_ok carries an id");
    let b = second.body.id.expect("generate_ok carries an id");
    assert_eq!(a.len(), 36);
    assert_eq!(b.len(), 36);
    assert_ne!(a, b);
}

#[test]
fn message_id_counter_is_strictly_increasing() {
    let mut cluster = one_node_cluster();
    let request = |msg_id| Message {
        src: "c1".to_string(),
        dest: "n1".to_string(),
        body: EchoBody { base: base("echo", Some(msg_id)), echo: Some("x".to_string()) },
    };
    let mut last: Option<u64> = None;
    for k in 0..5u64 {
        let reply = echo(&mut cluster, request(k)).expect("echo should succeed");
        let id = reply.body.base.msg_id.expect("echo_ok carries a msg id");
        if let Some(prev) = last {
            assert!(id > prev);
        }
        last = Some(id);
    }
}

#[test]
fn headroom_check_accepts_a_fresh_node() {
    let cluster = one_node_cluster();
    assert!(cluster.check_id_headroom(&"n1".to_string(), 2));
    // An unknown id has nothing to exhaust.
    assert!(cluster.check_id_headroom(&"n9".to_string(), 2));
}
