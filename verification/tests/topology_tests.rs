use gossip_engine::broadcast::{topology, TopologyBody};
use gossip_engine::cluster::Cluster;
use gossip_engine::errors::Error;
use gossip_engine::init::{init, InitBody};
use gossip_engine::message::{BodyBase, Message};
use gossip_engine::topology::{build_optimized_topology, is_within_two_hops};

fn base(typ: &str, msg_id: Option<u64>) -> BodyBase {
    BodyBase { typ: typ.to_string(), msg_id, in_reply_to: None }
}

fn init_node(cluster: &mut Cluster, id: &str, peers: &[&str]) {
    let msg = Message {
        src: "c0".to_string(),
        dest: id.to_string(),
        body: InitBody {
            base: base("init", Some(1)),
            node_id: Some(id.to_string()),
            node_ids: Some(peers.iter().map(|s| s.to_string()).collect()),
        },
    };
    init(cluster, msg).expect("init should succeed");
}

fn peers_of(cluster: &Cluster, id: &str) -> Vec<String> {
    let idx = cluster.find_node(&id.to_string()).expect("node exists");
    cluster.nodes[idx].peers.clone()
}

#[test]
fn single_node_graph_is_trivial() {
    let g = build_optimized_topology(1);
    assert_eq!(g.len(), 1);
    assert!(g[0].is_empty());
    assert!(is_within_two_hops(&g, 0, 0));
}

#[test]
fn two_node_graph_is_one_edge() {
    let g = build_optimized_topology(2);
    assert_eq!(g.len(), 2);
    assert_eq!(g[0], vec![1]);
    assert_eq!(g[1], vec![0]);
}

#[test]
fn built_graph_is_symmetric_and_diameter_two() {
    for n in 1..9usize {
        let g = build_optimized_topology(n);
        assert_eq!(g.len(), n);
        for a in 0..n {
            for b in 0..n {
                assert!(
                    is_within_two_hops(&g, a, b),
                    "pair ({a}, {b}) of {n} nodes out of range"
                );
                assert_eq!(g[a].contains(&b), g[b].contains(&a));
            }
            assert!(!g[a].contains(&a));
        }
    }
}

#[test]
fn five_node_graph_keeps_chain_and_adds_shortcuts() {
    let g = build_optimized_topology(5);
    // The chain comes first in every adjacency list.
    for i in 0..4usize {
        assert!(g[i].contains(&(i + 1)));
        assert!(g[i + 1].contains(&i));
    }
    // 0 and 4 are three chain hops apart, so the second pass must have
    // bridged them somehow.
    let direct = g[0].contains(&4);
    let hop = g[0].iter().any(|k| g[*k].contains(&4));
    assert!(direct || hop);
}

#[test]
fn topology_request_rewires_all_registered_peers() {
    let mut cluster = Cluster::new();
    let all = ["n1", "n2", "n3"];
    for id in all {
        init_node(&mut cluster, id, &all);
    }
    let msg = Message {
        src: "c1".to_string(),
        dest: "n2".to_string(),
        body: TopologyBody { base: base("topology", Some(5)), topology: None },
    };
    let reply = topology(&mut cluster, msg).expect("topology should succeed");
    assert_eq!(reply.src, "n2");
    assert_eq!(reply.dest, "c1");
    assert_eq!(reply.body.base.typ, "topology_ok");
    assert_eq!(reply.body.base.msg_id, None);
    assert_eq!(reply.body.base.in_reply_to, Some(5));
    // Three nodes: the chain alone already has diameter two, so no
    // shortcut is added.
    assert_eq!(peers_of(&cluster, "n1"), vec!["n2".to_string()]);
    assert_eq!(peers_of(&cluster, "n2"), vec!["n1".to_string(), "n3".to_string()]);
    assert_eq!(peers_of(&cluster, "n3"), vec!["n2".to_string()]);
}

#[test]
fn topology_is_built_only_once() {
    let mut cluster = Cluster::new();
    let all = ["n1", "n2", "n3"];
    for id in all {
        init_node(&mut cluster, id, &all);
    }
    let request = |msg_id| Message {
        src: "c1".to_string(),
        dest: "n1".to_string(),
        body: TopologyBody { base: base("topology", Some(msg_id)), topology: None },
    };
    topology(&mut cluster, request(1)).expect("first topology request");
    let rewired = peers_of(&cluster, "n1");
    // A second request succeeds but leaves the overlay as it is: n1 keeps
    // its rewired peers instead of being rebuilt from them.
    let reply = topology(&mut cluster, request(2)).expect("second topology request");
    assert_eq!(reply.body.base.typ, "topology_ok");
    assert_eq!(peers_of(&cluster, "n1"), rewired);
    assert_eq!(peers_of(&cluster, "n2"), vec!["n1".to_string(), "n3".to_string()]);
}

#[test]
fn topology_unknown_node_is_an_error() {
    let mut cluster = Cluster::new();
    init_node(&mut cluster, "n1", &["n1"]);
    let msg = Message {
        src: "c1".to_string(),
        dest: "n7".to_string(),
        body: TopologyBody { base: base("topology", Some(1)), topology: None },
    };
    assert_eq!(topology(&mut cluster, msg).unwrap_err(), Error::UnknownNode);
}

#[test]
fn topology_duplicate_peer_list_is_rejected() {
    let mut cluster = Cluster::new();
    init_node(&mut cluster, "n1", &["n1", "n2", "n1"]);
    let msg = Message {
        src: "c1".to_string(),
        dest: "n1".to_string(),
        body: TopologyBody { base: base("topology", Some(1)), topology: None },
    };
    assert_eq!(topology(&mut cluster, msg).unwrap_err(), Error::ProtocolError);
}

#[test]
fn topology_skips_unregistered_ids() {
    // Only n1 is registered locally; the listed peers n2 and n3 are not.
    let mut cluster = Cluster::new();
    init_node(&mut cluster, "n1", &["n1", "n2", "n3"]);
    let msg = Message {
        src: "c1".to_string(),
        dest: "n1".to_string(),
        body: TopologyBody { base: base("topology", Some(1)), topology: None },
    };
    topology(&mut cluster, msg).expect("topology should succeed");
    // n1 sits first in the chain, so its adjacency is just n2.
    assert_eq!(peers_of(&cluster, "n1"), vec!["n2".to_string()]);
}
