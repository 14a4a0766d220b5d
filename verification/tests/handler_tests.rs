use gossip_node::gossip::GossipConfig;
use gossip_node::handler::{NodeState, CONFIG_ERROR_CODE};
use gossip_node::message::{Body, Message};
use gossip_node::node::TopologyPolicy;
use rand::rngs::StdRng;
use rand::SeedableRng;

fn config(min: usize, max: usize, backoff: u8) -> GossipConfig {
    GossipConfig { min_fanout: min, max_fanout: max, backoff_ticks: backoff }
}

fn msg(src: &str, dest: &str, body: Body) -> Message {
    Message { src: src.to_string(), dest: dest.to_string(), body }
}

fn init_body(msg_id: u64, node_id: &str, node_ids: &[&str]) -> Body {
    Body::Init {
        msg_id,
        node_id: node_id.to_string(),
        node_ids: node_ids.iter().map(|s| s.to_string()).collect(),
    }
}

fn fresh_node(id: &str, all: &[&str], cfg: GossipConfig, rng: &mut StdRng) -> NodeState {
    let mut st = NodeState::new(TopologyPolicy::FullMesh, cfg);
    let replies = st.handle_message(msg("c0", id, init_body(1, id, all)), rng);
    assert_eq!(replies.len(), 1);
    assert!(matches!(replies[0].body, Body::InitOk { in_reply_to: 1 }));
    st
}

fn sorted(mut v: Vec<u64>) -> Vec<u64> {
    v.sort();
    v
}

fn read_values(st: &mut NodeState, rng: &mut StdRng) -> Vec<u64> {
    let replies = st.handle_message(msg("c0", "x", Body::Read { msg_id: 99 }), rng);
    assert_eq!(replies.len(), 1);
    match &replies[0].body {
        Body::ReadOk { msg_id: 99, in_reply_to: 99, messages } => sorted(messages.clone()),
        other => panic!("expected read_ok, got {:?}", body_tag(other)),
    }
}

fn body_tag(b: &Body) -> &'static str {
    match b {
        Body::Error { .. } => "error",
        Body::Init { .. } => "init",
        Body::InitOk { .. } => "init_ok",
        Body::Broadcast { .. } => "broadcast",
        Body::BroadcastOk { .. } => "broadcast_ok",
        Body::Read { .. } => "read",
        Body::ReadOk { .. } => "read_ok",
        Body::Topology { .. } => "topology",
        Body::TopologyOk { .. } => "topology_ok",
        Body::Gossip { .. } => "gossip",
        Body::GossipOk { .. } => "gossip_ok",
    }
}

#[test]
fn init_replies_init_ok_and_fixes_identity() {
    let mut rng = StdRng::seed_from_u64(3);
    let mut st = NodeState::new(TopologyPolicy::FullMesh, config(1, 25, 0));
    let replies = st.handle_message(msg("c1", "n1", init_body(1, "n1", &["n1", "n2"])), &mut rng);
    assert_eq!(replies.len(), 1);
    assert_eq!(replies[0].src, "n1");
    assert_eq!(replies[0].dest, "c1");
    assert!(matches!(replies[0].body, Body::InitOk { in_reply_to: 1 }));
    // A second init is ignored: topology is fixed at startup.
    let again = st.handle_message(msg("c1", "n1", init_body(2, "n9", &["n9"])), &mut rng);
    assert!(again.is_empty());
    assert_eq!(st.node.as_ref().unwrap().get_id(), "n1");
}

#[test]
fn init_with_a_foreign_id_reports_a_config_error() {
    let mut rng = StdRng::seed_from_u64(3);
    let mut st = NodeState::new(TopologyPolicy::FullMesh, config(1, 25, 0));
    let replies = st.handle_message(msg("c1", "n9", init_body(1, "n9", &["n1", "n2"])), &mut rng);
    assert_eq!(replies.len(), 1);
    match &replies[0].body {
        Body::Error { in_reply_to, code, .. } => {
            assert_eq!(*in_reply_to, 1);
            assert_eq!(*code, CONFIG_ERROR_CODE);
        },
        other => panic!("expected error, got {:?}", body_tag(other)),
    }
    // The node stays uninitialized and keeps ignoring requests.
    let ignored = st.handle_message(
        msg("c1", "n9", Body::Broadcast { msg_id: 2, message: 5 }),
        &mut rng,
    );
    assert!(ignored.is_empty());
}

#[test]
fn requests_before_init_are_ignored() {
    let mut rng = StdRng::seed_from_u64(3);
    let mut st = NodeState::new(TopologyPolicy::FullMesh, config(1, 25, 0));
    assert!(st
        .handle_message(msg("c1", "n1", Body::Broadcast { msg_id: 1, message: 5 }), &mut rng)
        .is_empty());
    assert!(st.handle_message(msg("c1", "n1", Body::Read { msg_id: 2 }), &mut rng).is_empty());
    assert!(st
        .handle_message(msg("n2", "n1", Body::Gossip { messages: vec![7] }), &mut rng)
        .is_empty());
}

#[test]
fn broadcast_replies_broadcast_ok_and_stores_the_value() {
    let mut rng = StdRng::seed_from_u64(3);
    let mut st = fresh_node("n1", &["n1", "n2"], config(1, 25, 0), &mut rng);
    let replies = st.handle_message(
        msg("c1", "n1", Body::Broadcast { msg_id: 7, message: 5 }),
        &mut rng,
    );
    assert_eq!(replies.len(), 1);
    assert_eq!(replies[0].src, "n1");
    assert_eq!(replies[0].dest, "c1");
    assert!(matches!(replies[0].body, Body::BroadcastOk { msg_id: 7, in_reply_to: 7 }));
    assert_eq!(read_values(&mut st, &mut rng), vec![5]);
}

#[test]
fn broadcasting_twice_stores_the_value_once() {
    // A client sends broadcast{message:5} twice: read returns [5] once.
    let mut rng = StdRng::seed_from_u64(3);
    let mut st = fresh_node("n1", &["n1", "n2"], config(1, 25, 0), &mut rng);
    st.handle_message(msg("c1", "n1", Body::Broadcast { msg_id: 1, message: 5 }), &mut rng);
    st.handle_message(msg("c1", "n1", Body::Broadcast { msg_id: 2, message: 5 }), &mut rng);
    assert_eq!(read_values(&mut st, &mut rng), vec![5]);
}

#[test]
fn gossip_is_merged_and_acknowledged() {
    let mut rng = StdRng::seed_from_u64(3);
    let mut st = fresh_node("n2", &["n1", "n2"], config(1, 25, 0), &mut rng);
    let replies = st.handle_message(
        msg("n1", "n2", Body::Gossip { messages: vec![7, 8] }),
        &mut rng,
    );
    assert_eq!(replies.len(), 1);
    assert_eq!(replies[0].src, "n2");
    assert_eq!(replies[0].dest, "n1");
    match &replies[0].body {
        Body::GossipOk { messages } => assert_eq!(messages, &vec![7, 8]),
        other => panic!("expected gossip_ok, got {:?}", body_tag(other)),
    }
    assert_eq!(read_values(&mut st, &mut rng), vec![7, 8]);
}

#[test]
fn an_acknowledgment_settles_the_ledger() {
    // n1 holds 7 and 8 and learns only from the acknowledgment that n2
    // has them: they stop being outstanding for n2.
    let mut rng = StdRng::seed_from_u64(3);
    let mut st = fresh_node("n1", &["n1", "n2"], config(1, 25, 0), &mut rng);
    st.handle_message(msg("c1", "n1", Body::Broadcast { msg_id: 1, message: 7 }), &mut rng);
    st.handle_message(msg("c1", "n1", Body::Broadcast { msg_id: 2, message: 8 }), &mut rng);
    assert_eq!(sorted(st.storage.get_new_messages_for_neighbour("n2".to_string())), vec![7, 8]);
    let none = st.handle_message(
        msg("n2", "n1", Body::GossipOk { messages: vec![7, 8] }),
        &mut rng,
    );
    assert!(none.is_empty());
    assert!(st.storage.get_new_messages_for_neighbour("n2".to_string()).is_empty());
    // The values themselves are still held.
    assert_eq!(read_values(&mut st, &mut rng), vec![7, 8]);
}

#[test]
fn topology_is_acknowledged_and_ignored() {
    let mut rng = StdRng::seed_from_u64(3);
    let mut st = fresh_node("n1", &["n1", "n2"], config(1, 25, 0), &mut rng);
    let before = st.node.as_ref().unwrap().get_neighbours();
    let replies = st.handle_message(
        msg("c1", "n1", Body::Topology { msg_id: 4, topology: vec![("n1".to_string(), vec![])] }),
        &mut rng,
    );
    assert_eq!(replies.len(), 1);
    assert!(matches!(replies[0].body, Body::TopologyOk { msg_id: 4, in_reply_to: 4 }));
    assert_eq!(st.node.as_ref().unwrap().get_neighbours(), before);
}

#[test]
fn a_peer_error_is_not_answered() {
    let mut rng = StdRng::seed_from_u64(3);
    let mut st = fresh_node("n1", &["n1", "n2"], config(1, 25, 0), &mut rng);
    let replies = st.handle_message(
        msg("n2", "n1", Body::Error { in_reply_to: 1, code: 13, text: "busy".to_string() }),
        &mut rng,
    );
    assert!(replies.is_empty());
}

#[test]
fn three_meshed_nodes_converge_after_one_tick() {
    // Three fully meshed nodes; a client broadcast to n1 reaches n2 and
    // n3 after one gossip tick from n1.
    let mut rng = StdRng::seed_from_u64(11);
    let all = ["n1", "n2", "n3"];
    let cfg = config(2, 2, 0);
    let mut n1 = fresh_node("n1", &all, cfg, &mut rng);
    let cfg = config(2, 2, 0);
    let mut n2 = fresh_node("n2", &all, cfg, &mut rng);
    let cfg = config(2, 2, 0);
    let mut n3 = fresh_node("n3", &all, cfg, &mut rng);

    let ok = n1.handle_message(
        msg("c1", "n1", Body::Broadcast { msg_id: 1, message: 5 }),
        &mut rng,
    );
    assert!(matches!(ok[0].body, Body::BroadcastOk { .. }));

    // One tick with fan-out two covers both neighbours.
    let sends = n1.gossip_tick(&mut rng);
    assert_eq!(sends.len(), 2);
    let mut acks = Vec::new();
    for send in sends {
        assert_eq!(send.src, "n1");
        let replies = match send.dest.as_str() {
            "n2" => n2.handle_message(send, &mut rng),
            "n3" => n3.handle_message(send, &mut rng),
            other => panic!("gossip to a stranger: {}", other),
        };
        acks.extend(replies);
    }
    assert_eq!(read_values(&mut n2, &mut rng), vec![5]);
    assert_eq!(read_values(&mut n3, &mut rng), vec![5]);
    // Delivering the acknowledgments back leaves nothing outstanding.
    for ack in acks {
        n1.handle_message(ack, &mut rng);
    }
    assert!(n1.storage.get_new_messages_for_neighbour("n2".to_string()).is_empty());
    assert!(n1.storage.get_new_messages_for_neighbour("n3".to_string()).is_empty());
}

#[test]
fn a_malformed_line_is_skipped_and_reads_still_answer() {
    // The reading duty drops lines that do not parse; the node keeps
    // answering afterwards.
    let mut rng = StdRng::seed_from_u64(3);
    let mut st = fresh_node("n1", &["n1", "n2"], config(1, 25, 0), &mut rng);
    st.handle_message(msg("c1", "n1", Body::Broadcast { msg_id: 1, message: 5 }), &mut rng);

    let lines = ["{not json", "{\"valid\":\"read\"}"];
    let mut skipped = 0;
    let mut parsed = 0;
    for line in lines {
        match serde_json::from_str::<serde_json::Value>(line) {
            Ok(_) => parsed += 1,
            Err(_) => skipped += 1,
        }
    }
    assert_eq!(skipped, 1);
    assert_eq!(parsed, 1);
    assert_eq!(read_values(&mut st, &mut rng), vec![5]);
}

#[test]
fn a_tick_before_init_does_nothing() {
    let mut rng = StdRng::seed_from_u64(3);
    let mut st = NodeState::new(TopologyPolicy::FullMesh, config(1, 25, 0));
    assert!(st.gossip_tick(&mut rng).is_empty());
}

#[test]
fn stray_replies_are_ignored() {
    let mut rng = StdRng::seed_from_u64(3);
    let mut st = fresh_node("n1", &["n1", "n2"], config(1, 25, 0), &mut rng);
    assert!(st.handle_message(msg("n2", "n1", Body::InitOk { in_reply_to: 1 }), &mut rng).is_empty());
    assert!(st
        .handle_message(msg("n2", "n1", Body::BroadcastOk { msg_id: 1, in_reply_to: 1 }), &mut rng)
        .is_empty());
    assert!(st
        .handle_message(
            msg("n2", "n1", Body::ReadOk { msg_id: 1, in_reply_to: 1, messages: vec![9] }),
            &mut rng,
        )
        .is_empty());
    // The stray read_ok did not smuggle a value into the store.
    assert!(read_values(&mut st, &mut rng).is_empty());
}
