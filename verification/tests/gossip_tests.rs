use gossip_node::gossip::{gossip_messages, GossipConfig, GOSSIP_DELAY};
use gossip_node::message::Body;
use gossip_node::node::{Node, TopologyPolicy};
use gossip_node::storage::Storage;
use rand::rngs::StdRng;
use rand::SeedableRng;

fn config(min: usize, max: usize, backoff: u8) -> GossipConfig {
    GossipConfig { min_fanout: min, max_fanout: max, backoff_ticks: backoff }
}

fn two_node_pair(rng: &mut StdRng) -> Node {
    Node::init(
        "n1".to_string(),
        vec!["n1".to_string(), "n2".to_string()],
        &TopologyPolicy::FullMesh,
        rng,
    )
    .unwrap()
}

fn sorted(mut v: Vec<u64>) -> Vec<u64> {
    v.sort();
    v
}

#[test]
fn default_config_disables_the_throttle() {
    let cfg = GossipConfig::default();
    assert_eq!(cfg.min_fanout, 1);
    assert_eq!(cfg.max_fanout, 25);
    assert_eq!(cfg.backoff_ticks, 0);
    assert_eq!(GOSSIP_DELAY, 500);
}

#[test]
fn a_tick_sends_exactly_the_outstanding_values() {
    let mut rng = StdRng::seed_from_u64(5);
    let node = two_node_pair(&mut rng);
    let mut st = Storage::new();
    st.add_message(5);
    st.add_message(6);
    let cfg = config(1, 1, 0);
    let sends = gossip_messages(&node, &mut st, &cfg, &mut rng);
    assert_eq!(sends.len(), 1);
    assert_eq!(sends[0].src, "n1");
    assert_eq!(sends[0].dest, "n2");
    match &sends[0].body {
        Body::Gossip { messages } => assert_eq!(sorted(messages.clone()), vec![5, 6]),
        _ => panic!("a tick sends gossip bodies only"),
    }
    // The values are marked sent: nothing is outstanding afterwards.
    assert!(st.get_new_messages_for_neighbour("n2".to_string()).is_empty());
}

#[test]
fn nothing_outstanding_means_no_send() {
    let mut rng = StdRng::seed_from_u64(5);
    let node = two_node_pair(&mut rng);
    let mut st = Storage::new();
    let cfg = config(1, 1, 0);
    let sends = gossip_messages(&node, &mut st, &cfg, &mut rng);
    assert!(sends.is_empty());
    // The idle counter of the sampled neighbour was raised instead.
    assert_eq!(st.get_retries("n2".to_string()), 1);
}

#[test]
fn no_redundant_resend_on_the_next_tick() {
    let mut rng = StdRng::seed_from_u64(5);
    let node = two_node_pair(&mut rng);
    let mut st = Storage::new();
    st.add_message(5);
    let cfg = config(1, 1, 0);
    let first = gossip_messages(&node, &mut st, &cfg, &mut rng);
    assert_eq!(first.len(), 1);
    let second = gossip_messages(&node, &mut st, &cfg, &mut rng);
    assert!(second.is_empty());
    // A new value starts a new round with only that value.
    st.add_message(9);
    let third = gossip_messages(&node, &mut st, &cfg, &mut rng);
    assert_eq!(third.len(), 1);
    match &third[0].body {
        Body::Gossip { messages } => assert_eq!(messages, &vec![9]),
        _ => panic!("a tick sends gossip bodies only"),
    }
}

#[test]
fn the_backoff_batches_sends() {
    let mut rng = StdRng::seed_from_u64(5);
    let node = two_node_pair(&mut rng);
    let mut st = Storage::new();
    st.add_message(5);
    let cfg = config(1, 1, 2);
    // Two ticks pass under the bound, only raising the idle counter.
    assert!(gossip_messages(&node, &mut st, &cfg, &mut rng).is_empty());
    assert_eq!(st.get_retries("n2".to_string()), 1);
    assert!(gossip_messages(&node, &mut st, &cfg, &mut rng).is_empty());
    assert_eq!(st.get_retries("n2".to_string()), 2);
    // The third tick sends and steps the counter down.
    let sends = gossip_messages(&node, &mut st, &cfg, &mut rng);
    assert_eq!(sends.len(), 1);
    assert_eq!(st.get_retries("n2".to_string()), 1);
    // Throttled ticks never lost the value: it went out in full.
    match &sends[0].body {
        Body::Gossip { messages } => assert_eq!(messages, &vec![5]),
        _ => panic!("a tick sends gossip bodies only"),
    }
}

#[test]
fn fanout_is_bounded_and_destinations_are_distinct() {
    let mut rng = StdRng::seed_from_u64(5);
    let node = Node::init(
        "n1".to_string(),
        vec!["n1".to_string(), "n2".to_string(), "n3".to_string(), "n4".to_string()],
        &TopologyPolicy::FullMesh,
        &mut rng,
    )
    .unwrap();
    let mut st = Storage::new();
    st.add_message(5);
    let cfg = config(2, 2, 0);
    let sends = gossip_messages(&node, &mut st, &cfg, &mut rng);
    assert_eq!(sends.len(), 2);
    assert_ne!(sends[0].dest, sends[1].dest);
    for send in &sends {
        assert!(["n2", "n3", "n4"].contains(&send.dest.as_str()));
    }
}

#[test]
fn a_node_without_neighbours_never_sends() {
    let mut rng = StdRng::seed_from_u64(5);
    let node = Node::init(
        "n1".to_string(),
        vec!["n1".to_string()],
        &TopologyPolicy::FullMesh,
        &mut rng,
    )
    .unwrap();
    let mut st = Storage::new();
    st.add_message(5);
    let cfg = config(1, 25, 0);
    let sends = gossip_messages(&node, &mut st, &cfg, &mut rng);
    assert!(sends.is_empty());
}
