use gossip_node::node::{ConfigError, Node, TopologyPolicy};
use rand::rngs::StdRng;
use rand::SeedableRng;

fn roster(ids: &[&str]) -> Vec<String> {
    ids.iter().map(|s| s.to_string()).collect()
}

fn sorted(mut v: Vec<String>) -> Vec<String> {
    v.sort();
    v
}

#[test]
fn full_mesh_takes_everyone_else() {
    let mut rng = StdRng::seed_from_u64(7);
    let node = Node::init(
        "n1".to_string(),
        roster(&["n1", "n2", "n3"]),
        &TopologyPolicy::FullMesh,
        &mut rng,
    )
    .unwrap();
    assert_eq!(node.get_id(), "n1");
    assert_eq!(sorted(node.get_neighbours()), roster(&["n2", "n3"]));
    assert_eq!(sorted(node.get_network()), roster(&["n2", "n3"]));
}

#[test]
fn init_rejects_an_unknown_self_id() {
    let mut rng = StdRng::seed_from_u64(7);
    let r = Node::init(
        "n9".to_string(),
        roster(&["n1", "n2"]),
        &TopologyPolicy::FullMesh,
        &mut rng,
    );
    assert_eq!(r.err(), Some(ConfigError::SelfNotInRoster));
}

#[test]
fn a_repeated_roster_id_yields_one_neighbour() {
    let mut rng = StdRng::seed_from_u64(7);
    let node = Node::init(
        "n1".to_string(),
        roster(&["n1", "n2", "n2", "n1"]),
        &TopologyPolicy::FullMesh,
        &mut rng,
    )
    .unwrap();
    assert_eq!(node.get_neighbours(), roster(&["n2"]));
}

#[test]
fn a_single_node_cluster_has_no_neighbours() {
    let mut rng = StdRng::seed_from_u64(7);
    let node = Node::init(
        "n1".to_string(),
        roster(&["n1"]),
        &TopologyPolicy::FullMesh,
        &mut rng,
    )
    .unwrap();
    assert!(node.get_neighbours().is_empty());
}

#[test]
fn random_subset_has_the_requested_size() {
    let mut rng = StdRng::seed_from_u64(42);
    let node = Node::init(
        "n1".to_string(),
        roster(&["n1", "n2", "n3", "n4", "n5"]),
        &TopologyPolicy::RandomSubset { size: 2 },
        &mut rng,
    )
    .unwrap();
    let nbrs = node.get_neighbours();
    assert_eq!(nbrs.len(), 2);
    assert!(!nbrs.contains(&"n1".to_string()));
    assert_ne!(nbrs[0], nbrs[1]);
    for n in &nbrs {
        assert!(["n2", "n3", "n4", "n5"].contains(&n.as_str()));
    }
}

#[test]
fn random_subset_is_capped_by_the_roster() {
    let mut rng = StdRng::seed_from_u64(42);
    let node = Node::init(
        "n1".to_string(),
        roster(&["n1", "n2"]),
        &TopologyPolicy::RandomSubset { size: 10 },
        &mut rng,
    )
    .unwrap();
    assert_eq!(node.get_neighbours(), roster(&["n2"]));
}

#[test]
fn ring_links_are_the_roster_neighbours() {
    let mut rng = StdRng::seed_from_u64(42);
    let node = Node::init(
        "n1".to_string(),
        roster(&["n1", "n2", "n3", "n4", "n5"]),
        &TopologyPolicy::RingPlusRandom { extra: 0 },
        &mut rng,
    )
    .unwrap();
    // In roster order the ring closes n5 -> n1 -> n2.
    assert_eq!(sorted(node.get_neighbours()), roster(&["n2", "n5"]));
}

#[test]
fn ring_plus_random_adds_exactly_extra() {
    let mut rng = StdRng::seed_from_u64(42);
    let node = Node::init(
        "n3".to_string(),
        roster(&["n1", "n2", "n3", "n4", "n5", "n6"]),
        &TopologyPolicy::RingPlusRandom { extra: 1 },
        &mut rng,
    )
    .unwrap();
    let nbrs = node.get_neighbours();
    assert!(nbrs.contains(&"n2".to_string()));
    assert!(nbrs.contains(&"n4".to_string()));
    // Two ring links plus exactly the one requested extra.
    assert_eq!(nbrs.len(), 3);
    assert!(!nbrs.contains(&"n3".to_string()));
    let mut unique = nbrs.clone();
    unique.sort();
    unique.dedup();
    assert_eq!(unique.len(), nbrs.len());
}

#[test]
fn ring_of_two_names_the_other_node_once() {
    let mut rng = StdRng::seed_from_u64(42);
    let node = Node::init(
        "n2".to_string(),
        roster(&["n1", "n2"]),
        &TopologyPolicy::RingPlusRandom { extra: 3 },
        &mut rng,
    )
    .unwrap();
    assert_eq!(node.get_neighbours(), roster(&["n1"]));
}
