use kademlia_node::node_id::{bucket_index, compare_distance, leading_zeros_u8, meets_difficulty};
use kademlia_node::routing_table::{AddOutcome, NodeInfo, RoutingTable};

fn id_with(first: u8, second: u8) -> Vec<u8> {
    let mut v = vec![0u8; 32];
    v[0] = first;
    v[1] = second;
    v
}

fn peer(first: u8, second: u8, port: u16) -> NodeInfo {
    NodeInfo::new(id_with(first, second), format!("127.0.0.1:{}", port))
}

#[test]
fn leading_zeros_of_bytes() {
    assert_eq!(leading_zeros_u8(0x80), 0);
    assert_eq!(leading_zeros_u8(0x01), 7);
    assert_eq!(leading_zeros_u8(0x00), 8);
    assert_eq!(leading_zeros_u8(0x10), 3);
}

#[test]
fn bucket_index_is_first_differing_bit() {
    let own = vec![0u8; 32];
    assert_eq!(bucket_index(&id_with(0x80, 0), &own), 0);
    assert_eq!(bucket_index(&id_with(0x01, 0), &own), 7);
    assert_eq!(bucket_index(&id_with(0x00, 0x20), &own), 10);
    let mut last = vec![0u8; 32];
    last[31] = 1;
    assert_eq!(bucket_index(&last, &own), 255);
    assert_eq!(bucket_index(&own, &own), 256);
}

#[test]
fn difficulty_check_covers_more_than_sixteen_bits() {
    let mut id = vec![0u8; 32];
    id[3] = 0x0F;
    assert!(meets_difficulty(&id, 0));
    assert!(meets_difficulty(&id, 24));
    assert!(meets_difficulty(&id, 28));
    assert!(!meets_difficulty(&id, 29));
    assert!(!meets_difficulty(&id, 32));
    assert!(meets_difficulty(&vec![0u8; 32], 256));
    assert!(!meets_difficulty(&vec![0u8; 32], 257));
    let mut top = vec![0u8; 32];
    top[0] = 0x80;
    assert!(!meets_difficulty(&top, 1));
}

#[test]
fn distance_comparison() {
    let target = vec![0u8; 32];
    assert_eq!(compare_distance(&id_with(0, 1), &id_with(0, 2), &target), -1);
    assert_eq!(compare_distance(&id_with(1, 0), &id_with(0, 200), &target), 1);
    assert_eq!(compare_distance(&id_with(3, 3), &id_with(3, 3), &target), 0);
    // XOR with a non-zero target reverses the order here.
    let t = id_with(0, 2);
    assert_eq!(compare_distance(&id_with(0, 1), &id_with(0, 2), &t), 1);
}

#[test]
fn bucket_full_drops_new_peer() {
    let mut t = RoutingTable::new(vec![0u8; 32], 2);
    let first = peer(0x80, 0, 1);
    let second = peer(0x81, 0, 2);
    let third = peer(0x82, 0, 3);
    assert_eq!(t.add_node(first), AddOutcome::Inserted);
    assert_eq!(t.add_node(second), AddOutcome::Inserted);
    assert_eq!(t.add_node(third), AddOutcome::BucketFull);
    let b = t.bucket(0);
    assert_eq!(b.len(), 2);
    assert_eq!(b[0].id, id_with(0x80, 0));
    assert_eq!(b[1].id, id_with(0x81, 0));
    assert!(!t.contains(&id_with(0x82, 0)));
    assert_eq!(t.len(), 2);
}

#[test]
fn adding_twice_keeps_one_entry_at_tail() {
    let mut t = RoutingTable::new(vec![0u8; 32], 20);
    assert_eq!(t.add_node(peer(0x80, 0, 1)), AddOutcome::Inserted);
    assert_eq!(t.add_node(peer(0x90, 0, 2)), AddOutcome::Inserted);
    assert_eq!(t.add_node(peer(0x80, 0, 1)), AddOutcome::Refreshed);
    assert_eq!(t.add_node(peer(0x80, 0, 1)), AddOutcome::Refreshed);
    let b = t.bucket(0);
    assert_eq!(b.len(), 2);
    assert_eq!(b[0].id, id_with(0x90, 0));
    assert_eq!(b[1].id, id_with(0x80, 0));
    assert_eq!(t.len(), 2);
}

#[test]
fn own_id_is_never_inserted() {
    let own = id_with(7, 7);
    let mut t = RoutingTable::new(own.clone(), 20);
    assert_eq!(t.add_node(NodeInfo::new(own.clone(), "x".to_string())), AddOutcome::Rejected);
    assert_eq!(t.add_node(NodeInfo::new(vec![1, 2, 3], "x".to_string())), AddOutcome::Rejected);
    assert!(!t.contains(&own));
    assert_eq!(t.len(), 0);
    assert!(t.random_node(5).is_none());
}

#[test]
fn peers_land_in_their_buckets() {
    let mut t = RoutingTable::new(vec![0u8; 32], 20);
    t.add_node(peer(0x40, 0, 1));
    t.add_node(peer(0x00, 0x01, 2));
    assert_eq!(t.bucket(1).len(), 1);
    assert_eq!(t.bucket(15).len(), 1);
    assert!(t.contains(&id_with(0x40, 0)));
    assert!(t.contains(&id_with(0x00, 0x01)));
}

#[test]
fn find_closest_sorted_and_bounded() {
    let mut t = RoutingTable::new(vec![0u8; 32], 20);
    t.add_node(peer(0x80, 0, 1));
    t.add_node(peer(0x01, 0, 2));
    t.add_node(peer(0x00, 0x05, 3));
    t.add_node(peer(0x20, 0, 4));
    let target = id_with(0x00, 0x04);
    let r = t.find_closest(&target, 3);
    let ids: Vec<Vec<u8>> = r.iter().map(|p| p.id.clone()).collect();
    assert_eq!(ids, vec![id_with(0x00, 0x05), id_with(0x01, 0), id_with(0x20, 0)]);
    assert_eq!(r[0].addr, "127.0.0.1:3");
    let all = t.find_closest(&target, 10);
    assert_eq!(all.len(), 4);
    assert_eq!(all[3].id, id_with(0x80, 0));
    assert_eq!(t.find_closest(&target, 0).len(), 0);
}

#[test]
fn random_node_picks_by_position() {
    let mut t = RoutingTable::new(vec![0u8; 32], 20);
    t.add_node(peer(0x80, 0, 1));
    t.add_node(peer(0x01, 0, 2));
    // bucket 0 comes before bucket 7
    assert_eq!(t.random_node(0).unwrap().id, id_with(0x80, 0));
    assert_eq!(t.random_node(1).unwrap().id, id_with(0x01, 0));
    assert_eq!(t.random_node(3).unwrap().id, id_with(0x01, 0));
}

#[test]
fn ping_head_policy() {
    let mut t = RoutingTable::new(vec![0u8; 32], 2);
    t.add_node(peer(0x80, 0, 1));
    t.add_node(peer(0x81, 0, 2));
    // head answered: it moves to the tail, the newcomer is dropped
    assert_eq!(t.resolve_full_bucket(peer(0x82, 0, 3), true), AddOutcome::BucketFull);
    let b = t.bucket(0);
    assert_eq!(b[0].id, id_with(0x81, 0));
    assert_eq!(b[1].id, id_with(0x80, 0));
    // head silent: it is evicted, the newcomer appended
    assert_eq!(t.resolve_full_bucket(peer(0x82, 0, 3), false), AddOutcome::Inserted);
    let b = t.bucket(0);
    assert_eq!(b.len(), 2);
    assert_eq!(b[0].id, id_with(0x80, 0));
    assert_eq!(b[1].id, id_with(0x82, 0));
    assert!(!t.contains(&id_with(0x81, 0)));
    // room in another bucket: a plain insertion
    assert_eq!(t.resolve_full_bucket(peer(0x40, 0, 4), false), AddOutcome::Inserted);
}
