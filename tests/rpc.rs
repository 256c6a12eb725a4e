use kademlia_node::client::Client;
use kademlia_node::node::{Node, RpcError};
use kademlia_node::node_id::bucket_index;
use kademlia_node::routing_table::NodeInfo;

const NOW: i64 = 1_700_000_000;

fn node(addr: &str) -> Node {
    Node::new(addr.to_string(), 0, 2).unwrap()
}

/// `sender` pings `receiver`; both record each other.
fn ping(sender: &mut Node, receiver: &mut Node) {
    let req = Client::ping_request_at(&sender.keypair, sender.addr.clone(), NOW);
    let resp = receiver.handle_ping(&req, NOW).unwrap();
    assert_eq!(resp.node_id, receiver.id);
    sender.update_routing_table(vec![NodeInfo::new(resp.node_id, receiver.addr.clone())]);
}

#[test]
fn ping_round_trip() {
    let mut a = node("127.0.0.1:9001");
    let mut b = node("127.0.0.1:9002");
    ping(&mut a, &mut b);
    assert!(a.routing_table.contains(&b.id));
    assert!(b.routing_table.contains(&a.id));
}

#[test]
fn ping_response_is_signed() {
    let mut a = node("127.0.0.1:9001");
    let mut b = node("127.0.0.1:9002");
    let req = Client::ping_request_at(&a.keypair, a.addr.clone(), NOW);
    let resp = b.handle_ping(&req, NOW).unwrap();
    let msg = kademlia_node::messages::pong_bytes(&b.id, NOW);
    assert_eq!(kademlia_node::crypto::verify(b.keypair.public_key(), &msg, &resp.signature), Ok(()));
    let _ = &mut a;
}

#[test]
fn bootstrap_join() {
    let mut a = node("127.0.0.1:9001");
    let mut b = node("127.0.0.1:9002");
    let mut c = node("127.0.0.1:9003");
    ping(&mut b, &mut c);
    ping(&mut a, &mut b);
    let req = Client::find_node_request_at(&a.keypair, a.id.clone(), a.addr.clone(), a.id.clone(), NOW);
    let resp = b.handle_find_node(&req, NOW).unwrap();
    a.update_routing_table(resp.nodes);
    assert!(a.routing_table.contains(&b.id));
    assert!(a.routing_table.contains(&c.id));
}

#[test]
fn store_and_retrieve_local() {
    let mut n = node("127.0.0.1:9010");
    let m = node("127.0.0.1:9011");
    let addr = m.addr.clone();
    let req = Client::store_request_at(&m.keypair, vec![0x01, 0x02], vec![0xAA], NOW);
    assert!(n.handle_store(req, &addr, NOW).unwrap().ok);
    let q = Client::find_value_request_at(&m.keypair, vec![0x01, 0x02], NOW);
    let resp = n.handle_find_value(&q, &addr, NOW).unwrap();
    assert_eq!(resp.value, Some(vec![0xAA]));
    assert!(resp.nodes.is_empty());
}

#[test]
fn store_twice_then_find_returns_second() {
    let mut n = node("127.0.0.1:9010");
    let m = node("127.0.0.1:9011");
    let addr = m.addr.clone();
    n.handle_store(Client::store_request_at(&m.keypair, vec![5], vec![1], NOW), &addr, NOW).unwrap();
    n.handle_store(Client::store_request_at(&m.keypair, vec![5], vec![2], NOW), &addr, NOW).unwrap();
    let q = Client::find_value_request_at(&m.keypair, vec![5], NOW);
    assert_eq!(n.handle_find_value(&q, &addr, NOW).unwrap().value, Some(vec![2]));
}

fn flip_bit(id: &Vec<u8>, bit: usize) -> Vec<u8> {
    let mut v = id.clone();
    v[bit / 8] ^= 0x80 >> (bit % 8);
    v
}

fn xor_less(a: &Vec<u8>, b: &Vec<u8>, t: &Vec<u8>) -> bool {
    let x: Vec<u8> = a.iter().zip(t).map(|(p, q)| p ^ q).collect();
    let y: Vec<u8> = b.iter().zip(t).map(|(p, q)| p ^ q).collect();
    x < y
}

#[test]
fn find_value_missing_returns_closest_peers() {
    let mut n = node("127.0.0.1:9020");
    let r = node("127.0.0.1:9021");
    let rb = bucket_index(&r.id, &n.id);
    let free: Vec<usize> = [253usize, 254, 255].iter().copied().filter(|b| *b != rb).collect();
    let x = flip_bit(&n.id, free[0]);
    let y = flip_bit(&n.id, free[1]);
    n.update_routing_table(vec![NodeInfo::new(x.clone(), "x".to_string()), NodeInfo::new(y.clone(), "y".to_string())]);
    // the requester becomes the third known peer
    let key = flip_bit(&n.id, 100);
    let q = Client::find_value_request_at(&r.keypair, key.clone(), NOW);
    let resp = n.handle_find_value(&q, &r.addr, NOW).unwrap();
    assert_eq!(resp.value, None);
    assert_eq!(n.routing_table.len(), 3);
    let mut ids = vec![r.id.clone(), x, y];
    ids.sort_by(|a, b| if xor_less(a, b, &key) { std::cmp::Ordering::Less } else { std::cmp::Ordering::Greater });
    let got: Vec<Vec<u8>> = resp.nodes.iter().map(|p| p.id.clone()).collect();
    assert_eq!(got, vec![ids[0].clone(), ids[1].clone()]);
}

#[test]
fn tampered_store_rejected() {
    let mut n = node("127.0.0.1:9030");
    let m = node("127.0.0.1:9031");
    let mut req = Client::store_request_at(&m.keypair, vec![1], vec![0x10], NOW);
    req.value[0] ^= 0x01;
    assert!(matches!(n.handle_store(req, &m.addr, NOW), Err(RpcError::Unauthenticated)));
    assert_eq!(n.storage.get(&vec![1]), None);
    assert!(!n.routing_table.contains(&m.id));
}

#[test]
fn stale_request_rejected() {
    let mut n = node("127.0.0.1:9040");
    let m = node("127.0.0.1:9041");
    let req = Client::ping_request_at(&m.keypair, m.addr.clone(), NOW - 31);
    assert!(matches!(n.handle_ping(&req, NOW), Err(RpcError::Stale)));
    let ok = Client::ping_request_at(&m.keypair, m.addr.clone(), NOW - 30);
    assert!(n.handle_ping(&ok, NOW).is_ok());
}

#[test]
fn find_node_checks_claimed_id_and_target() {
    let mut n = node("127.0.0.1:9050");
    let m = node("127.0.0.1:9051");
    let wrong = Client::find_node_request_at(&m.keypair, vec![0u8; 32], m.addr.clone(), m.id.clone(), NOW);
    assert!(matches!(n.handle_find_node(&wrong, NOW), Err(RpcError::Unauthenticated)));
    let short = Client::find_node_request_at(&m.keypair, m.id.clone(), m.addr.clone(), vec![1, 2], NOW);
    assert!(matches!(n.handle_find_node(&short, NOW), Err(RpcError::InvalidArgument)));
    assert_eq!(n.routing_table.len(), 0);
}

#[test]
fn difficulty_rejects_weak_sender() {
    // every identifier fails a 256-bit cost except the all-zero one
    let mut n = Node::new("127.0.0.1:9060".to_string(), 0, 2).unwrap();
    n.difficulty = 256;
    let m = node("127.0.0.1:9061");
    let req = Client::ping_request_at(&m.keypair, m.addr.clone(), NOW);
    assert!(matches!(n.handle_ping(&req, NOW), Err(RpcError::Unauthenticated)));
}
