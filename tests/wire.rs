use kademlia_node::blockchain::{Block, Blockchain};
use kademlia_node::client::{AttemptEvent, Client, RetryAction};
use kademlia_node::config::{REFRESH_TIMER_LOWER, REFRESH_TIMER_UPPER, TIMEOUT_MAX_ATTEMPTS};
use kademlia_node::crypto::{generate_id, sha256, verify, CryptoError, IdentityError, Keypair};
use kademlia_node::messages::{find_node_bytes, find_value_bytes, ping_bytes, pong_bytes, store_bytes};
use kademlia_node::node_id::meets_difficulty;
use kademlia_node::refresh::RefreshSchedule;
use kademlia_node::routing_table::{NodeInfo, RoutingTable};
use kademlia_node::store::LocalStore;

#[test]
fn canonical_ping_bytes() {
    assert_eq!(ping_bytes(&"127.0.0.1:9001".to_string(), 1700000000), b"127.0.0.1:90011700000000".to_vec());
    assert_eq!(ping_bytes(&"h".to_string(), -42), b"h-42".to_vec());
}

#[test]
fn canonical_list_bytes() {
    assert_eq!(store_bytes(&vec![1, 2], &vec![0xAA], 7), b"[1, 2][170]7".to_vec());
    assert_eq!(find_value_bytes(&vec![], 0), b"[]0".to_vec());
    assert_eq!(pong_bytes(&vec![255, 0, 10], i64::MIN), b"[255, 0, 10]-9223372036854775808".to_vec());
    assert_eq!(
        find_node_bytes(&vec![9], &"a:1".to_string(), &vec![3, 4], 12),
        b"[9]a:1[3, 4]12".to_vec()
    );
}

#[test]
fn sha256_known_digest() {
    let d = sha256(&b"abc".to_vec());
    assert_eq!(hex::encode(&d), "ba7816bf8f01cfea414140de5dae2223b00361a396177a9cb410ff61f20015ad");
}

#[test]
fn sign_then_verify_and_tamper() {
    let kp = Keypair::create_keypair().unwrap();
    assert_eq!(kp.public_key().len(), 32);
    let msg = b"hello".to_vec();
    let sig = kp.sign(&msg);
    assert_eq!(sig.len(), 64);
    assert_eq!(verify(kp.public_key(), &msg, &sig), Ok(()));
    let mut bad = sig.clone();
    bad[0] ^= 1;
    assert_eq!(verify(kp.public_key(), &msg, &bad), Err(CryptoError::InvalidSignature));
    assert_eq!(verify(&vec![1, 2, 3], &msg, &sig), Err(CryptoError::InvalidSignature));
    let again = Keypair::from_pkcs8(kp.pkcs8().clone()).unwrap();
    assert_eq!(again.public_key(), kp.public_key());
    assert_eq!(again.sign(&msg), sig);
    assert!(Keypair::from_pkcs8(vec![0, 1, 2]).is_none());
}

#[test]
fn identity_meets_difficulty() {
    let (kp, id, attempts) = generate_id(4).unwrap();
    assert!(attempts >= 1);
    assert_eq!(id, sha256(kp.public_key()));
    assert!(meets_difficulty(&id, 4));
    assert!(matches!(generate_id(257), Err(IdentityError::Unreachable)));
}

#[test]
fn last_store_wins() {
    let mut s = LocalStore::new();
    s.store(vec![1], vec![10]);
    s.store(vec![1], vec![20]);
    s.store(vec![2], vec![30]);
    assert_eq!(s.get(&vec![1]), Some(vec![20]));
    assert_eq!(s.get(&vec![2]), Some(vec![30]));
    assert_eq!(s.get(&vec![3]), None);
}

#[test]
fn retry_decisions() {
    assert_eq!(Client::next_action(1, AttemptEvent::Succeeded), RetryAction::Done);
    assert_eq!(Client::next_action(1, AttemptEvent::Failed), RetryAction::Retry);
    assert_eq!(Client::next_action(TIMEOUT_MAX_ATTEMPTS - 1, AttemptEvent::TimedOut), RetryAction::Retry);
    assert_eq!(Client::next_action(TIMEOUT_MAX_ATTEMPTS, AttemptEvent::TimedOut), RetryAction::GiveUp);
}

#[test]
fn refresh_schedule_bounds() {
    let mut s = RefreshSchedule::new().unwrap();
    for _ in 0..50 {
        let d = s.next_delay();
        assert!(d >= REFRESH_TIMER_LOWER && d <= REFRESH_TIMER_UPPER);
        assert!(s.pick(3) < 3);
    }
    let mut t = RoutingTable::new(vec![0u8; 32], 20);
    assert!(s.refresh_target(&t).is_none());
    let mut id = vec![0u8; 32];
    id[0] = 0x80;
    t.add_node(NodeInfo::new(id.clone(), "p".to_string()));
    assert_eq!(s.refresh_target(&t).unwrap().id, id);
}

#[test]
fn block_hash_exact_value() {
    let b = Block {
        index: 3,
        prev_hash: "00ff".to_string(),
        nounce: 7,
        timestamp: -5,
        hash: "a\"b".to_string(),
        tx: "ignored".to_string(),
    };
    b.new();
    assert_eq!(b.gen_hash(), "6cd0f9422cf77612b7143a707d0a3e0b4b2f6fe7a11334d94fd0ac397c8ac9d6");
}

#[test]
fn mining_finds_zero_prefix() {
    let mut b = Block {
        index: 1,
        prev_hash: "0".to_string(),
        nounce: 0,
        timestamp: 1,
        hash: "x".to_string(),
        tx: "t".to_string(),
    };
    b.mine_block(2);
    assert!(b.hash.starts_with("00"));
    assert!(b.nounce > 0);
    let mut chain = Blockchain { blocks: Vec::new() };
    chain.new();
    chain.add_block(b);
    assert_eq!(chain.blocks.len(), 1);
}

#[test]
fn requests_are_stamped_and_signed() {
    let kp = Keypair::create_keypair().unwrap();
    let req = Client::create_ping_request(&kp, "127.0.0.1:9001".to_string());
    assert!(req.timestamp > 1_600_000_000);
    let msg = ping_bytes(&req.node_address, req.timestamp);
    assert_eq!(verify(&req.sender_public_key, &msg, &req.signature), Ok(()));
    let s = Client::create_store_node_request(&kp, vec![1, 2], vec![0xAA]);
    assert_eq!(verify(kp.public_key(), &store_bytes(&s.key, &s.value, s.timestamp), &s.signature), Ok(()));
    let f = Client::create_find_value_request(&kp, vec![7]);
    assert_eq!(verify(kp.public_key(), &find_value_bytes(&f.key, f.timestamp), &f.signature), Ok(()));
    let n = Client::create_find_node_request(&kp, vec![1], "a".to_string(), vec![2]);
    let m = find_node_bytes(&n.requester_node_id, &n.requester_node_address, &n.target_node_id, n.timestamp);
    assert_eq!(verify(kp.public_key(), &m, &n.signature), Ok(()));
}

#[test]
fn hex_text_of_bytes() {
    assert_eq!(kademlia_node::blockchain::hex_string(&vec![0x00, 0xAB, 0x0F, 0xFF]), "00ab0fff");
    assert_eq!(kademlia_node::blockchain::hex_string(&vec![]), "");
}

#[test]
fn zero_difficulty_takes_one_attempt() {
    let (_, id, attempts) = generate_id(0).unwrap();
    assert_eq!(attempts, 1);
    assert_eq!(id.len(), 32);
}
