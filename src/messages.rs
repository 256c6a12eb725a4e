//! Wire messages of the four RPCs and the canonical bytes each signature covers.
use vstd::prelude::*;
use vstd::utf8::encode_utf8;
use crate::routing_table::NodeInfo;

verus! {

/// ASCII decimal digits of `n`.
pub open spec fn decimal(n: nat) -> Seq<u8>
    decreases n,
{
    if n < 10 {
        seq![(48 + n) as u8]
    } else {
        decimal(n / 10).push((48 + n % 10) as u8)
    }
}

/// ASCII decimal text of a signed integer, with a leading '-' when negative.
pub open spec fn int_text(x: int) -> Seq<u8> {
    if x < 0 {
        seq![45u8] + decimal((-x) as nat)
    } else {
        decimal(x as nat)
    }
}

/// The items of a byte list in decimal, separated by ", ".
pub open spec fn list_items(b: Seq<u8>) -> Seq<u8>
    decreases b.len(),
{
    if b.len() == 0 {
        Seq::empty()
    } else if b.len() == 1 {
        decimal(b[0] as nat)
    } else {
        list_items(b.drop_last()) + seq![44u8, 32u8] + decimal(b.last() as nat)
    }
}

/// A byte string rendered in list notation: `[b0, b1, ...]`.
pub open spec fn list_text(b: Seq<u8>) -> Seq<u8> {
    seq![91u8] + list_items(b) + seq![93u8]
}

/// Signed bytes of a PING: the sender's address, then the timestamp.
pub open spec fn ping_message(addr: Seq<char>, timestamp: int) -> Seq<u8> {
    encode_utf8(addr) + int_text(timestamp)
}

/// Signed bytes of a PING answer: the answering node's identifier, then the timestamp.
pub open spec fn pong_message(id: Seq<u8>, timestamp: int) -> Seq<u8> {
    list_text(id) + int_text(timestamp)
}

/// Signed bytes of a FIND_NODE: requester id, requester address, target id, timestamp.
pub open spec fn find_node_message(
    requester_id: Seq<u8>,
    requester_addr: Seq<char>,
    target_id: Seq<u8>,
    timestamp: int,
) -> Seq<u8> {
    list_text(requester_id) + encode_utf8(requester_addr) + list_text(target_id) + int_text(
        timestamp,
    )
}

/// Signed bytes of a STORE: key, value, timestamp.
pub open spec fn store_message(key: Seq<u8>, value: Seq<u8>, timestamp: int) -> Seq<u8> {
    list_text(key) + list_text(value) + int_text(timestamp)
}

/// Signed bytes of a FIND_VALUE: key, timestamp.
pub open spec fn find_value_message(key: Seq<u8>, timestamp: int) -> Seq<u8> {
    list_text(key) + int_text(timestamp)
}

pub struct PingRequest {
    pub node_address: String,
    pub timestamp: i64,
    pub signature: Vec<u8>,
    pub sender_public_key: Vec<u8>,
}

pub struct PingResponse {
    pub node_id: Vec<u8>,
    pub signature: Vec<u8>,
}

pub struct StoreRequest {
    pub key: Vec<u8>,
    pub value: Vec<u8>,
    pub timestamp: i64,
    pub signature: Vec<u8>,
    pub sender_public_key: Vec<u8>,
}

pub struct StoreResponse {
    pub ok: bool,
}

pub struct FindNodeRequest {
    pub requester_node_id: Vec<u8>,
    pub requester_node_address: String,
    pub target_node_id: Vec<u8>,
    pub timestamp: i64,
    pub signature: Vec<u8>,
    pub sender_public_key: Vec<u8>,
}

pub struct FindNodeResponse {
    pub nodes: Vec<NodeInfo>,
}

pub struct FindValueRequest {
    pub key: Vec<u8>,
    pub timestamp: i64,
    pub signature: Vec<u8>,
    pub sender_public_key: Vec<u8>,
}

pub struct FindValueResponse {
    pub value: Option<Vec<u8>>,
    pub nodes: Vec<NodeInfo>,
}

/// Appends the decimal digits of `n`.
pub fn push_decimal(out: &mut Vec<u8>, n: u64)
    ensures
        final(out)@ == old(out)@ + decimal(n as nat),
    decreases n,
{
    if n >= 10 {
        push_decimal(out, n / 10);
    }
    out.push((48 + n % 10) as u8);
    proof {
        if n < 10 {
            assert(decimal(n as nat) == seq![(48 + n) as u8]);
        }
    }
    assert(final(out)@ =~= old(out)@ + decimal(n as nat));
}

/// Appends the decimal text of a signed integer.
pub fn push_int(out: &mut Vec<u8>, x: i64)
    ensures
        final(out)@ == old(out)@ + int_text(x as int),
{
    if x < 0 {
        out.push(45u8);
        let m = (0i128 - x as i128) as u64;
        push_decimal(out, m);
        assert(final(out)@ =~= old(out)@ + int_text(x as int));
    } else {
        push_decimal(out, x as u64);
    }
}

/// Appends a byte string in list notation.
pub fn push_list(out: &mut Vec<u8>, b: &Vec<u8>)
    ensures
        final(out)@ == old(out)@ + list_text(b@),
{
    let ghost start = out@;
    out.push(91u8);
    let mut i: usize = 0;
    while i < b.len()
        invariant
            i <= b@.len(),
            out@ == start + seq![91u8] + list_items(b@.take(i as int)),
        decreases b.len() - i,
    {
        let ghost before = out@;
        if i > 0 {
            out.push(44u8);
            out.push(32u8);
        }
        push_decimal(out, b[i] as u64);
        proof {
            let t = b@.take(i + 1);
            assert(t.drop_last() =~= b@.take(i as int));
            if i == 0 {
                assert(list_items(b@.take(0)) =~= Seq::<u8>::empty());
            }
        }
        assert(out@ =~= start + seq![91u8] + list_items(b@.take(i + 1)));
        i += 1;
    }
    out.push(93u8);
    assert(b@.take(b@.len() as int) =~= b@);
    assert(final(out)@ =~= old(out)@ + list_text(b@));
}

/// Appends the UTF-8 bytes of a string.
pub fn push_str(out: &mut Vec<u8>, s: &str)
    ensures
        final(out)@ == old(out)@ + encode_utf8(s@),
{
    let bytes = s.as_bytes();
    let mut i: usize = 0;
    let ghost start = out@;
    while i < bytes.len()
        invariant
            i <= bytes@.len(),
            bytes@ == encode_utf8(s@),
            out@ == start + bytes@.take(i as int),
        decreases bytes.len() - i,
    {
        out.push(bytes[i]);
        assert(bytes@.take(i + 1) =~= bytes@.take(i as int).push(bytes@[i as int]));
        assert(out@ =~= start + bytes@.take(i + 1));
        i += 1;
    }
    assert(bytes@.take(bytes@.len() as int) =~= bytes@);
}

/// Canonical signed bytes of a PING.
pub fn ping_bytes(addr: &String, timestamp: i64) -> (r: Vec<u8>)
    ensures
        r@ == ping_message(addr@, timestamp as int),
{
    let mut out: Vec<u8> = Vec::new();
    push_str(&mut out, addr.as_str());
    push_int(&mut out, timestamp);
    assert(out@ =~= ping_message(addr@, timestamp as int));
    out
}

/// Canonical signed bytes of a PING answer.
pub fn pong_bytes(id: &Vec<u8>, timestamp: i64) -> (r: Vec<u8>)
    ensures
        r@ == pong_message(id@, timestamp as int),
{
    let mut out: Vec<u8> = Vec::new();
    push_list(&mut out, id);
    push_int(&mut out, timestamp);
    assert(out@ =~= pong_message(id@, timestamp as int));
    out
}

/// Canonical signed bytes of a FIND_NODE.
pub fn find_node_bytes(
    requester_id: &Vec<u8>,
    requester_addr: &String,
    target_id: &Vec<u8>,
    timestamp: i64,
) -> (r: Vec<u8>)
    ensures
        r@ == find_node_message(requester_id@, requester_addr@, target_id@, timestamp as int),
{
    let mut out: Vec<u8> = Vec::new();
    push_list(&mut out, requester_id);
    push_str(&mut out, requester_addr.as_str());
    push_list(&mut out, target_id);
    push_int(&mut out, timestamp);
    assert(out@ =~= find_node_message(requester_id@, requester_addr@, target_id@, timestamp as int));
    out
}

/// Canonical signed bytes of a STORE.
pub fn store_bytes(key: &Vec<u8>, value: &Vec<u8>, timestamp: i64) -> (r: Vec<u8>)
    ensures
        r@ == store_message(key@, value@, timestamp as int),
{
    let mut out: Vec<u8> = Vec::new();
    push_list(&mut out, key);
    push_list(&mut out, value);
    push_int(&mut out, timestamp);
    assert(out@ =~= store_message(key@, value@, timestamp as int));
    out
}

/// Canonical signed bytes of a FIND_VALUE.
pub fn find_value_bytes(key: &Vec<u8>, timestamp: i64) -> (r: Vec<u8>)
    ensures
        r@ == find_value_message(key@, timestamp as int),
{
    let mut out: Vec<u8> = Vec::new();
    push_list(&mut out, key);
    push_int(&mut out, timestamp);
    assert(out@ =~= find_value_message(key@, timestamp as int));
    out
}

} // verus!
