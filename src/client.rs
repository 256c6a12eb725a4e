//! The requesting side: signed request envelopes, and the retry decision for sends.
use vstd::prelude::*;
use crate::config::TIMEOUT_MAX_ATTEMPTS;
use crate::crypto::{ed25519_signature_of, ed25519_verifies, Keypair};
use crate::messages::{
    find_node_bytes, find_node_message, find_value_bytes, find_value_message, ping_bytes,
    ping_message, store_bytes, store_message, FindNodeRequest, FindValueRequest, PingRequest,
    StoreRequest,
};
use crate::routing_table::copy_bytes;

verus! {

/// Relies on std::time::SystemTime::now and duration_since(UNIX_EPOCH): whole seconds
/// since the Unix epoch; 0 when the clock reads earlier than the epoch.
#[verifier::external_body]
fn unix_time_now() -> (r: i64) {
    match std::time::SystemTime::now().duration_since(std::time::UNIX_EPOCH) {
        Ok(d) => d.as_secs() as i64,
        Err(_) => 0,
    }
}

/// How one attempt to send a request ended.
#[derive(Clone, Copy, Debug, PartialEq, Eq, Structural)]
pub enum AttemptEvent {
    Succeeded,
    Failed,
    TimedOut,
}

/// What the sender does next.
#[derive(Clone, Copy, Debug, PartialEq, Eq, Structural)]
pub enum RetryAction {
    /// The response arrived: hand it to the caller.
    Done,
    /// Make another attempt.
    Retry,
    /// Every attempt failed: report that transport is exhausted.
    GiveUp,
}

/// Builder of signed request envelopes.
pub struct Client;

impl Client {
    /// The decision after attempt number `attempts_made` (counting from 1) ended with
    /// `event`: stop on success, retry a failure or timeout while fewer than
    /// `TIMEOUT_MAX_ATTEMPTS` attempts were made, give up otherwise.
    pub fn next_action(attempts_made: u32, event: AttemptEvent) -> (r: RetryAction)
        ensures
            event == AttemptEvent::Succeeded ==> r == RetryAction::Done,
            event != AttemptEvent::Succeeded && attempts_made < TIMEOUT_MAX_ATTEMPTS ==> r
                == RetryAction::Retry,
            event != AttemptEvent::Succeeded && attempts_made >= TIMEOUT_MAX_ATTEMPTS ==> r
                == RetryAction::GiveUp,
    {
        match event {
            AttemptEvent::Succeeded => RetryAction::Done,
            _ => {
                if attempts_made < TIMEOUT_MAX_ATTEMPTS {
                    RetryAction::Retry
                } else {
                    RetryAction::GiveUp
                }
            },
        }
    }

    /// A PING stamped with `timestamp` and signed by `keypair`.
    pub fn ping_request_at(keypair: &Keypair, self_addr: String, timestamp: i64) -> (r: PingRequest)
        ensures
            r.node_address == self_addr,
            r.timestamp == timestamp,
            r.sender_public_key@ == keypair.spec_public_key(),
            r.signature@ == ed25519_signature_of(keypair.spec_pkcs8(), ping_message(self_addr@, timestamp as int)),
            ed25519_verifies(keypair.spec_public_key(), ping_message(self_addr@, timestamp as int), r.signature@),
    {
        let message = ping_bytes(&self_addr, timestamp);
        let signature = keypair.sign(&message);
        let sender_public_key = copy_bytes(keypair.public_key());
        PingRequest { node_address: self_addr, timestamp, signature, sender_public_key }
    }

    /// A PING stamped with the current time.
    pub fn create_ping_request(keypair: &Keypair, self_addr: String) -> (r: PingRequest)
        ensures
            r.node_address == self_addr,
            r.sender_public_key@ == keypair.spec_public_key(),
            r.signature@ == ed25519_signature_of(keypair.spec_pkcs8(), ping_message(self_addr@, r.timestamp as int)),
            ed25519_verifies(keypair.spec_public_key(), ping_message(self_addr@, r.timestamp as int), r.signature@),
    {
        Client::ping_request_at(keypair, self_addr, unix_time_now())
    }

    /// A FIND_NODE stamped with `timestamp` and signed by `keypair`.
    pub fn find_node_request_at(
        keypair: &Keypair,
        requester_node_id: Vec<u8>,
        requester_node_address: String,
        target_node_id: Vec<u8>,
        timestamp: i64,
    ) -> (r: FindNodeRequest)
        ensures
            r.requester_node_id == requester_node_id,
            r.requester_node_address == requester_node_address,
            r.target_node_id == target_node_id,
            r.timestamp == timestamp,
            r.sender_public_key@ == keypair.spec_public_key(),
            r.signature@ == ed25519_signature_of(
                keypair.spec_pkcs8(),
                find_node_message(requester_node_id@, requester_node_address@, target_node_id@, timestamp as int),
            ),
            ed25519_verifies(keypair.spec_public_key(), find_node_message(requester_node_id@, requester_node_address@, target_node_id@, timestamp as int), r.signature@),
    {
        let message = find_node_bytes(&requester_node_id, &requester_node_address, &target_node_id, timestamp);
        let signature = keypair.sign(&message);
        let sender_public_key = copy_bytes(keypair.public_key());
        FindNodeRequest {
            requester_node_id,
            requester_node_address,
            target_node_id,
            timestamp,
            signature,
            sender_public_key,
        }
    }

    /// A FIND_NODE stamped with the current time.
    pub fn create_find_node_request(
        keypair: &Keypair,
        requester_node_id: Vec<u8>,
        requester_node_address: String,
        target_node_id: Vec<u8>,
    ) -> (r: FindNodeRequest)
        ensures
            r.requester_node_id == requester_node_id,
            r.requester_node_address == requester_node_address,
            r.target_node_id == target_node_id,
            r.sender_public_key@ == keypair.spec_public_key(),
            r.signature@ == ed25519_signature_of(
                keypair.spec_pkcs8(),
                find_node_message(requester_node_id@, requester_node_address@, target_node_id@, r.timestamp as int),
            ),
            ed25519_verifies(keypair.spec_public_key(), find_node_message(requester_node_id@, requester_node_address@, target_node_id@, r.timestamp as int), r.signature@),
    {
        Client::find_node_request_at(keypair, requester_node_id, requester_node_address, target_node_id, unix_time_now())
    }

    /// A STORE stamped with `timestamp` and signed by `keypair`.
    pub fn store_request_at(keypair: &Keypair, key: Vec<u8>, value: Vec<u8>, timestamp: i64) -> (r: StoreRequest)
        ensures
            r.key == key,
            r.value == value,
            r.timestamp == timestamp,
            r.sender_public_key@ == keypair.spec_public_key(),
            r.signature@ == ed25519_signature_of(keypair.spec_pkcs8(), store_message(key@, value@, timestamp as int)),
            ed25519_verifies(keypair.spec_public_key(), store_message(key@, value@, timestamp as int), r.signature@),
    {
        let message = store_bytes(&key, &value, timestamp);
        let signature = keypair.sign(&message);
        let sender_public_key = copy_bytes(keypair.public_key());
        StoreRequest { key, value, timestamp, signature, sender_public_key }
    }

    /// A STORE stamped with the current time.
    pub fn create_store_node_request(keypair: &Keypair, key: Vec<u8>, value: Vec<u8>) -> (r: StoreRequest)
        ensures
            r.key == key,
            r.value == value,
            r.sender_public_key@ == keypair.spec_public_key(),
            r.signature@ == ed25519_signature_of(keypair.spec_pkcs8(), store_message(key@, value@, r.timestamp as int)),
            ed25519_verifies(keypair.spec_public_key(), store_message(key@, value@, r.timestamp as int), r.signature@),
    {
        Client::store_request_at(keypair, key, value, unix_time_now())
    }

    /// A FIND_VALUE stamped with `timestamp` and signed by `keypair`.
    pub fn find_value_request_at(keypair: &Keypair, key: Vec<u8>, timestamp: i64) -> (r: FindValueRequest)
        ensures
            r.key == key,
            r.timestamp == timestamp,
            r.sender_public_key@ == keypair.spec_public_key(),
            r.signature@ == ed25519_signature_of(keypair.spec_pkcs8(), find_value_message(key@, timestamp as int)),
            ed25519_verifies(keypair.spec_public_key(), find_value_message(key@, timestamp as int), r.signature@),
    {
        let message = find_value_bytes(&key, timestamp);
        let signature = keypair.sign(&message);
        let sender_public_key = copy_bytes(keypair.public_key());
        FindValueRequest { key, timestamp, signature, sender_public_key }
    }

    /// A FIND_VALUE stamped with the current time.
    pub fn create_find_value_request(keypair: &Keypair, key: Vec<u8>) -> (r: FindValueRequest)
        ensures
            r.key == key,
            r.sender_public_key@ == keypair.spec_public_key(),
            r.signature@ == ed25519_signature_of(keypair.spec_pkcs8(), find_value_message(key@, r.timestamp as int)),
            ed25519_verifies(keypair.spec_public_key(), find_value_message(key@, r.timestamp as int), r.signature@),
    {
        Client::find_value_request_at(keypair, key, unix_time_now())
    }
}

} // verus!
