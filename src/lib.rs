//! A Kademlia overlay node: identities under a proof-of-work constraint, signed RPC
//! framing, the XOR-metric routing table with k-buckets, a local key/value store,
//! and a minimal block chain for the ledger built on top.
pub mod config;
pub mod node_id;
pub mod routing_table;
pub mod store;
pub mod messages;
pub mod crypto;
pub mod node;
pub mod client;
pub mod refresh;
pub mod blockchain;
