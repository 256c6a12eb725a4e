//! A node's state and the server side of the four RPCs: every request is checked
//! for freshness, signature and admission cost before its sender is recorded and the
//! request is served.
use vstd::prelude::*;
use crate::config::SKEW;
use crate::crypto::{
    ed25519_signature_of, ed25519_verifies, generate_id,
    sha256, sha256_of, IdentityError, Keypair,
};
use crate::messages::{
    find_node_bytes, find_node_message, find_value_bytes, find_value_message, ping_bytes,
    ping_message, pong_bytes, pong_message, store_bytes, store_message, FindNodeRequest,
    FindNodeResponse, FindValueRequest, FindValueResponse, PingRequest, PingResponse,
    StoreRequest, StoreResponse,
};
use crate::node_id::{
    bucket_index_of, lemma_bucket_index_is_first_differing_bit, meets_difficulty, meets_difficulty_spec, valid_id, ID_BITS, ID_LEN,
};
use crate::routing_table::{
    add_node_spec, lemma_add_twice, table_contains, table_wf, AddOutcome, bytes_equal, closest_answer, copy_bytes, NodeInfo, RoutingTable, TableView,
};
use crate::store::LocalStore;

verus! {

/// Why a request was refused.
#[derive(Clone, Copy, Debug, PartialEq, Eq, Structural)]
pub enum RpcError {
    /// Bad signature, or a sender identifier that is not the key's digest or does not
    /// meet the admission cost.
    Unauthenticated,
    /// Timestamp more than `SKEW` seconds away from the receiver's clock.
    Stale,
    /// A target identifier that is not `ID_LEN` bytes long.
    InvalidArgument,
}

/// The timestamp is within `SKEW` seconds of `now`.
pub open spec fn fresh(timestamp: int, now: int) -> bool {
    now - SKEW <= timestamp <= now + SKEW
}

/// The verdict of the common prelude on a request.
pub open spec fn admission(timestamp: int, now: int, signature_ok: bool, sender_id: Seq<u8>, c1: nat) -> Result<(), RpcError> {
    if !fresh(timestamp, now) {
        Err(RpcError::Stale)
    } else if !signature_ok || !meets_difficulty_spec(sender_id, c1) {
        Err(RpcError::Unauthenticated)
    } else {
        Ok(())
    }
}

/// `t1` is `t0` after `add_node` of a record with this identifier and address.
pub open spec fn admitted(t0: TableView, t1: TableView, id: Seq<u8>, addr: Seq<char>) -> bool {
    exists|p: NodeInfo| p.id@ == id && p.addr@ == addr && t1 == (#[trigger] add_node_spec(t0, p)).0
}

/// Point in the identifier space that a stored key is looked up at: the key itself
/// when it is `ID_LEN` bytes long, its SHA-256 digest otherwise.
pub open spec fn key_target(key: Seq<u8>) -> Seq<u8> {
    if valid_id(key) {
        key
    } else {
        sha256_of(key)
    }
}


/// One step of merging a peer list into a table: skip the owner and known peers, add
/// the others. Also counts 1 when the peer was inserted.
pub open spec fn merge_step(t: TableView, p: NodeInfo) -> (TableView, nat) {
    if p.id@ == t.own || table_contains(t, p.id@) {
        (t, 0)
    } else {
        let (t1, o) = add_node_spec(t, p);
        (t1, if o == AddOutcome::Inserted { 1 } else { 0 })
    }
}

/// The table after merging `nodes` in order, and how many peers were inserted.
pub open spec fn merge_nodes(t: TableView, nodes: Seq<NodeInfo>) -> (TableView, nat)
    decreases nodes.len(),
{
    if nodes.len() == 0 {
        (t, 0)
    } else {
        let (t1, c1) = merge_step(t, nodes[0]);
        let (t2, c2) = merge_nodes(t1, nodes.drop_first());
        (t2, c1 + c2)
    }
}

/// Merging the same new peer twice in a row leaves exactly one entry for it, at the
/// tail of its bucket: the second merge finds it known and changes nothing.
pub proof fn lemma_merge_twice(t: TableView, p: NodeInfo)
    requires
        table_wf(t),
        merge_nodes(t, seq![p]).1 == 1,
    ensures
        ({
            let t1 = merge_nodes(t, seq![p]).0;
            let t2 = merge_nodes(t1, seq![p]).0;
            let b = t2.buckets[bucket_index_of(p.id@, t.own) as int];
            &&& t2 == t1
            &&& b.len() > 0
            &&& b.last().id@ == p.id@
            &&& forall|j: int| 0 <= j < b.len() - 1 ==> (#[trigger] b[j]).id@ != p.id@
        }),
{
    let one = seq![p];
    assert(one.drop_first() =~= Seq::<NodeInfo>::empty());
    assert(one[0] == p);
    let s1 = merge_step(t, p);
    assert(merge_nodes(s1.0, Seq::<NodeInfo>::empty()) == (s1.0, 0nat));
    assert(merge_nodes(t, one) == (s1.0, s1.1));
    assert(s1.1 == 1);
    assert(add_node_spec(t, p).1 == AddOutcome::Inserted);
    lemma_add_twice(t, p);
    lemma_bucket_index_is_first_differing_bit(p.id@, t.own);
    let t1 = s1.0;
    let s2 = merge_step(t1, p);
    assert(s2.0 == t1);
    assert(merge_nodes(s2.0, Seq::<NodeInfo>::empty()) == (s2.0, 0nat));
    assert(merge_nodes(t1, one) == (s2.0, s2.1));
}

/// A request from a sender the table already knows leaves exactly one entry for that
/// sender, at the tail (most recently seen end) of its bucket.
pub proof fn lemma_known_sender_moves_to_tail(t0: TableView, t1: TableView, id: Seq<u8>, addr: Seq<char>)
    requires
        table_wf(t0),
        table_contains(t0, id),
        admitted(t0, t1, id, addr),
    ensures
        ({
            let b = t1.buckets[bucket_index_of(id, t0.own) as int];
            &&& b.len() > 0
            &&& b.last().id@ == id
            &&& forall|j: int| 0 <= j < b.len() - 1 ==> (#[trigger] b[j]).id@ != id
        }),
{
    let p = choose|p: NodeInfo| p.id@ == id && p.addr@ == addr && t1 == (#[trigger] add_node_spec(t0, p)).0;
    assert(add_node_spec(t0, p).1 == AddOutcome::Refreshed);
    lemma_add_twice(t0, p);
}

proof fn lemma_merge_count(t: TableView, nodes: Seq<NodeInfo>)
    ensures
        merge_nodes(t, nodes).1 <= nodes.len(),
    decreases nodes.len(),
{
    if nodes.len() > 0 {
        lemma_merge_count(merge_step(t, nodes[0]).0, nodes.drop_first());
    }
}

/// A node: its identity, address, admission cost, local store and routing table.
pub struct Node {
    pub keypair: Keypair,
    pub id: Vec<u8>,
    pub addr: String,
    pub difficulty: u32,
    pub storage: LocalStore,
    pub routing_table: RoutingTable,
}

impl Node {
    pub open spec fn wf(&self) -> bool {
        &&& valid_id(self.id@)
        &&& self.storage.wf()
        &&& self.routing_table.wf()
        &&& table_wf(self.routing_table@)
        &&& self.routing_table@.own == self.id@
    }

    /// The parts of a node a request never changes.
    pub open spec fn same_identity(&self, other: &Node) -> bool {
        &&& self.keypair == other.keypair
        &&& self.id@ == other.id@
        &&& self.addr@ == other.addr@
        &&& self.difficulty == other.difficulty
    }

    /// A node with the given identity, an empty store and an empty table whose buckets
    /// hold `k` peers.
    pub fn with_identity(keypair: Keypair, id: Vec<u8>, addr: String, difficulty: u32, k: usize) -> (r: Node)
        requires
            valid_id(id@),
            k * ID_BITS <= usize::MAX,
        ensures
            r.wf(),
            r.keypair == keypair,
            r.id@ == id@,
            r.addr@ == addr@,
            r.difficulty == difficulty,
            r.storage@ == Map::<Seq<u8>, Seq<u8>>::empty(),
            r.routing_table@.k == k,
            r.routing_table@.buckets == Seq::new(ID_BITS as nat, |i: int| Seq::<NodeInfo>::empty()),
    {
        let routing_table = RoutingTable::new(copy_bytes(&id), k);
        Node { keypair, id, addr, difficulty, storage: LocalStore::new(), routing_table }
    }

    /// Generates an identity meeting `difficulty` and builds a fresh node on it.
    pub fn new(addr: String, difficulty: u32, k: usize) -> (r: Result<Node, IdentityError>)
        requires
            k * ID_BITS <= usize::MAX,
        ensures
            difficulty > ID_BITS <==> r == Err::<Node, IdentityError>(IdentityError::Unreachable),
            r.is_ok() ==> {
                let n = r.unwrap();
                &&& n.wf()
                &&& n.id@ == sha256_of(n.keypair.spec_public_key())
                &&& meets_difficulty_spec(n.id@, difficulty as nat)
                &&& n.addr@ == addr@
                &&& n.difficulty == difficulty
                &&& n.storage@ == Map::<Seq<u8>, Seq<u8>>::empty()
                &&& n.routing_table@.k == k
                &&& n.routing_table@.buckets == Seq::new(ID_BITS as nat, |i: int| Seq::<NodeInfo>::empty())
            },
    {
        match generate_id(difficulty) {
            Ok((keypair, id, _attempts)) => Ok(Node::with_identity(keypair, id, addr, difficulty, k)),
            Err(e) => Err(e),
        }
    }

    /// The common prelude of every request, given whether its signature checked and
    /// the identifier derived from its key: refuse a stale timestamp, then a bad
    /// signature or an identifier below the admission cost; otherwise record the
    /// sender in the routing table.
    pub fn admit_sender(
        &mut self,
        timestamp: i64,
        now: i64,
        signature_ok: bool,
        sender_id: &Vec<u8>,
        sender_addr: &String,
    ) -> (r: Result<(), RpcError>)
        requires
            old(self).wf(),
        ensures
            final(self).wf(),
            final(self).same_identity(old(self)),
            final(self).storage@ == old(self).storage@,
            r == admission(timestamp as int, now as int, signature_ok, sender_id@, old(self).difficulty as nat),
            r.is_err() ==> final(self).routing_table@ == old(self).routing_table@,
            r.is_ok() ==> admitted(old(self).routing_table@, final(self).routing_table@, sender_id@, sender_addr@),
    {
        if (timestamp as i128) < (now as i128) - (SKEW as i128) || (timestamp as i128) > (now as i128) + (SKEW as i128) {
            return Err(RpcError::Stale);
        }
        if !signature_ok || !meets_difficulty(sender_id, self.difficulty) {
            return Err(RpcError::Unauthenticated);
        }
        let peer = NodeInfo::new(copy_bytes(sender_id), sender_addr.clone());
        let ghost p = peer;
        let ghost t0 = self.routing_table@;
        self.routing_table.add_node(peer);
        assert(self.routing_table@ == add_node_spec(t0, p).0);
        Ok(())
    }


    /// Merges peers learned from another node into the routing table, skipping this
    /// node itself and peers already known. Returns how many were inserted.
    pub fn update_routing_table(&mut self, nodes: Vec<NodeInfo>) -> (r: usize)
        requires
            old(self).wf(),
        ensures
            final(self).wf(),
            final(self).same_identity(old(self)),
            final(self).storage@ == old(self).storage@,
            (final(self).routing_table@, r as nat) == merge_nodes(old(self).routing_table@, nodes@),
    {
        let ghost t0 = self.routing_table@;
        let ghost all = nodes@;
        let mut nodes = nodes;
        let n0 = nodes.len();
        let mut counter: usize = 0;
        proof {
            lemma_merge_count(t0, all);
        }
        while nodes.len() > 0
            invariant
                self.wf(),
                self.same_identity(old(self)),
                self.storage@ == old(self).storage@,
                merge_nodes(t0, all).0 == merge_nodes(self.routing_table@, nodes@).0,
                merge_nodes(t0, all).1 == counter + merge_nodes(self.routing_table@, nodes@).1,
                merge_nodes(t0, all).1 <= all.len(),
                all.len() == n0,
            decreases nodes.len(),
        {
            let ghost rest = nodes@;
            let ghost t = self.routing_table@;
            let p = nodes.remove(0);
            assert(nodes@ =~= rest.drop_first());
            proof {
                lemma_merge_count(merge_step(t, rest[0]).0, nodes@);
            }
            if !bytes_equal(&p.id, &self.id) && !self.routing_table.contains(&p.id) {
                let o = self.routing_table.add_node(p);
                if o == AddOutcome::Inserted {
                    counter = counter + 1;
                }
            }
        }
        counter
    }

    /// PING: answers with this node's identifier, signed together with the request's
    /// timestamp.
    pub fn handle_ping(&mut self, request: &PingRequest, now: i64) -> (r: Result<PingResponse, RpcError>)
        requires
            old(self).wf(),
        ensures
            final(self).wf(),
            final(self).same_identity(old(self)),
            final(self).storage@ == old(self).storage@,
            ({
                let pk = request.sender_public_key@;
                let verdict = admission(
                    request.timestamp as int,
                    now as int,
                    ed25519_verifies(pk, ping_message(request.node_address@, request.timestamp as int), request.signature@),
                    sha256_of(pk),
                    old(self).difficulty as nat,
                );
                &&& r.is_ok() == verdict.is_ok()
                &&& r.is_err() ==> verdict == Err::<(), RpcError>(r->Err_0)
                &&& r.is_err() ==> final(self).routing_table@ == old(self).routing_table@
                &&& r.is_ok() ==> admitted(old(self).routing_table@, final(self).routing_table@, sha256_of(pk), request.node_address@)
                &&& r.is_ok() ==> r.unwrap().node_id@ == old(self).id@
                &&& r.is_ok() ==> r.unwrap().signature@ == ed25519_signature_of(
                    old(self).keypair.spec_pkcs8(),
                    pong_message(old(self).id@, request.timestamp as int),
                )
            }),
    {
        let message = ping_bytes(&request.node_address, request.timestamp);
        let signature_ok = crate::crypto::verify(&request.sender_public_key, &message, &request.signature).is_ok();
        let sender_id = sha256(&request.sender_public_key);
        match self.admit_sender(request.timestamp, now, signature_ok, &sender_id, &request.node_address) {
            Err(e) => Err(e),
            Ok(()) => {
                let pong = pong_bytes(&self.id, request.timestamp);
                let signature = self.keypair.sign(&pong);
                Ok(PingResponse { node_id: copy_bytes(&self.id), signature })
            },
        }
    }

    /// STORE: writes the value under the key, last writer winning.
    pub fn handle_store(&mut self, request: StoreRequest, sender_addr: &String, now: i64) -> (r: Result<StoreResponse, RpcError>)
        requires
            old(self).wf(),
        ensures
            final(self).wf(),
            final(self).same_identity(old(self)),
            ({
                let pk = request.sender_public_key@;
                let verdict = admission(
                    request.timestamp as int,
                    now as int,
                    ed25519_verifies(pk, store_message(request.key@, request.value@, request.timestamp as int), request.signature@),
                    sha256_of(pk),
                    old(self).difficulty as nat,
                );
                &&& r.is_ok() == verdict.is_ok()
                &&& r.is_err() ==> verdict == Err::<(), RpcError>(r->Err_0)
                &&& r.is_err() ==> final(self).routing_table@ == old(self).routing_table@
                &&& r.is_err() ==> final(self).storage@ == old(self).storage@
                &&& r.is_ok() ==> admitted(old(self).routing_table@, final(self).routing_table@, sha256_of(pk), sender_addr@)
                &&& r.is_ok() ==> final(self).storage@ == old(self).storage@.insert(request.key@, request.value@)
                &&& r.is_ok() ==> r.unwrap().ok
            }),
    {
        let message = store_bytes(&request.key, &request.value, request.timestamp);
        let signature_ok = crate::crypto::verify(&request.sender_public_key, &message, &request.signature).is_ok();
        let sender_id = sha256(&request.sender_public_key);
        match self.admit_sender(request.timestamp, now, signature_ok, &sender_id, sender_addr) {
            Err(e) => Err(e),
            Ok(()) => {
                self.storage.store(request.key, request.value);
                Ok(StoreResponse { ok: true })
            },
        }
    }

    /// FIND_NODE: the `k` closest known peers to the target. The requester's claimed
    /// identifier must be the digest of its key.
    pub fn handle_find_node(&mut self, request: &FindNodeRequest, now: i64) -> (r: Result<FindNodeResponse, RpcError>)
        requires
            old(self).wf(),
        ensures
            final(self).wf(),
            final(self).same_identity(old(self)),
            final(self).storage@ == old(self).storage@,
            ({
                let pk = request.sender_public_key@;
                let verdict = if !valid_id(request.target_node_id@) {
                    Err(RpcError::InvalidArgument)
                } else {
                    admission(
                        request.timestamp as int,
                        now as int,
                        ed25519_verifies(
                            pk,
                            find_node_message(
                                request.requester_node_id@,
                                request.requester_node_address@,
                                request.target_node_id@,
                                request.timestamp as int,
                            ),
                            request.signature@,
                        ) && request.requester_node_id@ == sha256_of(pk),
                        sha256_of(pk),
                        old(self).difficulty as nat,
                    )
                };
                &&& r.is_ok() == verdict.is_ok()
                &&& r.is_err() ==> verdict == Err::<(), RpcError>(r->Err_0)
                &&& r.is_err() ==> final(self).routing_table@ == old(self).routing_table@
                &&& r.is_ok() ==> admitted(old(self).routing_table@, final(self).routing_table@, sha256_of(pk), request.requester_node_address@)
                &&& r.is_ok() ==> closest_answer(
                    final(self).routing_table@,
                    request.target_node_id@,
                    final(self).routing_table@.k,
                    r.unwrap().nodes@,
                )
            }),
    {
        if request.target_node_id.len() != ID_LEN {
            return Err(RpcError::InvalidArgument);
        }
        let message = find_node_bytes(
            &request.requester_node_id,
            &request.requester_node_address,
            &request.target_node_id,
            request.timestamp,
        );
        let signature_ok = crate::crypto::verify(&request.sender_public_key, &message, &request.signature).is_ok();
        let sender_id = sha256(&request.sender_public_key);
        let claimed = bytes_equal(&request.requester_node_id, &sender_id);
        match self.admit_sender(request.timestamp, now, signature_ok && claimed, &sender_id, &request.requester_node_address) {
            Err(e) => Err(e),
            Ok(()) => {
                let k = self.routing_table.bucket_size();
                let nodes = self.routing_table.find_closest(&request.target_node_id, k);
                Ok(FindNodeResponse { nodes })
            },
        }
    }

    /// FIND_VALUE: the stored value when the key is present; otherwise the `k` closest
    /// known peers to the key's point in the identifier space.
    pub fn handle_find_value(&mut self, request: &FindValueRequest, sender_addr: &String, now: i64) -> (r: Result<FindValueResponse, RpcError>)
        requires
            old(self).wf(),
        ensures
            final(self).wf(),
            final(self).same_identity(old(self)),
            final(self).storage@ == old(self).storage@,
            ({
                let pk = request.sender_public_key@;
                let verdict = admission(
                    request.timestamp as int,
                    now as int,
                    ed25519_verifies(pk, find_value_message(request.key@, request.timestamp as int), request.signature@),
                    sha256_of(pk),
                    old(self).difficulty as nat,
                );
                let st = old(self).storage@;
                &&& r.is_ok() == verdict.is_ok()
                &&& r.is_err() ==> verdict == Err::<(), RpcError>(r->Err_0)
                &&& r.is_err() ==> final(self).routing_table@ == old(self).routing_table@
                &&& r.is_ok() ==> admitted(old(self).routing_table@, final(self).routing_table@, sha256_of(pk), sender_addr@)
                &&& r.is_ok() && st.contains_key(request.key@) ==> {
                    &&& r.unwrap().value.is_some()
                    &&& r.unwrap().value.unwrap()@ == st[request.key@]
                    &&& r.unwrap().nodes@.len() == 0
                }
                &&& r.is_ok() && !st.contains_key(request.key@) ==> {
                    &&& r.unwrap().value.is_none()
                    &&& closest_answer(
                        final(self).routing_table@,
                        key_target(request.key@),
                        final(self).routing_table@.k,
                        r.unwrap().nodes@,
                    )
                }
            }),
    {
        let message = find_value_bytes(&request.key, request.timestamp);
        let signature_ok = crate::crypto::verify(&request.sender_public_key, &message, &request.signature).is_ok();
        let sender_id = sha256(&request.sender_public_key);
        match self.admit_sender(request.timestamp, now, signature_ok, &sender_id, sender_addr) {
            Err(e) => Err(e),
            Ok(()) => {
                match self.storage.get(&request.key) {
                    Some(value) => Ok(FindValueResponse { value: Some(value), nodes: Vec::new() }),
                    None => {
                        let target = if request.key.len() == ID_LEN {
                            copy_bytes(&request.key)
                        } else {
                            sha256(&request.key)
                        };
                        let k = self.routing_table.bucket_size();
                        let nodes = self.routing_table.find_closest(&target, k);
                        Ok(FindValueResponse { value: None, nodes })
                    },
                }
            },
        }
    }
}

} // verus!
