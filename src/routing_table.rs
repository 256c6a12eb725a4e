//! The XOR-metric routing table: `ID_BITS` k-buckets, each ordered from the least
//! recently seen peer to the most recently seen one.
use vstd::prelude::*;
use crate::node_id::{
    bucket_index, bucket_index_of, compare_distance, id_bit, lemma_bucket_index_is_first_differing_bit, lemma_distance_order_antisym,
    lemma_no_farther_trans, no_farther, valid_id, ID_BITS, ID_LEN, distance_order,
    lemma_distinct_ids_distinct_distances,
};

verus! {

/// A known peer: its identifier and the address it can be reached at.
#[derive(Clone, Debug)]
pub struct NodeInfo {
    pub id: Vec<u8>,
    pub addr: String,
}

/// Two records describe the same peer at the same address.
pub open spec fn same_peer(a: NodeInfo, b: NodeInfo) -> bool {
    a.id@ == b.id@ && a.addr@ == b.addr@
}

/// Whether two byte strings are equal.
pub fn bytes_equal(a: &Vec<u8>, b: &Vec<u8>) -> (r: bool)
    ensures
        r == (a@ == b@),
{
    if a.len() != b.len() {
        return false;
    }
    let mut i: usize = 0;
    while i < a.len()
        invariant
            i <= a@.len(),
            a@.len() == b@.len(),
            a@.subrange(0, i as int) =~= b@.subrange(0, i as int),
        decreases a.len() - i,
    {
        if a[i] != b[i] {
            return false;
        }
        assert(a@.subrange(0, i + 1) =~= a@.subrange(0, i as int).push(a@[i as int]));
        assert(b@.subrange(0, i + 1) =~= b@.subrange(0, i as int).push(b@[i as int]));
        i += 1;
    }
    assert(a@ =~= a@.subrange(0, a@.len() as int));
    assert(b@ =~= b@.subrange(0, b@.len() as int));
    true
}

/// Copies a byte string.
pub fn copy_bytes(a: &Vec<u8>) -> (r: Vec<u8>)
    ensures
        r@ == a@,
{
    let mut r: Vec<u8> = Vec::with_capacity(a.len());
    let mut i: usize = 0;
    while i < a.len()
        invariant
            i <= a@.len(),
            r@ == a@.subrange(0, i as int),
        decreases a.len() - i,
    {
        r.push(a[i]);
        assert(a@.subrange(0, i + 1) =~= a@.subrange(0, i as int).push(a@[i as int]));
        i += 1;
    }
    assert(a@ =~= a@.subrange(0, a@.len() as int));
    r
}

impl NodeInfo {
    pub fn new(id: Vec<u8>, addr: String) -> (r: Self)
        ensures
            r.id == id,
            r.addr == addr,
    {
        NodeInfo { id, addr }
    }

    /// A copy of this record.
    pub fn duplicate(&self) -> (r: Self)
        ensures
            same_peer(r, *self),
    {
        NodeInfo { id: copy_bytes(&self.id), addr: self.addr.clone() }
    }
}

/// What `add_node` did with a peer.
#[derive(Clone, Copy, Debug, PartialEq, Eq, Structural)]
pub enum AddOutcome {
    /// Not a well-formed identifier, or the table owner's own identifier.
    Rejected,
    /// Appended at the tail of its bucket.
    Inserted,
    /// Already known: moved to the tail of its bucket.
    Refreshed,
    /// New, but its bucket already holds `k` peers: dropped.
    BucketFull,
}

/// Mathematical model of a routing table.
pub struct TableView {
    /// The owner's identifier.
    pub own: Seq<u8>,
    /// Capacity of each bucket.
    pub k: nat,
    /// The buckets, least recently seen peer first.
    pub buckets: Seq<Seq<NodeInfo>>,
}

/// The routing table of one node.
pub struct RoutingTable {
    own_id: Vec<u8>,
    k: usize,
    buckets: Vec<Vec<NodeInfo>>,
}

impl View for RoutingTable {
    type V = TableView;

    closed spec fn view(&self) -> TableView {
        TableView {
            own: self.own_id@,
            k: self.k as nat,
            buckets: self.buckets@.map_values(|b: Vec<NodeInfo>| b@),
        }
    }
}

/// The table's invariant: every peer sits in the bucket its identifier selects, is
/// not the owner, buckets hold at most `k` peers, and no identifier repeats in a bucket.
pub open spec fn table_wf(t: TableView) -> bool {
    &&& valid_id(t.own)
    &&& t.buckets.len() == ID_BITS
    &&& t.k * ID_BITS <= usize::MAX
    &&& forall|i: int| 0 <= i < ID_BITS ==> #[trigger] t.buckets[i].len() <= t.k
    &&& forall|i: int, j: int|
        0 <= i < ID_BITS && 0 <= j < t.buckets[i].len() ==> {
            let id = (#[trigger] t.buckets[i][j]).id@;
            valid_id(id) && id != t.own && bucket_index_of(id, t.own) == i
        }
    &&& forall|i: int, j1: int, j2: int|
        0 <= i < ID_BITS && 0 <= j1 < t.buckets[i].len() && 0 <= j2 < t.buckets[i].len() && j1
            != j2 ==> (#[trigger] t.buckets[i][j1]).id@ != (#[trigger] t.buckets[i][j2]).id@
}

/// Position of the last entry of `b` with identifier `id`, or -1.
pub open spec fn index_of_id(b: Seq<NodeInfo>, id: Seq<u8>) -> int
    decreases b.len(),
{
    if b.len() == 0 {
        -1
    } else if b.last().id@ == id {
        b.len() - 1
    } else {
        index_of_id(b.drop_last(), id)
    }
}

/// Whether the table holds a peer with identifier `id`.
pub open spec fn table_contains(t: TableView, id: Seq<u8>) -> bool {
    valid_id(id) && id != t.own && index_of_id(t.buckets[bucket_index_of(id, t.own) as int], id)
        >= 0
}

/// The table after `add_node(p)`, and what `add_node` reports. A known peer moves to
/// the tail; a new one is appended when its bucket has room and dropped otherwise.
pub open spec fn add_node_spec(t: TableView, p: NodeInfo) -> (TableView, AddOutcome) {
    if !valid_id(p.id@) || p.id@ == t.own {
        (t, AddOutcome::Rejected)
    } else {
        let i = bucket_index_of(p.id@, t.own) as int;
        let b = t.buckets[i];
        let j = index_of_id(b, p.id@);
        if j >= 0 {
            (
                TableView { own: t.own, k: t.k, buckets: t.buckets.update(i, b.remove(j).push(b[j])) },
                AddOutcome::Refreshed,
            )
        } else if b.len() < t.k {
            (
                TableView { own: t.own, k: t.k, buckets: t.buckets.update(i, b.push(p)) },
                AddOutcome::Inserted,
            )
        } else {
            (t, AddOutcome::BucketFull)
        }
    }
}

/// The table after the ping-head policy settled the addition of `p`: when `p` fits
/// (known, or room in its bucket) it is added as `add_node` would; when its bucket is
/// full, a head that answered its PING moves to the tail and `p` is dropped, while a
/// silent head is evicted and `p` appended at the tail.
pub open spec fn resolve_full_spec(t: TableView, p: NodeInfo, head_alive: bool) -> (TableView, AddOutcome) {
    let (t1, o) = add_node_spec(t, p);
    if o != AddOutcome::BucketFull {
        (t1, o)
    } else {
        let i = bucket_index_of(p.id@, t.own) as int;
        let b = t.buckets[i];
        if b.len() == 0 {
            (t, AddOutcome::BucketFull)
        } else if head_alive {
            (
                TableView { own: t.own, k: t.k, buckets: t.buckets.update(i, b.drop_first().push(b[0])) },
                AddOutcome::BucketFull,
            )
        } else {
            (
                TableView { own: t.own, k: t.k, buckets: t.buckets.update(i, b.drop_first().push(p)) },
                AddOutcome::Inserted,
            )
        }
    }
}

/// The peers of buckets `0..n`, bucket by bucket.
pub open spec fn flatten_buckets(bs: Seq<Seq<NodeInfo>>, n: nat) -> Seq<NodeInfo>
    decreases n,
{
    if n == 0 {
        Seq::empty()
    } else {
        flatten_buckets(bs, (n - 1) as nat) + bs[n - 1]
    }
}

/// Every peer of the table, bucket by bucket.
pub open spec fn all_peers(t: TableView) -> Seq<NodeInfo> {
    flatten_buckets(t.buckets, t.buckets.len())
}

/// No identifier occurs twice.
pub open spec fn distinct_ids(s: Seq<NodeInfo>) -> bool {
    forall|a: int, b: int|
        0 <= a < s.len() && 0 <= b < s.len() && a != b ==> (#[trigger] s[a]).id@ != (
        #[trigger] s[b]).id@
}

/// `s` holds a record of the same peer as `p`.
pub open spec fn holds_peer(s: Seq<NodeInfo>, p: NodeInfo) -> bool {
    exists|j: int| 0 <= j < s.len() && same_peer(#[trigger] s[j], p)
}

/// `r` is the answer to a closest-peers query: up to `count` peers of the table, each
/// once, in strictly ascending XOR distance to `target`, and no peer left out is
/// closer than one taken.
pub open spec fn closest_answer(t: TableView, target: Seq<u8>, count: nat, r: Seq<NodeInfo>) -> bool {
    let all = all_peers(t);
    &&& r.len() == if count < all.len() { count } else { all.len() }
    &&& forall|i: int| 0 <= i < r.len() ==> holds_peer(all, #[trigger] r[i])
    &&& distinct_ids(r)
    &&& forall|i: int, j: int|
        0 <= i < j < r.len() ==> distance_order((#[trigger] r[i]).id@, (#[trigger] r[j]).id@, target) < 0
    &&& forall|x: int|
        0 <= x < all.len() ==> holds_peer(r, #[trigger] all[x]) || (forall|i: int|
            0 <= i < r.len() ==> no_farther((#[trigger] r[i]).id@, all[x].id@, target))
}

proof fn lemma_index_of_id(b: Seq<NodeInfo>, id: Seq<u8>)
    ensures
        index_of_id(b, id) >= -1,
        index_of_id(b, id) < b.len(),
        index_of_id(b, id) >= 0 ==> b[index_of_id(b, id)].id@ == id,
        index_of_id(b, id) == -1 ==> forall|j: int| 0 <= j < b.len() ==> (#[trigger] b[j]).id@ != id,
    decreases b.len(),
{
    if b.len() > 0 {
        lemma_index_of_id(b.drop_last(), id);
        if b.last().id@ != id {
            assert forall|j: int| 0 <= j < b.len() - 1 implies b[j] == b.drop_last()[j] by {}
        }
    }
}

proof fn lemma_flatten_len(bs: Seq<Seq<NodeInfo>>, n: nat, cap: nat)
    requires
        n <= bs.len(),
        forall|i: int| 0 <= i < n ==> #[trigger] bs[i].len() <= cap,
    ensures
        flatten_buckets(bs, n).len() <= n * cap,
    decreases n,
{
    if n > 0 {
        lemma_flatten_len(bs, (n - 1) as nat, cap);
        assert((n - 1) * cap + cap == n * cap) by (nonlinear_arith);
    }
}

proof fn lemma_flatten_buckets(t: TableView, n: nat)
    requires
        table_wf(t),
        n <= ID_BITS,
    ensures
        distinct_ids(flatten_buckets(t.buckets, n)),
        forall|x: int|
            0 <= x < flatten_buckets(t.buckets, n).len() ==> {
                let id = (#[trigger] flatten_buckets(t.buckets, n)[x]).id@;
                valid_id(id) && id != t.own && bucket_index_of(id, t.own) < n
            },
    decreases n,
{
    if n > 0 {
        let m = (n - 1) as nat;
        lemma_flatten_buckets(t, m);
        let f = flatten_buckets(t.buckets, m);
        let b = t.buckets[m as int];
        let s = flatten_buckets(t.buckets, n);
        assert(s == f + b);
        assert forall|x: int| 0 <= x < s.len() implies {
            let id = (#[trigger] s[x]).id@;
            valid_id(id) && id != t.own && bucket_index_of(id, t.own) < n
        } by {
            if x >= f.len() {
                assert(s[x] == b[x - f.len()]);
            } else {
                assert(s[x] == f[x]);
            }
        }
        assert forall|a: int, c: int|
            0 <= a < s.len() && 0 <= c < s.len() && a != c implies (#[trigger] s[a]).id@ != (
            #[trigger] s[c]).id@ by {
            if a < f.len() && c < f.len() {
                assert(s[a] == f[a] && s[c] == f[c]);
            } else if a >= f.len() && c >= f.len() {
                assert(s[a] == b[a - f.len()] && s[c] == b[c - f.len()]);
            } else if a < f.len() {
                assert(s[a] == f[a] && s[c] == b[c - f.len()]);
            } else {
                assert(s[c] == f[c] && s[a] == b[a - f.len()]);
            }
        }
    }
}


/// Every bucket of a well-formed table holds at most `k` peers, pairwise distinct by
/// identifier, and no identifier occurs in two places of the table.
pub proof fn lemma_buckets_bounded_and_distinct(t: TableView, i: int)
    requires
        table_wf(t),
        0 <= i < ID_BITS,
    ensures
        t.buckets[i].len() <= t.k,
        distinct_ids(t.buckets[i]),
        distinct_ids(all_peers(t)),
{
    lemma_flatten_buckets(t, ID_BITS as nat);
    let b = t.buckets[i];
    assert forall|a: int, c: int| 0 <= a < b.len() && 0 <= c < b.len() && a != c implies (
    #[trigger] b[a]).id@ != (#[trigger] b[c]).id@ by {
        assert(t.buckets[i][a].id@ != t.buckets[i][c].id@);
    }
}

/// Every peer of a well-formed table sits in the bucket numbered by the highest-order
/// bit at which its identifier differs from the owner's: all earlier bits agree.
pub proof fn lemma_peer_bucket_is_first_differing_bit(t: TableView, i: int, j: int)
    requires
        table_wf(t),
        0 <= i < ID_BITS,
        0 <= j < t.buckets[i].len(),
    ensures
        ({
            let id = t.buckets[i][j].id@;
            &&& forall|b: nat| b < i ==> #[trigger] id_bit(id, b) == id_bit(t.own, b)
            &&& id_bit(id, i as nat) != id_bit(t.own, i as nat)
        }),
{
    let id = t.buckets[i][j].id@;
    assert(valid_id(id) && id != t.own && bucket_index_of(id, t.own) == i);
    lemma_bucket_index_is_first_differing_bit(id, t.own);
}

/// Adding a peer whose identifier is the owner's leaves the table as it is; and no
/// table holds its owner.
pub proof fn lemma_own_id_never_inserted(t: TableView, p: NodeInfo)
    requires
        table_wf(t),
        p.id@ == t.own,
    ensures
        add_node_spec(t, p) == (t, AddOutcome::Rejected),
        !table_contains(t, t.own),
        forall|i: int, j: int|
            0 <= i < ID_BITS && 0 <= j < t.buckets[i].len() ==> (#[trigger] t.buckets[i][j]).id@
                != t.own,
{
}

/// Adding the same peer twice, where the first addition took it in, leaves exactly one
/// entry for it, at the tail of its bucket.
pub proof fn lemma_add_twice(t: TableView, p: NodeInfo)
    requires
        table_wf(t),
        add_node_spec(t, p).1 == AddOutcome::Inserted || add_node_spec(t, p).1
            == AddOutcome::Refreshed,
    ensures
        ({
            let t1 = add_node_spec(t, p).0;
            let t2 = add_node_spec(t1, p).0;
            let b = t2.buckets[bucket_index_of(p.id@, t.own) as int];
            &&& add_node_spec(t1, p).1 == AddOutcome::Refreshed
            &&& t2 == t1
            &&& table_contains(t1, p.id@)
            &&& b.len() > 0
            &&& b.last().id@ == p.id@
            &&& forall|j: int| 0 <= j < b.len() - 1 ==> (#[trigger] b[j]).id@ != p.id@
            &&& forall|i: int| 0 <= i < ID_BITS && i != bucket_index_of(p.id@, t.own) ==> #[trigger] t2.buckets[i] == t.buckets[i]
        }),
{
    lemma_bucket_index_is_first_differing_bit(p.id@, t.own);
    let i = bucket_index_of(p.id@, t.own) as int;
    let t1 = add_node_spec(t, p).0;
    let b0 = t.buckets[i];
    let b1 = t1.buckets[i];
    lemma_index_of_id(b0, p.id@);
    // the first addition leaves the peer last in its bucket and nowhere else in it
    assert(b1.len() > 0 && b1.last().id@ == p.id@);
    assert forall|j: int| 0 <= j < b1.len() - 1 implies (#[trigger] b1[j]).id@ != p.id@ by {
        if add_node_spec(t, p).1 == AddOutcome::Refreshed {
            let q = index_of_id(b0, p.id@);
            if j < q {
                assert(b1[j] == b0[j]);
                assert(t.buckets[i][j].id@ != t.buckets[i][q].id@);
            } else {
                assert(b1[j] == b0[j + 1]);
                assert(t.buckets[i][j + 1].id@ != t.buckets[i][q].id@);
            }
        } else {
            assert(b1[j] == b0[j]);
        }
    }
    assert(index_of_id(b1, p.id@) == b1.len() - 1);
    assert(b1.remove(b1.len() - 1).push(b1[b1.len() - 1]) =~= b1);
    assert(t1.buckets.update(i, b1) =~= t1.buckets);
}

/// With the drop-new policy, a new peer whose bucket already holds `k` peers leaves the
/// table unchanged.
pub proof fn lemma_full_bucket_drops_new_peer(t: TableView, p: NodeInfo)
    requires
        table_wf(t),
        valid_id(p.id@),
        p.id@ != t.own,
        !table_contains(t, p.id@),
        t.buckets[bucket_index_of(p.id@, t.own) as int].len() >= t.k,
    ensures
        add_node_spec(t, p) == (t, AddOutcome::BucketFull),
{
}

/// Position of the entry with identifier `id` in `b`, searching from the tail.
fn position_in_bucket(b: &Vec<NodeInfo>, id: &Vec<u8>) -> (r: Option<usize>)
    ensures
        index_of_id(b@, id@) == match r {
            Some(j) => j as int,
            None => -1,
        },
{
    let mut j: usize = b.len();
    assert(b@.subrange(0, j as int) =~= b@);
    while j > 0
        invariant
            j <= b@.len(),
            index_of_id(b@, id@) == index_of_id(b@.subrange(0, j as int), id@),
        decreases j,
    {
        let ghost s = b@.subrange(0, j as int);
        assert(s.drop_last() =~= b@.subrange(0, j - 1));
        if bytes_equal(&b[j - 1].id, id) {
            return Some(j - 1);
        }
        j -= 1;
    }
    None
}


/// Index of a peer of `cands` at least as close to `target` as every other one.
fn closest_index(cands: &Vec<NodeInfo>, target: &Vec<u8>) -> (m: usize)
    requires
        cands@.len() > 0,
        valid_id(target@),
        forall|c: int| 0 <= c < cands@.len() ==> valid_id((#[trigger] cands@[c]).id@),
    ensures
        m < cands@.len(),
        forall|c: int|
            0 <= c < cands@.len() ==> no_farther(cands@[m as int].id@, (#[trigger] cands@[c]).id@, target@),
{
    let mut best: usize = 0;
    let mut i: usize = 1;
    proof {
        lemma_distance_order_antisym(cands@[0].id@, cands@[0].id@, target@);
    }
    while i < cands.len()
        invariant
            1 <= i <= cands@.len(),
            best < i,
            valid_id(target@),
            forall|c: int| 0 <= c < cands@.len() ==> valid_id((#[trigger] cands@[c]).id@),
            forall|c: int|
                0 <= c < i ==> no_farther(cands@[best as int].id@, (#[trigger] cands@[c]).id@, target@),
        decreases cands.len() - i,
    {
        let o = compare_distance(&cands[i].id, &cands[best].id, target);
        proof {
            lemma_distance_order_antisym(cands@[i as int].id@, cands@[best as int].id@, target@);
            lemma_distance_order_antisym(cands@[i as int].id@, cands@[i as int].id@, target@);
        }
        if o < 0 {
            proof {
                assert forall|c: int| 0 <= c < i + 1 implies no_farther(
                    cands@[i as int].id@,
                    (#[trigger] cands@[c]).id@,
                    target@,
                ) by {
                    if c < i {
                        lemma_no_farther_trans(
                            cands@[i as int].id@,
                            cands@[best as int].id@,
                            cands@[c].id@,
                            target@,
                        );
                    }
                }
            }
            best = i;
        }
        i += 1;
    }
    best
}

impl RoutingTable {
    /// An empty table owned by `own_id`, with buckets of capacity `k`.
    pub fn new(own_id: Vec<u8>, k: usize) -> (r: Self)
        requires
            valid_id(own_id@),
            k * ID_BITS <= usize::MAX,
        ensures
            r.wf(),
            table_wf(r@),
            r@.own == own_id@,
            r@.k == k,
            r@.buckets == Seq::new(ID_BITS as nat, |i: int| Seq::<NodeInfo>::empty()),
    {
        let mut buckets: Vec<Vec<NodeInfo>> = Vec::new();
        let mut i: usize = 0;
        while i < ID_BITS
            invariant
                i <= ID_BITS,
                buckets@.len() == i,
                forall|x: int| 0 <= x < i ==> (#[trigger] buckets@[x])@ == Seq::<NodeInfo>::empty(),
            decreases ID_BITS - i,
        {
            buckets.push(Vec::new());
            i += 1;
        }
        let r = RoutingTable { own_id, k, buckets };
        assert(r@.buckets =~= Seq::new(ID_BITS as nat, |i: int| Seq::<NodeInfo>::empty()));
        r
    }

    pub closed spec fn wf(&self) -> bool {
        &&& table_wf(self@)
        &&& self.buckets@.len() == ID_BITS
    }

    /// A well-formed table satisfies `table_wf`: bucket indices, capacity, distinct ids.
    pub proof fn lemma_wf(&self)
        requires
            self.wf(),
        ensures
            table_wf(self@),
    {
    }

    /// The owner's identifier.
    pub fn own_id(&self) -> (r: &Vec<u8>)
        ensures
            r@ == self@.own,
    {
        &self.own_id
    }

    /// Capacity of each bucket.
    pub fn bucket_size(&self) -> (r: usize)
        ensures
            r == self@.k,
    {
        self.k
    }

    /// The peers of bucket `i`, least recently seen first.
    pub fn bucket(&self, i: usize) -> (r: &Vec<NodeInfo>)
        requires
            self.wf(),
            i < ID_BITS,
        ensures
            r@ == self@.buckets[i as int],
    {
        &self.buckets[i]
    }

    /// Whether a peer with identifier `id` is in the table.
    pub fn contains(&self, id: &Vec<u8>) -> (r: bool)
        requires
            self.wf(),
        ensures
            r == table_contains(self@, id@),
    {
        if id.len() != ID_LEN || bytes_equal(id, &self.own_id) {
            return false;
        }
        let i = bucket_index(id, &self.own_id);
        let pos = position_in_bucket(&self.buckets[i], id);
        pos.is_some()
    }

    /// Inserts or refreshes `peer`. A known peer moves to the tail of its bucket; a new
    /// one is appended when its bucket has room; otherwise the new peer is dropped.
    /// The owner's own identifier is never inserted.
    pub fn add_node(&mut self, peer: NodeInfo) -> (r: AddOutcome)
        requires
            old(self).wf(),
        ensures
            final(self).wf(),
            table_wf(final(self)@),
            (final(self)@, r) == add_node_spec(old(self)@, peer),
    {
        if peer.id.len() != ID_LEN || bytes_equal(&peer.id, &self.own_id) {
            return AddOutcome::Rejected;
        }
        let ghost t = self@;
        let i = bucket_index(&peer.id, &self.own_id);
        let pos = position_in_bucket(&self.buckets[i], &peer.id);
        let mut b = self.buckets.remove(i);
        let ghost b0 = b@;
        proof {
            lemma_index_of_id(b0, peer.id@);
        }
        let outcome = match pos {
            Some(j) => {
                let e = b.remove(j);
                b.push(e);
                AddOutcome::Refreshed
            },
            None => {
                if b.len() < self.k {
                    b.push(peer);
                    AddOutcome::Inserted
                } else {
                    AddOutcome::BucketFull
                }
            },
        };
        let ghost b1 = b@;
        self.buckets.insert(i, b);
        proof {
            assert(self.buckets@ =~= old(self).buckets@.update(i as int, self.buckets@[i as int]));
            assert(self@.buckets =~= t.buckets.update(i as int, b1));
            let s = add_node_spec(t, peer);
            if outcome == AddOutcome::BucketFull {
                assert(b1 =~= b0);
                assert(self@.buckets =~= t.buckets);
            }
            assert(self@.buckets =~= s.0.buckets);
            assert forall|j1: int, j2: int|
                0 <= j1 < b1.len() && 0 <= j2 < b1.len() && j1 != j2 implies b1[j1].id@
                != b1[j2].id@ by {
                if outcome == AddOutcome::Refreshed {
                    let j = pos.unwrap() as int;
                    assert(b1 == b0.remove(j).push(b0[j]));
                    if j1 == b1.len() - 1 {
                        assert(b1[j2] == b0.remove(j)[j2]);
                        if j2 < j {
                            assert(b1[j2] == b0[j2]);
                        } else {
                            assert(b1[j2] == b0[j2 + 1]);
                        }
                    } else if j2 == b1.len() - 1 {
                        if j1 < j {
                            assert(b1[j1] == b0[j1]);
                        } else {
                            assert(b1[j1] == b0[j1 + 1]);
                        }
                    } else {
                        let a1 = if j1 < j { j1 } else { j1 + 1 };
                        let a2 = if j2 < j { j2 } else { j2 + 1 };
                        assert(b1[j1] == b0[a1] && b1[j2] == b0[a2]);
                    }
                } else if outcome == AddOutcome::Inserted {
                    if j1 < b0.len() && j2 < b0.len() {
                        assert(b1[j1] == b0[j1] && b1[j2] == b0[j2]);
                    } else if j1 < b0.len() {
                        assert(b1[j1] == b0[j1]);
                    } else {
                        assert(b1[j2] == b0[j2]);
                    }
                }
            }
            assert forall|j: int| 0 <= j < b1.len() implies {
                let id = (#[trigger] b1[j]).id@;
                valid_id(id) && id != t.own && bucket_index_of(id, t.own) == i
            } by {
                if outcome == AddOutcome::Refreshed {
                    let p = pos.unwrap() as int;
                    if j < b1.len() - 1 {
                        if j < p {
                            assert(b1[j] == b0[j]);
                        } else {
                            assert(b1[j] == b0[j + 1]);
                        }
                    }
                } else if j < b0.len() {
                    assert(b1[j] == b0[j]);
                }
            }
        }
        outcome
    }

    /// Adds `peer` under the ping-head policy, given whether the head of its bucket
    /// answered a PING: see `resolve_full_spec`.
    pub fn resolve_full_bucket(&mut self, peer: NodeInfo, head_alive: bool) -> (r: AddOutcome)
        requires
            old(self).wf(),
        ensures
            final(self).wf(),
            table_wf(final(self)@),
            (final(self)@, r) == resolve_full_spec(old(self)@, peer, head_alive),
    {
        if peer.id.len() != ID_LEN || bytes_equal(&peer.id, &self.own_id) {
            return self.add_node(peer);
        }
        let i = bucket_index(&peer.id, &self.own_id);
        let pos = position_in_bucket(&self.buckets[i], &peer.id);
        if pos.is_some() || self.buckets[i].len() < self.k || self.buckets[i].len() == 0 {
            return self.add_node(peer);
        }
        let ghost t = self@;
        let mut b = self.buckets.remove(i);
        let ghost b0 = b@;
        proof {
            lemma_index_of_id(b0, peer.id@);
        }
        let head = b.remove(0);
        let ghost rest = b@;
        assert(rest =~= b0.drop_first());
        let outcome = if head_alive {
            b.push(head);
            AddOutcome::BucketFull
        } else {
            b.push(peer);
            AddOutcome::Inserted
        };
        let ghost b1 = b@;
        self.buckets.insert(i, b);
        proof {
            assert(self.buckets@ =~= old(self).buckets@.update(i as int, self.buckets@[i as int]));
            assert(self@.buckets =~= t.buckets.update(i as int, b1));
            assert forall|j: int| 0 <= j < b1.len() - 1 implies b1[j] == b0[j + 1] by {}
            assert forall|j1: int, j2: int|
                0 <= j1 < b1.len() && 0 <= j2 < b1.len() && j1 != j2 implies b1[j1].id@
                != b1[j2].id@ by {
                if j1 < b1.len() - 1 && j2 < b1.len() - 1 {
                    assert(b1[j1] == b0[j1 + 1] && b1[j2] == b0[j2 + 1]);
                } else if j1 < b1.len() - 1 {
                    assert(b1[j1] == b0[j1 + 1]);
                    if head_alive {
                        assert(b1[j2] == b0[0]);
                    }
                } else {
                    assert(b1[j2] == b0[j2 + 1]);
                    if head_alive {
                        assert(b1[j1] == b0[0]);
                    }
                }
            }
            assert forall|j: int| 0 <= j < b1.len() implies {
                let id = (#[trigger] b1[j]).id@;
                valid_id(id) && id != t.own && bucket_index_of(id, t.own) == i
            } by {
                if j < b1.len() - 1 {
                    assert(b1[j] == b0[j + 1]);
                } else if head_alive {
                    assert(b1[j] == b0[0]);
                }
            }
        }
        outcome
    }

    /// A copy of every peer of the table, bucket by bucket.
    fn collect_peers(&self) -> (r: Vec<NodeInfo>)
        requires
            self.wf(),
        ensures
            r@.len() == all_peers(self@).len(),
            forall|x: int| 0 <= x < r@.len() ==> same_peer(#[trigger] r@[x], all_peers(self@)[x]),
    {
        let ghost bs = self@.buckets;
        let mut out: Vec<NodeInfo> = Vec::new();
        let mut i: usize = 0;
        while i < ID_BITS
            invariant
                self.wf(),
                bs == self@.buckets,
                i <= ID_BITS,
                out@.len() == flatten_buckets(bs, i as nat).len(),
                forall|x: int|
                    0 <= x < out@.len() ==> same_peer(#[trigger] out@[x], flatten_buckets(bs, i as nat)[x]),
            decreases ID_BITS - i,
        {
            let b = &self.buckets[i];
            assert(b@ == bs[i as int]);
            let ghost f = flatten_buckets(bs, i as nat);
            let mut j: usize = 0;
            while j < b.len()
                invariant
                    j <= b@.len(),
                    f == flatten_buckets(bs, i as nat),
                    out@.len() == f.len() + j,
                    forall|x: int|
                        0 <= x < out@.len() ==> same_peer(#[trigger] out@[x], (f + b@)[x]),
                decreases b.len() - j,
            {
                let d = b[j].duplicate();
                out.push(d);
                j += 1;
            }
            assert(flatten_buckets(bs, (i + 1) as nat) == f + b@);
            i += 1;
        }
        out
    }

    /// Number of peers in the table.
    pub fn len(&self) -> (r: usize)
        requires
            self.wf(),
        ensures
            r == all_peers(self@).len(),
    {
        let ghost bs = self@.buckets;
        let mut n: usize = 0;
        let mut i: usize = 0;
        while i < ID_BITS
            invariant
                self.wf(),
                bs == self@.buckets,
                i <= ID_BITS,
                n == flatten_buckets(bs, i as nat).len(),
            decreases ID_BITS - i,
        {
            proof {
                lemma_flatten_len(bs, (i + 1) as nat, self@.k);
                assert((i + 1) * self@.k <= ID_BITS * self@.k) by (nonlinear_arith)
                    requires i + 1 <= ID_BITS;
            }
            n = n + self.buckets[i].len();
            i += 1;
        }
        n
    }

    /// The peer at position `pick` (taken modulo the number of peers) of the table,
    /// bucket by bucket, or `None` when the table is empty. Fed a uniformly drawn
    /// `pick`, this picks a peer uniformly.
    pub fn random_node(&self, pick: usize) -> (r: Option<NodeInfo>)
        requires
            self.wf(),
        ensures
            all_peers(self@).len() == 0 <==> r.is_none(),
            r.is_some() ==> same_peer(
                r.unwrap(),
                all_peers(self@)[(pick as int) % (all_peers(self@).len() as int)],
            ),
    {
        let peers = self.collect_peers();
        if peers.len() == 0 {
            None
        } else {
            let x = pick % peers.len();
            Some(peers[x].duplicate())
        }
    }

    /// Up to `count` peers closest to `target` by XOR distance, closest first.
    pub fn find_closest(&self, target: &Vec<u8>, count: usize) -> (r: Vec<NodeInfo>)
        requires
            self.wf(),
            valid_id(target@),
        ensures
            closest_answer(self@, target@, count as nat, r@),
    {
        let ghost all = all_peers(self@);
        let mut cands = self.collect_peers();
        proof {
            lemma_flatten_buckets(self@, ID_BITS as nat);
            assert forall|x: int| 0 <= x < all.len() implies holds_peer(cands@, #[trigger] all[x]) by {
                assert(same_peer(cands@[x], all[x]));
            }
            assert forall|c: int| 0 <= c < cands@.len() implies holds_peer(all, #[trigger] cands@[c]) by {
                assert(same_peer(all[c], cands@[c]));
            }
        }
        let mut res: Vec<NodeInfo> = Vec::new();
        while res.len() < count && cands.len() > 0
            invariant
                valid_id(target@),
                distinct_ids(all),
                forall|x: int| 0 <= x < all.len() ==> valid_id((#[trigger] all[x]).id@),
                res@.len() + cands@.len() == all.len(),
                res@.len() <= count,
                forall|i: int| 0 <= i < res@.len() ==> holds_peer(all, #[trigger] res@[i]),
                forall|c: int| 0 <= c < cands@.len() ==> holds_peer(all, #[trigger] cands@[c]),
                forall|x: int|
                    0 <= x < all.len() ==> holds_peer(res@, #[trigger] all[x]) || holds_peer(cands@, all[x]),
                distinct_ids(res@),
                distinct_ids(cands@),
                forall|i: int, c: int|
                    0 <= i < res@.len() && 0 <= c < cands@.len() ==> (#[trigger] res@[i]).id@ != (
                    #[trigger] cands@[c]).id@,
                forall|i: int, j: int|
                    0 <= i < j < res@.len() ==> no_farther(
                        (#[trigger] res@[i]).id@,
                        (#[trigger] res@[j]).id@,
                        target@,
                    ),
                forall|i: int, c: int|
                    0 <= i < res@.len() && 0 <= c < cands@.len() ==> no_farther(
                        (#[trigger] res@[i]).id@,
                        (#[trigger] cands@[c]).id@,
                        target@,
                    ),
            decreases cands.len(),
        {
            proof {
                assert forall|c: int| 0 <= c < cands@.len() implies valid_id((#[trigger] cands@[c]).id@) by {
                    let x = choose|x: int| 0 <= x < all.len() && same_peer(#[trigger] all[x], cands@[c]);
                }
            }
            let m = closest_index(&cands, target);
            let ghost c0 = cands@;
            let ghost r0 = res@;
            let p = cands.remove(m);
            res.push(p);
            proof {
                let c1 = cands@;
                let r1 = res@;
                assert(c1 == c0.remove(m as int));
                assert(r1 == r0.push(c0[m as int]));
                assert forall|c: int| 0 <= c < c1.len() implies c1[c] == c0[if c < m { c } else { c + 1 }] by {}
                assert forall|x: int| 0 <= x < all.len() implies holds_peer(r1, #[trigger] all[x])
                    || holds_peer(c1, all[x]) by {
                    if holds_peer(r0, all[x]) {
                        let i = choose|i: int| 0 <= i < r0.len() && same_peer(#[trigger] r0[i], all[x]);
                        assert(r1[i] == r0[i]);
                    } else {
                        let c = choose|c: int| 0 <= c < c0.len() && same_peer(#[trigger] c0[c], all[x]);
                        if c == m {
                            assert(r1[r0.len() as int] == c0[c]);
                        } else if c < m {
                            assert(c1[c] == c0[c]);
                        } else {
                            assert(c1[c - 1] == c0[c]);
                        }
                    }
                }
                assert forall|i: int| 0 <= i < r1.len() implies holds_peer(all, #[trigger] r1[i]) by {
                    if i < r0.len() {
                        assert(r1[i] == r0[i]);
                    } else {
                        assert(r1[i] == c0[m as int]);
                    }
                }
                assert forall|c: int| 0 <= c < c1.len() implies holds_peer(all, #[trigger] c1[c]) by {
                    assert(c1[c] == c0[if c < m { c } else { c + 1 }]);
                }
                assert forall|a: int, b: int|
                    0 <= a < c1.len() && 0 <= b < c1.len() && a != b implies (#[trigger] c1[a]).id@
                    != (#[trigger] c1[b]).id@ by {
                    assert(c1[a] == c0[if a < m { a } else { a + 1 }]);
                    assert(c1[b] == c0[if b < m { b } else { b + 1 }]);
                }
                assert forall|a: int, b: int|
                    0 <= a < r1.len() && 0 <= b < r1.len() && a != b implies (#[trigger] r1[a]).id@
                    != (#[trigger] r1[b]).id@ by {
                    if a < r0.len() && b < r0.len() {
                        assert(r1[a] == r0[a] && r1[b] == r0[b]);
                    } else if a < r0.len() {
                        assert(r1[a] == r0[a] && r1[b] == c0[m as int]);
                    } else {
                        assert(r1[b] == r0[b] && r1[a] == c0[m as int]);
                    }
                }
                assert forall|i: int, c: int| 0 <= i < r1.len() && 0 <= c < c1.len() implies (
                #[trigger] r1[i]).id@ != (#[trigger] c1[c]).id@ && no_farther(
                    r1[i].id@,
                    c1[c].id@,
                    target@,
                ) by {
                    let oc = if c < m { c } else { c + 1 };
                    assert(c1[c] == c0[oc]);
                    if i < r0.len() {
                        assert(r1[i] == r0[i]);
                    } else {
                        assert(r1[i] == c0[m as int]);
                    }
                }
                assert forall|i: int, j: int| 0 <= i < j < r1.len() implies no_farther(
                    (#[trigger] r1[i]).id@,
                    (#[trigger] r1[j]).id@,
                    target@,
                ) by {
                    assert(r1[i] == r0[i]);
                    if j < r0.len() {
                        assert(r1[j] == r0[j]);
                    } else {
                        assert(r1[j] == c0[m as int]);
                    }
                }
            }
        }
        proof {
            assert forall|i: int, j: int| 0 <= i < j < res@.len() implies distance_order(
                (#[trigger] res@[i]).id@,
                (#[trigger] res@[j]).id@,
                target@,
            ) < 0 by {
                let xi = choose|x: int| 0 <= x < all.len() && same_peer(#[trigger] all[x], res@[i]);
                let xj = choose|x: int| 0 <= x < all.len() && same_peer(#[trigger] all[x], res@[j]);
                assert(no_farther(res@[i].id@, res@[j].id@, target@));
                lemma_distinct_ids_distinct_distances(res@[i].id@, res@[j].id@, target@);
            }
            assert forall|x: int| 0 <= x < all.len() implies holds_peer(res@, #[trigger] all[x]) || (
            forall|i: int|
                0 <= i < res@.len() ==> no_farther((#[trigger] res@[i]).id@, all[x].id@, target@)) by {
                if !holds_peer(res@, all[x]) {
                    let c = choose|c: int| 0 <= c < cands@.len() && same_peer(#[trigger] cands@[c], all[x]);
                    assert forall|i: int| 0 <= i < res@.len() implies no_farther(
                        (#[trigger] res@[i]).id@,
                        all[x].id@,
                        target@,
                    ) by {
                        assert(no_farther(res@[i].id@, cands@[c].id@, target@));
                    }
                }
            }
        }
        res
    }
}

} // verus!
