//! Node identifiers, the XOR metric over them, bucket indices and the
//! proof-of-work admission test.
use vstd::prelude::*;

verus! {

/// Length of a node identifier in bytes (a SHA-256 digest).
pub const ID_LEN: usize = 32;

/// Length of a node identifier in bits, which is also the number of k-buckets.
pub const ID_BITS: usize = 256;

/// Number of leading zero bits of a byte (8 for the zero byte).
pub open spec fn byte_leading_zeros(x: u8) -> nat {
    if x >= 128 {
        0
    } else if x >= 64 {
        1
    } else if x >= 32 {
        2
    } else if x >= 16 {
        3
    } else if x >= 8 {
        4
    } else if x >= 4 {
        5
    } else if x >= 2 {
        6
    } else if x >= 1 {
        7
    } else {
        8
    }
}

/// Position (counting from the most significant bit of byte `i`) of the first bit at
/// which `a` and `b` differ, looking at bytes `i..`; `8 * len` when they agree there.
pub open spec fn first_diff_bit_from(a: Seq<u8>, b: Seq<u8>, i: nat) -> nat
    decreases a.len() - i,
{
    if i >= a.len() || i >= b.len() {
        8 * i
    } else if a[i as int] != b[i as int] {
        8 * i + byte_leading_zeros(a[i as int] ^ b[i as int])
    } else {
        first_diff_bit_from(a, b, i + 1)
    }
}

/// The k-bucket that `id` belongs to in a table owned by `own`: the number of
/// leading bits the two identifiers share.
pub open spec fn bucket_index_of(id: Seq<u8>, own: Seq<u8>) -> nat {
    first_diff_bit_from(id, own, 0)
}

/// Bit `r` of a byte, bit 0 being the most significant one.
pub open spec fn byte_bit(x: u8, r: u8) -> u8 {
    (x >> ((7 - r) as u8)) & 1u8
}

/// Bit `k` of a byte string, bit 0 being the most significant bit of byte 0.
pub open spec fn id_bit(s: Seq<u8>, k: nat) -> u8 {
    byte_bit(s[(k / 8) as int], (k % 8) as u8)
}

/// A well-formed identifier: exactly `ID_LEN` bytes.
pub open spec fn valid_id(id: Seq<u8>) -> bool {
    id.len() == ID_LEN
}

/// Byte-wise XOR of two identifiers: their distance in the overlay.
pub open spec fn xor_distance(a: Seq<u8>, b: Seq<u8>) -> Seq<u8> {
    Seq::new(a.len(), |i: int| a[i] ^ b[i])
}

/// Three-way comparison (-1, 0, 1) of two byte strings read as big-endian unsigned
/// numbers, from byte `i` on.
pub open spec fn compare_from(x: Seq<u8>, y: Seq<u8>, i: nat) -> int
    decreases x.len() - i,
{
    if i >= x.len() || i >= y.len() {
        0
    } else if x[i as int] < y[i as int] {
        -1
    } else if x[i as int] > y[i as int] {
        1
    } else {
        compare_from(x, y, i + 1)
    }
}

/// Three-way comparison of the XOR distances of `a` and of `b` to `target`.
pub open spec fn distance_order(a: Seq<u8>, b: Seq<u8>, target: Seq<u8>) -> int {
    compare_from(xor_distance(a, target), xor_distance(b, target), 0)
}

/// `a` is at most as far from `target` as `b` is.
pub open spec fn no_farther(a: Seq<u8>, b: Seq<u8>, target: Seq<u8>) -> bool {
    distance_order(a, b, target) <= 0
}

/// The first `c1` bits of `id` are zero: whole zero bytes, then the top bits of the
/// next byte.
pub open spec fn meets_difficulty_spec(id: Seq<u8>, c1: nat) -> bool {
    &&& c1 <= 8 * id.len()
    &&& forall|j: int| 0 <= j < c1 / 8 ==> id[j] == 0u8
    &&& (c1 % 8 != 0 ==> id[(c1 / 8) as int] >> ((8 - c1 % 8) as u8) == 0u8)
}

proof fn lemma_xor_nonzero(a: u8, b: u8)
    requires
        a != b,
    ensures
        a ^ b != 0u8,
{
    assert(a != b ==> a ^ b != 0u8) by (bit_vector);
}

proof fn lemma_compare_from_antisym(x: Seq<u8>, y: Seq<u8>, i: nat)
    ensures
        compare_from(x, y, i) == -compare_from(y, x, i),
    decreases x.len() - i,
{
    if i < x.len() && i < y.len() && x[i as int] == y[i as int] {
        lemma_compare_from_antisym(x, y, i + 1);
    }
}

proof fn lemma_compare_from_trans(x: Seq<u8>, y: Seq<u8>, z: Seq<u8>, i: nat)
    requires
        x.len() == y.len(),
        y.len() == z.len(),
        compare_from(x, y, i) <= 0,
        compare_from(y, z, i) <= 0,
    ensures
        compare_from(x, z, i) <= 0,
    decreases x.len() - i,
{
    if i < x.len() && x[i as int] == y[i as int] && y[i as int] == z[i as int] {
        lemma_compare_from_trans(x, y, z, i + 1);
    }
}

proof fn lemma_compare_from_zero(x: Seq<u8>, y: Seq<u8>, i: nat)
    requires
        x.len() == y.len(),
        compare_from(x, y, i) == 0,
    ensures
        forall|j: int| i <= j < x.len() ==> x[j] == y[j],
    decreases x.len() - i,
{
    if i < x.len() {
        lemma_compare_from_zero(x, y, i + 1);
    }
}

/// Distinct identifiers are never equally far from a target.
pub proof fn lemma_distinct_ids_distinct_distances(a: Seq<u8>, b: Seq<u8>, target: Seq<u8>)
    requires
        valid_id(a),
        valid_id(b),
        valid_id(target),
        a != b,
    ensures
        distance_order(a, b, target) != 0,
{
    if distance_order(a, b, target) == 0 {
        let x = xor_distance(a, target);
        let y = xor_distance(b, target);
        lemma_compare_from_zero(x, y, 0);
        assert forall|j: int| 0 <= j < a.len() implies a[j] == b[j] by {
            let (p, q, t) = (a[j], b[j], target[j]);
            assert(x[j] == y[j]);
            assert(p ^ t == q ^ t ==> p == q) by (bit_vector);
        }
        assert(a =~= b);
    }
}

/// `distance_order` is antisymmetric.
pub proof fn lemma_distance_order_antisym(a: Seq<u8>, b: Seq<u8>, target: Seq<u8>)
    ensures
        distance_order(a, b, target) == -distance_order(b, a, target),
{
    lemma_compare_from_antisym(xor_distance(a, target), xor_distance(b, target), 0);
}

/// `no_farther` is transitive.
pub proof fn lemma_no_farther_trans(a: Seq<u8>, b: Seq<u8>, c: Seq<u8>, target: Seq<u8>)
    requires
        a.len() == b.len(),
        b.len() == c.len(),
        no_farther(a, b, target),
        no_farther(b, c, target),
    ensures
        no_farther(a, c, target),
{
    lemma_compare_from_trans(
        xor_distance(a, target),
        xor_distance(b, target),
        xor_distance(c, target),
        0,
    );
}


proof fn lemma_byte_bits(x: u8, y: u8, r: u8)
    by (bit_vector)
    requires
        r < 8,
    ensures
        (x ^ y) >= 128u8 ==> byte_bit(x, 0) != byte_bit(y, 0),
        (x ^ y) < 128u8 && (x ^ y) >= 64u8 ==> byte_bit(x, 1) != byte_bit(y, 1) && (r < 1
            ==> byte_bit(x, r) == byte_bit(y, r)),
        (x ^ y) < 64u8 && (x ^ y) >= 32u8 ==> byte_bit(x, 2) != byte_bit(y, 2) && (r < 2
            ==> byte_bit(x, r) == byte_bit(y, r)),
        (x ^ y) < 32u8 && (x ^ y) >= 16u8 ==> byte_bit(x, 3) != byte_bit(y, 3) && (r < 3
            ==> byte_bit(x, r) == byte_bit(y, r)),
        (x ^ y) < 16u8 && (x ^ y) >= 8u8 ==> byte_bit(x, 4) != byte_bit(y, 4) && (r < 4
            ==> byte_bit(x, r) == byte_bit(y, r)),
        (x ^ y) < 8u8 && (x ^ y) >= 4u8 ==> byte_bit(x, 5) != byte_bit(y, 5) && (r < 5
            ==> byte_bit(x, r) == byte_bit(y, r)),
        (x ^ y) < 4u8 && (x ^ y) >= 2u8 ==> byte_bit(x, 6) != byte_bit(y, 6) && (r < 6
            ==> byte_bit(x, r) == byte_bit(y, r)),
        (x ^ y) == 1u8 ==> byte_bit(x, 7) != byte_bit(y, 7) && (r < 7 ==> byte_bit(x, r)
            == byte_bit(y, r)),
{
}

/// The first byte at or after `i` where `a` and `b` differ, when bytes before `i` agree.
proof fn lemma_first_diff_byte(a: Seq<u8>, b: Seq<u8>, i: nat) -> (q: nat)
    requires
        a.len() == b.len(),
        a != b,
        i <= a.len(),
        a.subrange(0, i as int) == b.subrange(0, i as int),
    ensures
        i <= q < a.len(),
        a[q as int] != b[q as int],
        forall|j: int| 0 <= j < q ==> a[j] == b[j],
        first_diff_bit_from(a, b, i) == 8 * q + byte_leading_zeros(a[q as int] ^ b[q as int]),
    decreases a.len() - i,
{
    if i == a.len() {
        assert(a =~= a.subrange(0, i as int));
        assert(b =~= b.subrange(0, i as int));
        assert(false);
        0
    } else if a[i as int] != b[i as int] {
        assert forall|j: int| 0 <= j < i implies a[j] == b[j] by {
            assert(a[j] == a.subrange(0, i as int)[j]);
            assert(b[j] == b.subrange(0, i as int)[j]);
        }
        i
    } else {
        assert(a.subrange(0, (i + 1) as int) =~= a.subrange(0, i as int).push(a[i as int]));
        assert(b.subrange(0, (i + 1) as int) =~= b.subrange(0, i as int).push(b[i as int]));
        lemma_first_diff_byte(a, b, i + 1)
    }
}

/// An identifier's bucket index is the position of the highest-order bit at which it
/// differs from the owner's identifier: all bits before it agree, that one differs.
pub proof fn lemma_bucket_index_is_first_differing_bit(id: Seq<u8>, own: Seq<u8>)
    requires
        valid_id(id),
        valid_id(own),
        id != own,
    ensures
        bucket_index_of(id, own) < ID_BITS,
        forall|k: nat| k < bucket_index_of(id, own) ==> #[trigger] id_bit(id, k) == id_bit(own, k),
        id_bit(id, bucket_index_of(id, own)) != id_bit(own, bucket_index_of(id, own)),
{
    assert(id.subrange(0, 0) =~= own.subrange(0, 0));
    let q = lemma_first_diff_byte(id, own, 0);
    let x = id[q as int];
    let y = own[q as int];
    lemma_xor_nonzero(x, y);
    let lz = byte_leading_zeros(x ^ y);
    let idx = bucket_index_of(id, own);
    assert(idx == 8 * q + lz);
    assert(lz < 8);
    assert(idx / 8 == q && idx % 8 == lz);
    lemma_byte_bits(x, y, 0);
    assert forall|k: nat| k < idx implies #[trigger] id_bit(id, k) == id_bit(own, k) by {
        if k / 8 < q {
        } else {
            assert(k / 8 == q);
            assert(k % 8 < lz);
            lemma_byte_bits(x, y, (k % 8) as u8);
        }
    }
}

/// Number of leading zero bits of a byte.
pub fn leading_zeros_u8(x: u8) -> (r: u32)
    ensures
        r as nat == byte_leading_zeros(x),
{
    if x >= 128 {
        0
    } else if x >= 64 {
        1
    } else if x >= 32 {
        2
    } else if x >= 16 {
        3
    } else if x >= 8 {
        4
    } else if x >= 4 {
        5
    } else if x >= 2 {
        6
    } else if x >= 1 {
        7
    } else {
        8
    }
}

/// Index of the k-bucket that `id` falls into in the table of `own`: the position
/// of the highest-order bit at which they differ, or `ID_BITS` when they are equal.
pub fn bucket_index(id: &Vec<u8>, own: &Vec<u8>) -> (r: usize)
    requires
        valid_id(id@),
        valid_id(own@),
    ensures
        r as nat == bucket_index_of(id@, own@),
        id@ != own@ ==> r < ID_BITS,
        id@ == own@ ==> r == ID_BITS,
{
    let mut i: usize = 0;
    while i < ID_LEN
        invariant
            i <= ID_LEN,
            valid_id(id@),
            valid_id(own@),
            first_diff_bit_from(id@, own@, 0) == first_diff_bit_from(id@, own@, i as nat),
            id@.subrange(0, i as int) =~= own@.subrange(0, i as int),
        decreases ID_LEN - i,
    {
        if id[i] != own[i] {
            let x = id[i] ^ own[i];
            proof {
                lemma_xor_nonzero(id@[i as int], own@[i as int]);
            }
            let lz = leading_zeros_u8(x);
            return 8 * i + lz as usize;
        }
        assert(id@.subrange(0, i + 1) =~= own@.subrange(0, i + 1)) by {
            assert(id@.subrange(0, i + 1) =~= id@.subrange(0, i as int).push(id@[i as int]));
            assert(own@.subrange(0, i + 1) =~= own@.subrange(0, i as int).push(own@[i as int]));
        }
        i += 1;
    }
    assert(id@ =~= own@) by {
        assert(id@ =~= id@.subrange(0, ID_LEN as int));
        assert(own@ =~= own@.subrange(0, ID_LEN as int));
    }
    ID_BITS
}

/// Compares the XOR distances of `a` and `b` to `target`: -1 when `a` is closer,
/// 1 when `b` is closer, 0 when they are equally far.
pub fn compare_distance(a: &Vec<u8>, b: &Vec<u8>, target: &Vec<u8>) -> (r: i8)
    requires
        valid_id(a@),
        valid_id(b@),
        valid_id(target@),
    ensures
        r as int == distance_order(a@, b@, target@),
{
    let ghost x = xor_distance(a@, target@);
    let ghost y = xor_distance(b@, target@);
    let mut i: usize = 0;
    while i < ID_LEN
        invariant
            i <= ID_LEN,
            valid_id(a@),
            valid_id(b@),
            valid_id(target@),
            x == xor_distance(a@, target@),
            y == xor_distance(b@, target@),
            compare_from(x, y, 0) == compare_from(x, y, i as nat),
        decreases ID_LEN - i,
    {
        let da = a[i] ^ target[i];
        let db = b[i] ^ target[i];
        assert(x[i as int] == da && y[i as int] == db);
        if da < db {
            return -1;
        } else if da > db {
            return 1;
        }
        i += 1;
    }
    0
}

/// Whether the first `c1` bits of `id` are zero: the proof-of-work admission test.
/// Works for every `c1` up to the identifier's length in bits.
pub fn meets_difficulty(id: &Vec<u8>, c1: u32) -> (r: bool)
    ensures
        r == meets_difficulty_spec(id@, c1 as nat),
{
    let full = (c1 / 8) as usize;
    let rem = (c1 % 8) as u8;
    if full > id.len() || (full == id.len() && rem != 0) {
        return false;
    }
    let mut j: usize = 0;
    while j < full
        invariant
            j <= full,
            full <= id@.len(),
            full == c1 / 8,
            forall|t: int| 0 <= t < j ==> id@[t] == 0u8,
        decreases full - j,
    {
        if id[j] != 0 {
            return false;
        }
        j += 1;
    }
    if rem != 0 {
        id[full] >> (8 - rem) == 0
    } else {
        true
    }
}

} // verus!
