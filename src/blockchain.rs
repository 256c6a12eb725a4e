//! A minimal block chain: blocks hashed over their JSON rendering, and proof-of-work
//! mining by nonce search.
use vstd::prelude::*;
use vstd::utf8::encode_utf8;
use sha2::Digest;
use vstd::string::StringExecFns;

verus! {

/// The SHA-256 digest of `data`, as the sha2 crate computes it.
pub uninterp spec fn sha2_digest_of(data: Seq<u8>) -> Seq<u8>;

/// The compact JSON text of the object with these five fields, as serde_json writes it.
pub uninterp spec fn block_json_of(index: u32, prev_hash: Seq<char>, hash: Seq<char>, nounce: u64, timestamp: i64) -> Seq<char>;

/// Lower-case hexadecimal digit of a value below 16.
pub open spec fn hex_digit(n: u8) -> char {
    if n == 0 { '0' } else if n == 1 { '1' } else if n == 2 { '2' } else if n == 3 { '3' }
    else if n == 4 { '4' } else if n == 5 { '5' } else if n == 6 { '6' } else if n == 7 { '7' }
    else if n == 8 { '8' } else if n == 9 { '9' } else if n == 10 { 'a' } else if n == 11 { 'b' }
    else if n == 12 { 'c' } else if n == 13 { 'd' } else if n == 14 { 'e' } else { 'f' }
}

/// Two lower-case hexadecimal digits per byte, in order.
pub open spec fn hex_text(b: Seq<u8>) -> Seq<char>
    decreases b.len(),
{
    if b.len() == 0 {
        Seq::empty()
    } else {
        hex_text(b.drop_last()) + seq![hex_digit(b.last() / 16), hex_digit(b.last() % 16)]
    }
}

proof fn lemma_hex_text_len(b: Seq<u8>)
    ensures
        hex_text(b).len() == 2 * b.len(),
    decreases b.len(),
{
    if b.len() > 0 {
        lemma_hex_text_len(b.drop_last());
    }
}

/// Relies on sha2::Sha256::digest: the 32-byte SHA-256 digest of `data`.
#[verifier::external_body]
fn sha2_digest(data: &[u8]) -> (r: Vec<u8>)
    ensures
        r@ == sha2_digest_of(data@),
        r@.len() == 32,
{
    sha2::Sha256::digest(data).to_vec()
}

/// Relies on serde_json's Value::Object (a sorted map) and its Display: the compact
/// JSON text of an object holding the five fields.
#[verifier::external_body]
fn block_json_text(index: u32, prev_hash: &str, hash: &str, nounce: u64, timestamp: i64) -> (r: String)
    ensures
        r@ == block_json_of(index, prev_hash@, hash@, nounce, timestamp),
{
    let mut m = serde_json::Map::new();
    m.insert("index".to_string(), serde_json::Value::from(index));
    m.insert("prev_hash".to_string(), serde_json::Value::from(prev_hash));
    m.insert("hash".to_string(), serde_json::Value::from(hash));
    m.insert("nounce".to_string(), serde_json::Value::from(nounce));
    m.insert("timestamp".to_string(), serde_json::Value::from(timestamp));
    serde_json::Value::Object(m).to_string()
}

/// The one-character text of a hexadecimal digit.
fn hex_digit_str(n: u8) -> (r: &'static str)
    requires
        n < 16,
    ensures
        r@ == seq![hex_digit(n)],
{
    if n == 0 {
        proof {
            reveal_strlit("0");
        }
        "0"
    } else if n == 1 {
        proof {
            reveal_strlit("1");
        }
        "1"
    } else if n == 2 {
        proof {
            reveal_strlit("2");
        }
        "2"
    } else if n == 3 {
        proof {
            reveal_strlit("3");
        }
        "3"
    } else if n == 4 {
        proof {
            reveal_strlit("4");
        }
        "4"
    } else if n == 5 {
        proof {
            reveal_strlit("5");
        }
        "5"
    } else if n == 6 {
        proof {
            reveal_strlit("6");
        }
        "6"
    } else if n == 7 {
        proof {
            reveal_strlit("7");
        }
        "7"
    } else if n == 8 {
        proof {
            reveal_strlit("8");
        }
        "8"
    } else if n == 9 {
        proof {
            reveal_strlit("9");
        }
        "9"
    } else if n == 10 {
        proof {
            reveal_strlit("a");
        }
        "a"
    } else if n == 11 {
        proof {
            reveal_strlit("b");
        }
        "b"
    } else if n == 12 {
        proof {
            reveal_strlit("c");
        }
        "c"
    } else if n == 13 {
        proof {
            reveal_strlit("d");
        }
        "d"
    } else if n == 14 {
        proof {
            reveal_strlit("e");
        }
        "e"
    } else {
        proof {
            reveal_strlit("f");
        }
        "f"
    }
}

/// Lower-case hexadecimal text of a byte string.
pub fn hex_string(b: &Vec<u8>) -> (r: String)
    ensures
        r@ == hex_text(b@),
{
    let mut r = String::new();
    let mut i: usize = 0;
    assert(b@.take(0) =~= Seq::<u8>::empty());
    assert(r@ =~= hex_text(b@.take(0)));
    while i < b.len()
        invariant
            i <= b@.len(),
            r@ == hex_text(b@.take(i as int)),
        decreases b.len() - i,
    {
        r.append(hex_digit_str(b[i] / 16));
        r.append(hex_digit_str(b[i] % 16));
        assert(b@.take(i + 1).drop_last() =~= b@.take(i as int));
        assert(r@ =~= hex_text(b@.take(i + 1)));
        i += 1;
    }
    assert(b@.take(b@.len() as int) =~= b@);
    r
}

/// The hash text of a block with these fields: hex of the SHA-256 of its JSON.
pub open spec fn block_hash_of(index: u32, prev_hash: Seq<char>, hash: Seq<char>, nounce: u64, timestamp: i64) -> Seq<char> {
    hex_text(sha2_digest_of(encode_utf8(block_json_of(index, prev_hash, hash, nounce, timestamp))))
}

/// The text begins with `d` ASCII '0' characters.
pub open spec fn starts_with_zeros(h: Seq<char>, d: nat) -> bool {
    let b = encode_utf8(h);
    d <= b.len() && forall|i: int| 0 <= i < d ==> b[i] == 48u8
}

/// Hash and nonce that mining reaches from `hash` and `nounce`: stop when the hash
/// begins with `d` zeros (or the nonce is at its maximum); otherwise raise the nonce,
/// rehash, and go on.
pub open spec fn mined(
    index: u32,
    prev_hash: Seq<char>,
    timestamp: i64,
    hash: Seq<char>,
    nounce: u64,
    d: nat,
) -> (Seq<char>, u64)
    decreases u64::MAX - nounce,
{
    if starts_with_zeros(hash, d) || nounce == u64::MAX {
        (hash, nounce)
    } else {
        let n = (nounce + 1) as u64;
        mined(index, prev_hash, timestamp, block_hash_of(index, prev_hash, hash, n, timestamp), n, d)
    }
}

/// Whether `h` begins with `d` ASCII '0' characters.
fn has_zero_prefix(h: &String, d: usize) -> (r: bool)
    ensures
        r == starts_with_zeros(h@, d as nat),
{
    let b = h.as_str().as_bytes();
    if d > b.len() {
        return false;
    }
    let mut i: usize = 0;
    while i < d
        invariant
            d <= b@.len(),
            b@ == encode_utf8(h@),
            i <= d,
            forall|j: int| 0 <= j < i ==> b@[j] == 48u8,
        decreases d - i,
    {
        if b[i] != 48u8 {
            return false;
        }
        i += 1;
    }
    true
}

#[derive(Debug)]
pub struct Block {
    pub index: u32,
    pub prev_hash: String,
    pub nounce: u64,
    pub timestamp: i64,
    pub hash: String,
    pub tx: String,
}

/// A chain of blocks in order of addition.
pub struct Blockchain {
    pub blocks: Vec<Block>,
}

impl Block {
    /// Does nothing; blocks are built with a struct literal.
    pub fn new(&self) {
    }

    /// The block's hash: lower-case hex of the SHA-256 digest of its JSON rendering,
    /// 64 characters.
    pub fn gen_hash(&self) -> (r: String)
        ensures
            r@ == block_hash_of(self.index, self.prev_hash@, self.hash@, self.nounce, self.timestamp),
            r@.len() == 64,
    {
        let json = block_json_text(
            self.index,
            self.prev_hash.as_str(),
            self.hash.as_str(),
            self.nounce,
            self.timestamp,
        );
        let digest = sha2_digest(json.as_str().as_bytes());
        proof {
            lemma_hex_text_len(digest@);
        }
        hex_string(&digest)
    }

    /// Proof of work: raises the nonce and rehashes until the hash begins with
    /// `dificulty` zeros. The nonce cannot pass `u64::MAX`: mining stops there.
    pub fn mine_block(&mut self, dificulty: usize)
        ensures
            final(self).index == old(self).index,
            final(self).prev_hash == old(self).prev_hash,
            final(self).timestamp == old(self).timestamp,
            final(self).tx == old(self).tx,
            (final(self).hash@, final(self).nounce) == mined(
                old(self).index,
                old(self).prev_hash@,
                old(self).timestamp,
                old(self).hash@,
                old(self).nounce,
                dificulty as nat,
            ),
    {
        while !has_zero_prefix(&self.hash, dificulty) && self.nounce < u64::MAX
            invariant
                self.index == old(self).index,
                self.prev_hash == old(self).prev_hash,
                self.timestamp == old(self).timestamp,
                self.tx == old(self).tx,
                mined(old(self).index, old(self).prev_hash@, old(self).timestamp, old(self).hash@, old(self).nounce, dificulty as nat)
                    == mined(self.index, self.prev_hash@, self.timestamp, self.hash@, self.nounce, dificulty as nat),
            decreases u64::MAX - self.nounce,
        {
            self.nounce += 1;
            self.hash = self.gen_hash();
        }
    }
}

impl Blockchain {
    /// Does nothing; chains are built with a struct literal.
    pub fn new(&self) {
    }

    /// Appends a block.
    pub fn add_block(&mut self, block: Block)
        ensures
            final(self).blocks@ == old(self).blocks@.push(block),
    {
        self.blocks.push(block);
    }
}

} // verus!
