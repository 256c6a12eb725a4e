//! Ed25519 key pairs, signatures, SHA-256, and identity generation under the
//! proof-of-work constraint.
use vstd::prelude::*;
use ring::signature::KeyPair;
use crate::node_id::{meets_difficulty, meets_difficulty_spec, ID_BITS};

verus! {

/// The SHA-256 digest of `data`.
pub uninterp spec fn sha256_of(data: Seq<u8>) -> Seq<u8>;

/// Whether `signature` is a valid Ed25519 signature of `message` under `public_key`.
pub uninterp spec fn ed25519_verifies(public_key: Seq<u8>, message: Seq<u8>, signature: Seq<u8>) -> bool;

/// The public key of an Ed25519 PKCS#8 v2 document, or `None` when it is rejected.
pub uninterp spec fn ed25519_public_key_of(pkcs8: Seq<u8>) -> Option<Seq<u8>>;

/// The (deterministic) Ed25519 signature of `message` by the key in `pkcs8`.
pub uninterp spec fn ed25519_signature_of(pkcs8: Seq<u8>, message: Seq<u8>) -> Seq<u8>;

/// Relies on ring::digest::digest with SHA256: the 32-byte SHA-256 digest of `data`.
#[verifier::external_body]
fn sha256_digest(data: &[u8]) -> (r: Vec<u8>)
    ensures
        r@ == sha256_of(data@),
        r@.len() == 32,
{
    ring::digest::digest(&ring::digest::SHA256, data).as_ref().to_vec()
}

/// Relies on ring::signature::UnparsedPublicKey::verify with ED25519: whether the
/// signature is valid; malformed keys or signatures give `false`, never a panic.
#[verifier::external_body]
fn ed25519_verify(public_key: &[u8], message: &[u8], signature: &[u8]) -> (r: bool)
    ensures
        r == ed25519_verifies(public_key@, message@, signature@),
{
    ring::signature::UnparsedPublicKey::new(&ring::signature::ED25519, public_key).verify(
        message,
        signature,
    ).is_ok()
}

/// Relies on ring::signature::Ed25519KeyPair::from_pkcs8 and its public_key: the
/// 32-byte public key of the document, or `None` when from_pkcs8 rejects it.
#[verifier::external_body]
fn ed25519_public_key(pkcs8: &[u8]) -> (r: Option<Vec<u8>>)
    ensures
        r.is_some() == ed25519_public_key_of(pkcs8@).is_some(),
        r.is_some() ==> r.unwrap()@ == ed25519_public_key_of(pkcs8@).unwrap(),
        r.is_some() ==> r.unwrap()@.len() == 32,
{
    match ring::signature::Ed25519KeyPair::from_pkcs8(pkcs8) {
        Ok(kp) => Some(kp.public_key().as_ref().to_vec()),
        Err(_) => None,
    }
}

/// Relies on ring::signature::Ed25519KeyPair::from_pkcs8 and its sign: the 64-byte
/// signature, or `None` when from_pkcs8 rejects the document. As ring's signature
/// documentation shows, the signature verifies under the pair's public key.
#[verifier::external_body]
fn ed25519_sign(pkcs8: &[u8], message: &[u8]) -> (r: Option<Vec<u8>>)
    ensures
        r.is_some() == ed25519_public_key_of(pkcs8@).is_some(),
        r.is_some() ==> r.unwrap()@ == ed25519_signature_of(pkcs8@, message@),
        r.is_some() ==> r.unwrap()@.len() == 64,
        r.is_some() ==> ed25519_verifies(ed25519_public_key_of(pkcs8@).unwrap(), message@, r.unwrap()@),
{
    match ring::signature::Ed25519KeyPair::from_pkcs8(pkcs8) {
        Ok(kp) => Some(kp.sign(message).as_ref().to_vec()),
        Err(_) => None,
    }
}

/// Relies on ring::signature::Ed25519KeyPair::generate_pkcs8 with a SystemRandom: a
/// fresh key pair as a PKCS#8 v2 document, which from_pkcs8 accepts, or `None` when
/// the system RNG fails.
#[verifier::external_body]
fn ed25519_generate_pkcs8() -> (r: Option<Vec<u8>>)
    ensures
        r.is_some() ==> ed25519_public_key_of(r.unwrap()@).is_some(),
{
    match ring::signature::Ed25519KeyPair::generate_pkcs8(&ring::rand::SystemRandom::new()) {
        Ok(doc) => Some(doc.as_ref().to_vec()),
        Err(_) => None,
    }
}

/// The SHA-256 digest of `data`.
pub fn sha256(data: &Vec<u8>) -> (r: Vec<u8>)
    ensures
        r@ == sha256_of(data@),
        r@.len() == 32,
{
    sha256_digest(data.as_slice())
}

/// Why a signature check failed.
#[derive(Clone, Copy, Debug, PartialEq, Eq, Structural)]
pub enum CryptoError {
    InvalidSignature,
}

/// Checks an Ed25519 signature; any parse or verification failure is `InvalidSignature`.
pub fn verify(public_key: &Vec<u8>, message: &Vec<u8>, signature: &Vec<u8>) -> (r: Result<(), CryptoError>)
    ensures
        r.is_ok() == ed25519_verifies(public_key@, message@, signature@),
{
    if ed25519_verify(public_key.as_slice(), message.as_slice(), signature.as_slice()) {
        Ok(())
    } else {
        Err(CryptoError::InvalidSignature)
    }
}

/// An Ed25519 key pair, held as its PKCS#8 document together with its public key.
pub struct Keypair {
    pkcs8: Vec<u8>,
    public_key: Vec<u8>,
}

impl Keypair {
    #[verifier::type_invariant]
    spec fn inv(&self) -> bool {
        &&& ed25519_public_key_of(self.pkcs8@) == Some(self.public_key@)
        &&& self.public_key@.len() == 32
    }

    /// The PKCS#8 document.
    pub closed spec fn spec_pkcs8(&self) -> Seq<u8> {
        self.pkcs8@
    }

    /// The public key.
    pub closed spec fn spec_public_key(&self) -> Seq<u8> {
        self.public_key@
    }

    /// The key pair of a PKCS#8 v2 document, or `None` when the document is rejected.
    pub fn from_pkcs8(pkcs8: Vec<u8>) -> (r: Option<Keypair>)
        ensures
            r.is_some() == ed25519_public_key_of(pkcs8@).is_some(),
            r.is_some() ==> r.unwrap().spec_pkcs8() == pkcs8@,
            r.is_some() ==> Some(r.unwrap().spec_public_key()) == ed25519_public_key_of(pkcs8@),
    {
        match ed25519_public_key(pkcs8.as_slice()) {
            Some(public_key) => Some(Keypair { pkcs8, public_key }),
            None => None,
        }
    }

    /// A fresh key pair from the system's secure RNG, or `None` when the RNG fails.
    pub fn create_keypair() -> (r: Option<Keypair>)
        ensures
            r.is_some() ==> ed25519_public_key_of(r.unwrap().spec_pkcs8()) == Some(
                r.unwrap().spec_public_key(),
            ),
    {
        match ed25519_generate_pkcs8() {
            Some(doc) => Keypair::from_pkcs8(doc),
            None => None,
        }
    }

    /// The 32-byte public key.
    pub fn public_key(&self) -> (r: &Vec<u8>)
        ensures
            r@ == self.spec_public_key(),
            r@.len() == 32,
            ed25519_public_key_of(self.spec_pkcs8()) == Some(r@),
    {
        proof {
            use_type_invariant(self);
        }
        &self.public_key
    }

    /// The PKCS#8 document.
    pub fn pkcs8(&self) -> (r: &Vec<u8>)
        ensures
            r@ == self.spec_pkcs8(),
    {
        &self.pkcs8
    }

    /// The 64-byte signature of `message`.
    pub fn sign(&self, message: &Vec<u8>) -> (r: Vec<u8>)
        ensures
            r@ == ed25519_signature_of(self.spec_pkcs8(), message@),
            r@.len() == 64,
            ed25519_verifies(self.spec_public_key(), message@, r@),
    {
        proof {
            use_type_invariant(self);
        }
        let s = ed25519_sign(self.pkcs8.as_slice(), message.as_slice());
        s.unwrap()
    }
}

/// Why identity generation stopped without an identity.
#[derive(Clone, Copy, Debug, PartialEq, Eq, Structural)]
pub enum IdentityError {
    /// The secure RNG failed.
    KeyGeneration,
    /// No 256-bit identifier has that many leading zero bits.
    Unreachable,
    /// Every attempt a `u64` can count failed.
    Exhausted,
}

/// Whether an identifier derived from a public key may join: it is the key's SHA-256
/// digest and its first `c1` bits are zero.
pub open spec fn admissible_identity(public_key: Seq<u8>, id: Seq<u8>, c1: nat) -> bool {
    id == sha256_of(public_key) && meets_difficulty_spec(id, c1)
}

/// Generates key pairs until the SHA-256 digest of the public key has at least `c1`
/// leading zero bits. Returns the key pair, its identifier, and the number of attempts.
pub fn generate_id(c1: u32) -> (r: Result<(Keypair, Vec<u8>, u64), IdentityError>)
    ensures
        c1 > ID_BITS <==> r == Err::<(Keypair, Vec<u8>, u64), IdentityError>(
            IdentityError::Unreachable,
        ),
        c1 == 0 && r.is_ok() ==> r.unwrap().2 == 1,
        r.is_ok() ==> {
            let (kp, id, attempts) = r.unwrap();
            &&& admissible_identity(kp.spec_public_key(), id@, c1 as nat)
            &&& id@.len() == 32
            &&& ed25519_public_key_of(kp.spec_pkcs8()) == Some(kp.spec_public_key())
            &&& attempts >= 1
        },
{
    if c1 as usize > ID_BITS {
        return Err(IdentityError::Unreachable);
    }
    let mut attempts: u64 = 0;
    while attempts < u64::MAX
        invariant
            c1 <= ID_BITS,
            c1 == 0 ==> attempts == 0,
        decreases u64::MAX - attempts,
    {
        attempts += 1;
        let kp = match Keypair::create_keypair() {
            Some(kp) => kp,
            None => {
                return Err(IdentityError::KeyGeneration);
            },
        };
        let id = sha256(kp.public_key());
        if meets_difficulty(&id, c1) {
            return Ok((kp, id, attempts));
        }
    }
    Err(IdentityError::Exhausted)
}

} // verus!
