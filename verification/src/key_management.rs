//! Signature records and signing keys.

use vstd::prelude::*;
use vstd::utf8::{decode_utf8, valid_utf8};
use crate::text::string_of;
use crate::wire::{copy_range, opt_octets, u16_at, u32_at};

verus! {

/// The algorithm number that a generated Ed25519 key is filed under.
pub const ED25519_ALGORITHM: u8 = 13;

/// The octets of a signature record before the name of the signer.
pub const RRSIG_FIXED: usize = 18;

/// The kinds of signing key.
#[derive(Debug, Clone, Copy, PartialEq, Eq)]
pub enum KeyType {
    RSA,
    ECDSA,
    Ed25519,
}

/// A signature over a record set.
#[derive(Debug, PartialEq, Eq)]
pub struct RRSig {
    pub type_covered: u16,
    pub algorithm: u8,
    pub labels: u8,
    pub original_ttl: u32,
    pub expiration: u32,
    pub inception: u32,
    pub key_tag: u16,
    pub signer_name: String,
    pub signature: Vec<u8>,
}

/// A signature record as mathematics.
pub struct RRSigView {
    pub type_covered: u16,
    pub algorithm: u8,
    pub labels: u8,
    pub original_ttl: u32,
    pub expiration: u32,
    pub inception: u32,
    pub key_tag: u16,
    pub signer_name: Seq<char>,
    pub signature: Seq<u8>,
}

impl View for RRSig {
    type V = RRSigView;

    open spec fn view(&self) -> RRSigView {
        RRSigView {
            type_covered: self.type_covered,
            algorithm: self.algorithm,
            labels: self.labels,
            original_ttl: self.original_ttl,
            expiration: self.expiration,
            inception: self.inception,
            key_tag: self.key_tag,
            signer_name: self.signer_name@,
            signature: self.signature@,
        }
    }
}

impl Clone for RRSig {
    fn clone(&self) -> (r: RRSig)
        ensures
            r@ == self@,
    {
        RRSig {
            type_covered: self.type_covered,
            algorithm: self.algorithm,
            labels: self.labels,
            original_ttl: self.original_ttl,
            expiration: self.expiration,
            inception: self.inception,
            key_tag: self.key_tag,
            signer_name: self.signer_name.clone(),
            signature: vstd::slice::slice_to_vec(self.signature.as_slice()),
        }
    }
}

/// Why octets are no signature record.
#[derive(Debug, Clone, Copy, PartialEq, Eq, Structural)]
pub enum RRSigError {
    /// There are fewer than the 18 octets of the fixed fields.
    TooShort,
    /// No zero octet ends the name of the signer.
    Unterminated,
    /// The name of the signer is not valid UTF-8.
    InvalidName,
}

/// The first zero octet of `b` at or after `from`; the length of `b` where
/// there is none.
pub open spec fn first_zero(b: Seq<u8>, from: int) -> int
    decreases b.len() - from,
{
    if from < 0 || from >= b.len() || b[from] == 0 {
        from
    } else {
        first_zero(b, from + 1)
    }
}

/// The signature record that octets stand for: seven fixed fields in 18
/// octets, the name of the signer up to a zero octet, and the signature
/// behind that octet.
pub open spec fn rrsig_parse(b: Seq<u8>) -> Result<RRSigView, RRSigError> {
    let end = first_zero(b, RRSIG_FIXED as int);
    if b.len() < RRSIG_FIXED {
        Err(RRSigError::TooShort)
    } else if end >= b.len() {
        Err(RRSigError::Unterminated)
    } else if !valid_utf8(b.subrange(RRSIG_FIXED as int, end)) {
        Err(RRSigError::InvalidName)
    } else {
        Ok(
            RRSigView {
                type_covered: u16_at(b, 0),
                algorithm: b[2],
                labels: b[3],
                original_ttl: u32_at(b, 4),
                expiration: u32_at(b, 8),
                inception: u32_at(b, 12),
                key_tag: u16_at(b, 16),
                signer_name: decode_utf8(b.subrange(RRSIG_FIXED as int, end)),
                signature: b.skip(end + 1),
            },
        )
    }
}

impl RRSig {
    /// A signature record of these fields.
    pub fn new(
        type_covered: u16,
        algorithm: u8,
        labels: u8,
        original_ttl: u32,
        expiration: u32,
        inception: u32,
        key_tag: u16,
        signer_name: String,
        signature: Vec<u8>,
    ) -> (r: RRSig)
        ensures
            r@ == (RRSigView {
                type_covered,
                algorithm,
                labels,
                original_ttl,
                expiration,
                inception,
                key_tag,
                signer_name: signer_name@,
                signature: signature@,
            }),
    {
        RRSig {
            type_covered,
            algorithm,
            labels,
            original_ttl,
            expiration,
            inception,
            key_tag,
            signer_name,
            signature,
        }
    }

    /// Reads a signature record from the octets of its payload.
    pub fn from_bytes(bytes: &[u8]) -> (r: Result<RRSig, RRSigError>)
        ensures
            match rrsig_parse(bytes@) {
                Ok(sig) => r is Ok && r->Ok_0@ == sig,
                Err(e) => r is Err && r->Err_0 == e,
            },
    {
        broadcast use vstd::utf8::encode_utf8_decode_utf8;

        let n: usize = bytes.len();
        if n < RRSIG_FIXED {
            return Err(RRSigError::TooShort);
        }
        let mut end: usize = RRSIG_FIXED;
        while end < n && bytes[end] != 0
            invariant
                RRSIG_FIXED <= end <= n,
                n == bytes@.len(),
                first_zero(bytes@, RRSIG_FIXED as int) == first_zero(bytes@, end as int),
            decreases n - end,
        {
            end = end + 1;
        }
        if end >= n {
            return Err(RRSigError::Unterminated);
        }
        let signer_name = match string_of(vstd::slice::slice_subrange(bytes, RRSIG_FIXED, end)) {
            Some(s) => s,
            None => {
                return Err(RRSigError::InvalidName);
            },
        };
        let signature = copy_range(bytes, end + 1, n);
        Ok(
            RRSig {
                type_covered: bytes[0] as u16 * 256 + bytes[1] as u16,
                algorithm: bytes[2],
                labels: bytes[3],
                original_ttl: bytes[4] as u32 * 16777216 + bytes[5] as u32 * 65536 + bytes[6] as u32
                    * 256 + bytes[7] as u32,
                expiration: bytes[8] as u32 * 16777216 + bytes[9] as u32 * 65536 + bytes[10] as u32
                    * 256 + bytes[11] as u32,
                inception: bytes[12] as u32 * 16777216 + bytes[13] as u32 * 65536
                    + bytes[14] as u32 * 256 + bytes[15] as u32,
                key_tag: bytes[16] as u16 * 256 + bytes[17] as u16,
                signer_name,
                signature,
            },
        )
    }
}

/// The sum that a key tag is made of: the octets of the key as 16-bit
/// values, most significant octet first, added up over the first `n` octets.
pub open spec fn key_sum(key: Seq<u8>, n: int) -> int
    decreases n,
{
    if n <= 0 {
        0
    } else if (n - 1) % 2 == 0 {
        key_sum(key, n - 1) + key[n - 1] as int * 256
    } else {
        key_sum(key, n - 1) + key[n - 1] as int
    }
}

/// The key tag of a public key: its sum in 32 bits, the upper half added to
/// the lower, and of that the low 16 bits.
pub open spec fn key_tag_of(key: Seq<u8>) -> u16 {
    let ac = key_sum(key, key.len() as int) % 0x1_0000_0000;
    ((ac + ac / 65536 % 65536) % 65536) as u16
}

/// The key tag of a public key.
pub fn calculate_key_tag(pub_key: &[u8]) -> (tag: u16)
    ensures
        tag == key_tag_of(pub_key@),
{
    let mut ac: u64 = 0;
    let mut i: usize = 0;
    while i < pub_key.len()
        invariant
            i <= pub_key@.len(),
            ac == key_sum(pub_key@, i as int) % 0x1_0000_0000,
        decreases pub_key.len() - i,
    {
        let b: u64 = pub_key[i] as u64;
        if i % 2 == 0 {
            ac = (ac + b * 256) % 0x1_0000_0000;
        } else {
            ac = (ac + b) % 0x1_0000_0000;
        }
        i = i + 1;
    }
    ((ac + ac / 65536 % 65536) % 65536) as u16
}

/// A signing key: its private part as a PKCS#8 document, its public part,
/// the tag of the public part and the number of its algorithm.
pub struct DNSSECKey {
    pub key_type: KeyType,
    pub private_key: Vec<u8>,
    pub public_key: Vec<u8>,
    pub key_tag: u16,
    pub algorithm: u8,
}

/// A signing key as mathematics.
pub struct DNSSECKeyView {
    pub key_type: KeyType,
    pub private_key: Seq<u8>,
    pub public_key: Seq<u8>,
    pub key_tag: u16,
    pub algorithm: u8,
}

impl View for DNSSECKey {
    type V = DNSSECKeyView;

    open spec fn view(&self) -> DNSSECKeyView {
        DNSSECKeyView {
            key_type: self.key_type,
            private_key: self.private_key@,
            public_key: self.public_key@,
            key_tag: self.key_tag,
            algorithm: self.algorithm,
        }
    }
}

/// Why no key was generated.
#[derive(Debug, Clone, Copy, PartialEq, Eq, Structural)]
pub enum KeyError {
    /// The generator gave no key.
    GenerationFailed,
    /// The key that was generated was refused when it was read back.
    InvalidKey,
}

/// The public key of the Ed25519 key pair in a PKCS#8 document, as
/// `ring::signature::Ed25519KeyPair::from_pkcs8` and `public_key` give it;
/// nothing where the document is refused.
pub uninterp spec fn ed25519_public_of(pkcs8: Seq<u8>) -> Option<Seq<u8>>;

/// The Ed25519 key of a private and a public part: its tag is that of the
/// public part, its algorithm number 13.
pub open spec fn ed25519_key(private_key: Seq<u8>, public_key: Seq<u8>) -> DNSSECKeyView {
    DNSSECKeyView {
        key_type: KeyType::Ed25519,
        private_key,
        public_key,
        key_tag: key_tag_of(public_key),
        algorithm: ED25519_ALGORITHM,
    }
}

/// The key that comes of what the generator gave: no key where it gave no
/// document or a document that is refused; else the key of the document and
/// of the public part of the pair in it.
pub open spec fn key_of_generated(generated: Option<Seq<u8>>) -> Result<DNSSECKeyView, KeyError> {
    match generated {
        None => Err(KeyError::GenerationFailed),
        Some(document) => match ed25519_public_of(document) {
            None => Err(KeyError::InvalidKey),
            Some(public_key) => Ok(ed25519_key(document, public_key)),
        },
    }
}

/// `ring::signature::Ed25519KeyPair::generate_pkcs8` on a new
/// `ring::rand::SystemRandom`: a fresh private key as a PKCS#8 document, or
/// nothing where the generator fails. Nothing is known of the key.
#[verifier::external_body]
fn ed25519_new_pkcs8() -> (r: Option<Vec<u8>>) {
    let rng = ring::rand::SystemRandom::new();
    match ring::signature::Ed25519KeyPair::generate_pkcs8(&rng) {
        Ok(document) => Some(document.as_ref().to_vec()),
        Err(_) => None,
    }
}

/// `ring::signature::Ed25519KeyPair::from_pkcs8`, then `public_key`: the
/// public key of the pair in the document, or nothing where the document is
/// refused. The same document gives the same key.
#[verifier::external_body]
fn ed25519_public_key(pkcs8: &[u8]) -> (r: Option<Vec<u8>>)
    ensures
        opt_octets(r) == ed25519_public_of(pkcs8@),
{
    match ring::signature::Ed25519KeyPair::from_pkcs8(pkcs8) {
        Ok(pair) => Some(ring::signature::KeyPair::public_key(&pair).as_ref().to_vec()),
        Err(_) => None,
    }
}

impl DNSSECKey {
    /// The Ed25519 key of a private and a public part, with the tag of the
    /// public part.
    pub fn from_ed25519(private_key: Vec<u8>, public_key: Vec<u8>) -> (key: DNSSECKey)
        ensures
            key@ == ed25519_key(private_key@, public_key@),
            key.key_type == KeyType::Ed25519,
            key.private_key@ == private_key@,
            key.public_key@ == public_key@,
            key.key_tag == key_tag_of(public_key@),
            key.algorithm == ED25519_ALGORITHM,
    {
        let key_tag = calculate_key_tag(public_key.as_slice());
        DNSSECKey {
            key_type: KeyType::Ed25519,
            private_key,
            public_key,
            key_tag,
            algorithm: ED25519_ALGORITHM,
        }
    }

    /// The key that comes of what the generator gave. Where it gave a
    /// document, this is the private part, and the public part is that of
    /// the key pair in it; a document that holds no key pair gives no key.
    pub fn from_generated(generated: Option<Vec<u8>>) -> (r: Result<DNSSECKey, KeyError>)
        ensures
            match key_of_generated(opt_octets(generated)) {
                Ok(key) => r is Ok && r->Ok_0@ == key,
                Err(e) => r is Err && r->Err_0 == e,
            },
    {
        let private_key = match generated {
            Some(document) => document,
            None => {
                return Err(KeyError::GenerationFailed);
            },
        };
        match ed25519_public_key(private_key.as_slice()) {
            Some(public_key) => Ok(DNSSECKey::from_ed25519(private_key, public_key)),
            None => Err(KeyError::InvalidKey),
        }
    }

    /// Generates an Ed25519 key. The public part is that of the private
    /// part, and the tag is that of the public part. Other kinds of key
    /// cannot be generated. Whether a key comes is for the generator to
    /// decide: what comes of each of its answers, `from_generated` says.
    pub fn generate(key_type: KeyType) -> (r: Result<DNSSECKey, KeyError>)
        requires
            key_type == KeyType::Ed25519,
        ensures
            match r {
                Ok(key) => {
                    &&& key.key_type == KeyType::Ed25519
                    &&& ed25519_public_of(key.private_key@) == Some(key.public_key@)
                    &&& key.key_tag == key_tag_of(key.public_key@)
                    &&& key.algorithm == ED25519_ALGORITHM
                },
                Err(_) => true,
            },
    {
        DNSSECKey::from_generated(ed25519_new_pkcs8())
    }
}

} // verus!
