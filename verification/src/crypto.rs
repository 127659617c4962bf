//! Hashes, keys, addresses and signatures.

use k256::ecdsa::signature::hazmat::PrehashSigner;
use vstd::prelude::*;
use vstd::utf8::encode_utf8;

use crate::encoding::{
    base64_text, be_value, decode_hex, encode_base64, encode_hex, hex_bytes, hex_decoded, hex_text,
    is_hex, law_base64_length,
};
use crate::text::{chars_of, text_of};

verus! {

// ---------------------------------------------------------------------------
// Hash
// ---------------------------------------------------------------------------

/// The Keccak-256 hash.
pub uninterp spec fn keccak(data: Seq<u8>) -> Seq<u8>;

/// `alloy_primitives::keccak256`: the Keccak-256 hash, named `keccak`.
#[verifier::external_body]
pub(crate) fn keccak256(data: &[u8]) -> (r: [u8; 32])
    ensures
        r@ == keccak(data@),
{
    alloy_primitives::keccak256(data).0
}

/// The hash of the UTF-8 bytes of a text.
pub open spec fn keccak_text(s: Seq<char>) -> Seq<u8> {
    keccak(encode_utf8(s))
}

/// Hashes the UTF-8 bytes of a text.
pub fn hash_text(s: &str) -> (r: [u8; 32])
    ensures
        r@ == keccak_text(s@),
{
    keccak256(s.as_bytes())
}

// ---------------------------------------------------------------------------
// Addresses
// ---------------------------------------------------------------------------

/// An account or contract address.
#[derive(Clone, Copy, Debug)]
pub struct Address {
    pub bytes: [u8; 20],
}

/// The bytes of the address that a text denotes: forty hexadecimal digits of
/// either case, after at most one `0x` or `0X`.
pub open spec fn address_bytes(s: Seq<char>) -> Option<Seq<u8>> {
    let body = if s.len() >= 2 && s[0] == '0' && (s[1] == 'x' || s[1] == 'X') {
        s.skip(2)
    } else {
        s
    };
    if body.len() == 40 && (forall|i: int| 0 <= i < 40 ==> is_hex(#[trigger] body[i])) {
        Some(hex_bytes(body))
    } else {
        None
    }
}

/// `FromStr` of `alloy_primitives::Address`: the address that a text denotes.
/// The case of the digits is not looked at.
#[verifier::external_body]
fn read_address(s: &str) -> (r: Option<[u8; 20]>)
    ensures
        match r {
            Some(a) => address_bytes(s@) == Some(a@),
            None => address_bytes(s@) is None,
        },
{
    match s.parse::<alloy_primitives::Address>() {
        Ok(a) => Some(a.into_array()),
        Err(_) => None,
    }
}

/// Half a byte of a row of bytes, the upper half of each first.
pub open spec fn nibble(bytes: Seq<u8>, i: int) -> nat {
    if i % 2 == 0 {
        (bytes[i / 2] / 16) as nat
    } else {
        (bytes[i / 2] % 16) as nat
    }
}

/// An address in hexadecimal after `0x`. A letter is in upper case where the
/// half byte at its place in the hash of the lower case digits is eight or
/// more.
pub open spec fn checksummed(bytes: Seq<u8>) -> Seq<char> {
    let lower = hex_text(bytes);
    let hash = keccak_text(lower);
    seq!['0', 'x'] + Seq::new(
        lower.len(),
        |i: int|
            if lower[i] >= 'a' && nibble(hash, i) >= 8 {
                (lower[i] as u32 - 32) as char
            } else {
                lower[i]
            },
    )
}

/// `to_checksum` of `alloy_primitives::Address` without a chain id, which its
/// `Display` writes: the address with the case of its letters as a checksum.
#[verifier::external_body]
fn write_address(bytes: &[u8; 20]) -> (r: String)
    ensures
        r@ == checksummed(bytes@),
{
    alloy_primitives::Address::from(*bytes).to_checksum(None)
}

impl Address {
    /// The address that a text denotes.
    pub fn parse(s: &str) -> (r: Option<Address>)
        ensures
            match r {
                Some(a) => address_bytes(s@) == Some(a.bytes@),
                None => address_bytes(s@) is None,
            },
    {
        match read_address(s) {
            Some(bytes) => Some(Address { bytes }),
            None => None,
        }
    }

    /// The address as text, with its checksum.
    pub fn to_text(&self) -> (r: String)
        ensures
            r@ == checksummed(self.bytes@),
    {
        write_address(&self.bytes)
    }
}

proof fn lemma_hex_text_is_hex(bytes: Seq<u8>, i: int)
    requires
        0 <= i < 2 * bytes.len(),
    ensures
        is_hex(hex_text(bytes)[i]),
        hex_text(bytes)[i] >= 'a' ==> is_hex((hex_text(bytes)[i] as u32 - 32) as char),
        hex_text(bytes)[i] >= 'a' ==> crate::encoding::hex_value(
            (hex_text(bytes)[i] as u32 - 32) as char,
        ) == crate::encoding::hex_value(hex_text(bytes)[i]),
{
}

/// The text of an address denotes the address.
pub proof fn law_address_round_trip(bytes: Seq<u8>)
    requires
        bytes.len() == 20,
    ensures
        address_bytes(checksummed(bytes)) == Some(bytes),
{
    let s = checksummed(bytes);
    let lower = hex_text(bytes);
    let body = s.skip(2);
    assert(body.len() == 40);
    assert forall|i: int| 0 <= i < 40 implies is_hex(#[trigger] body[i])
        && crate::encoding::hex_value(body[i]) == crate::encoding::hex_value(lower[i]) by {
        lemma_hex_text_is_hex(bytes, i);
        assert(body[i] == s[i + 2]);
    }
    crate::encoding::law_hex_round_trip(bytes);
    assert forall|i: int| 0 <= i < 20 implies hex_bytes(body)[i] == hex_bytes(lower)[i] by {
        assert(is_hex(body[2 * i]));
        assert(is_hex(body[2 * i + 1]));
    }
    assert(hex_bytes(body) =~= hex_bytes(lower));
}

// ---------------------------------------------------------------------------
// Keys
// ---------------------------------------------------------------------------

/// The order of the group that the curve secp256k1 generates.
pub open spec fn curve_order() -> nat {
    0xFFFFFFFF_FFFFFFFF_FFFFFFFF_FFFFFFFE_BAAEDCE6_AF48A03B_BFD25E8C_D0364141nat
}

/// Whether bytes are a private key: a number above zero and below the order.
pub open spec fn valid_scalar(bytes: Seq<u8>) -> bool {
    bytes.len() == 32 && 0 < be_value(bytes) < curve_order()
}

/// `from_bytes` of `k256::ecdsa::SigningKey`: takes thirty-two bytes that
/// denote a number above zero and below the order of the curve.
#[verifier::external_body]
fn is_signing_key(bytes: &[u8; 32]) -> (r: bool)
    ensures
        r == valid_scalar(bytes@),
{
    k256::ecdsa::SigningKey::from_bytes(bytes.into()).is_ok()
}

/// The public key of a private key, as an uncompressed point.
pub uninterp spec fn curve_point(key: Seq<u8>) -> Seq<u8>;

/// `verifying_key` of `k256::ecdsa::SigningKey` and `to_encoded_point(false)`
/// of that: the public key as an uncompressed point of sixty-five bytes, named
/// `curve_point`. The first byte, which marks the form, is four.
#[verifier::external_body]
fn public_point(bytes: &[u8; 32]) -> (r: [u8; 65])
    requires
        valid_scalar(bytes@),
    ensures
        r@ == curve_point(bytes@),
        r@[0] == 4,
{
    let key = k256::ecdsa::SigningKey::from_bytes(bytes.into()).unwrap();
    let point = key.verifying_key().to_encoded_point(false);
    point.as_bytes().try_into().unwrap()
}

/// The signature of a hash with a private key: sixty-four bytes and a recovery
/// id.
pub uninterp spec fn ecdsa_signature(key: Seq<u8>, hash: Seq<u8>) -> Option<(Seq<u8>, u8)>;

/// The public key, as an uncompressed point, that
/// `k256::ecdsa::VerifyingKey::recover_from_prehash` recovers from a hash, a
/// signature of sixty-four bytes and a recovery id.
pub uninterp spec fn recovered_point(
    hash: Seq<u8>,
    signature: Seq<u8>,
    recovery_id: u8,
) -> Option<Seq<u8>>;

/// `sign_prehash` of `k256::ecdsa::SigningKey`: signs a hash, with a nonce that
/// the key and the hash determine. The result is named `ecdsa_signature`; a
/// recovery id is at most three. From the hash, the signature and the recovery
/// id `recover_from_prehash` recovers the public key of the private key, which
/// is named `recovered_point`.
#[verifier::external_body]
fn sign_prehash(bytes: &[u8; 32], hash: &[u8; 32]) -> (r: Option<([u8; 64], u8)>)
    requires
        valid_scalar(bytes@),
    ensures
        match r {
            Some((s, v)) => {
                &&& ecdsa_signature(bytes@, hash@) == Some((s@, v))
                &&& v <= 3
                &&& recovered_point(hash@, s@, v) == Some(curve_point(bytes@))
            },
            None => ecdsa_signature(bytes@, hash@) is None,
        },
{
    let key = k256::ecdsa::SigningKey::from_bytes(bytes.into()).unwrap();
    let signed: Result<(k256::ecdsa::Signature, k256::ecdsa::RecoveryId), _> = key.sign_prehash(hash);
    match signed {
        Ok((s, v)) => Some((s.to_bytes().into(), v.to_byte())),
        Err(_) => None,
    }
}

/// A private key.
#[derive(Clone, Copy)]
pub struct SigningKey {
    pub bytes: [u8; 32],
}

impl SigningKey {
    pub open spec fn wf(&self) -> bool {
        valid_scalar(self.bytes@)
    }
}

/// Why a text is no private key.
#[derive(Clone, Copy, Debug, PartialEq, Eq, Structural)]
pub enum KeyError {
    InvalidHex,
    WrongLength,
    InvalidKey,
}

/// A text without a `0x` at its beginning.
pub open spec fn without_0x(s: Seq<char>) -> Seq<char> {
    if s.len() >= 2 && s[0] == '0' && s[1] == 'x' {
        s.skip(2)
    } else {
        s
    }
}

fn strip_0x(s: &str) -> (r: String)
    ensures
        r@ == without_0x(s@),
{
    let chars = chars_of(s);
    let len = chars.len();
    let start: usize = if len >= 2 && chars[0] == '0' && chars[1] == 'x' {
        2
    } else {
        0
    };
    let r = text_of(&chars, start, len);
    assert(r@ =~= without_0x(s@));
    r
}

/// Reads a private key: the hexadecimal digits of thirty-two bytes, after at
/// most one `0x`.
pub fn signing_key_from_hex(hex_str: &str) -> (r: Result<SigningKey, KeyError>)
    ensures
        match r {
            Ok(k) => k.wf() && hex_decoded(without_0x(hex_str@)) == Some(k.bytes@),
            Err(KeyError::InvalidHex) => hex_decoded(without_0x(hex_str@)) is None,
            Err(KeyError::WrongLength) => hex_decoded(without_0x(hex_str@)) matches Some(b)
                && b.len() != 32,
            Err(KeyError::InvalidKey) => hex_decoded(without_0x(hex_str@)) matches Some(b)
                && b.len() == 32 && !valid_scalar(b),
        },
{
    let body = strip_0x(hex_str);
    match decode_hex(body.as_str()) {
        None => Err(KeyError::InvalidHex),
        Some(decoded) => {
            if decoded.len() != 32 {
                return Err(KeyError::WrongLength);
            }
            let mut bytes: [u8; 32] = [0u8; 32];
            let mut i: usize = 0;
            while i < 32
                invariant
                    i <= 32,
                    decoded@.len() == 32,
                    forall|k: int| 0 <= k < i ==> bytes@[k] == decoded@[k],
                decreases 32 - i,
            {
                bytes[i] = decoded[i];
                i += 1;
            }
            assert(bytes@ =~= decoded@);
            if is_signing_key(&bytes) {
                Ok(SigningKey { bytes })
            } else {
                Err(KeyError::InvalidKey)
            }
        },
    }
}

/// The address of a public key by the hash of its point: the last twenty bytes.
pub fn address_of_hash(hash: &[u8; 32]) -> (r: Address)
    ensures
        r.bytes@ == hash@.skip(12),
{
    let mut bytes: [u8; 20] = [0u8; 20];
    let mut i: usize = 0;
    while i < 20
        invariant
            i <= 20,
            forall|k: int| 0 <= k < i ==> bytes@[k] == hash@[k + 12],
        decreases 20 - i,
    {
        bytes[i] = hash[i + 12];
        i += 1;
    }
    assert(bytes@ =~= hash@.skip(12));
    Address { bytes }
}

/// The address of a private key.
pub open spec fn key_address(key: Seq<u8>) -> Seq<u8> {
    keccak(curve_point(key).skip(1)).skip(12)
}

/// The address of a private key: the last twenty bytes of the hash of the two
/// coordinates of its public key.
pub fn address_from_key(key: &SigningKey) -> (r: Address)
    requires
        key.wf(),
    ensures
        r.bytes@ == key_address(key.bytes@),
{
    let point = public_point(&key.bytes);
    let mut coordinates: Vec<u8> = Vec::new();
    let mut i: usize = 1;
    while i < 65
        invariant
            1 <= i <= 65,
            coordinates@ == point@.subrange(1, i as int),
        decreases 65 - i,
    {
        coordinates.push(point[i]);
        i += 1;
        assert(coordinates@ =~= point@.subrange(1, i as int));
    }
    assert(coordinates@ =~= point@.skip(1));
    let hash = keccak256(coordinates.as_slice());
    address_of_hash(&hash)
}

// ---------------------------------------------------------------------------
// Signatures
// ---------------------------------------------------------------------------

/// A signature and the recovery id after it, from twenty-seven on.
pub open spec fn with_recovery(signature: Seq<u8>, recovery_id: u8) -> Seq<u8> {
    signature.push(
        if recovery_id < 27 {
            (recovery_id + 27) as u8
        } else {
            recovery_id
        },
    )
}

/// Puts the recovery id after a signature.
pub fn recoverable_signature(signature: &[u8; 64], recovery_id: u8) -> (r: [u8; 65])
    ensures
        r@ == with_recovery(signature@, recovery_id),
{
    let mut bytes: [u8; 65] = [0u8; 65];
    let mut i: usize = 0;
    while i < 64
        invariant
            i <= 64,
            forall|k: int| 0 <= k < i ==> bytes@[k] == signature@[k],
        decreases 64 - i,
    {
        bytes[i] = signature[i];
        i += 1;
    }
    bytes[64] = if recovery_id < 27 {
        recovery_id + 27
    } else {
        recovery_id
    };
    assert(bytes@ =~= with_recovery(signature@, recovery_id));
    bytes
}

/// The recoverable signature of a hash.
pub open spec fn hash_signature(key: Seq<u8>, hash: Seq<u8>) -> Option<Seq<u8>> {
    match ecdsa_signature(key, hash) {
        Some((s, v)) => Some(with_recovery(s, v)),
        None => None,
    }
}

/// Whether the public key of a private key can be recovered from a hash and a
/// signature with its recovery id.
pub open spec fn recovers(signature: Seq<u8>, hash: Seq<u8>, key: Seq<u8>) -> bool {
    recovered_point(hash, signature.take(64), (signature[64] - 27) as u8) == Some(curve_point(key))
}

/// Signs a hash; `None` where there is no signature. The last byte is the
/// recovery id, from twenty-seven to thirty, and with it the public key can be
/// recovered from the hash and the signature.
pub fn sign_hash(key: &SigningKey, hash: &[u8; 32]) -> (r: Option<[u8; 65]>)
    requires
        key.wf(),
    ensures
        match r {
            Some(s) => {
                &&& hash_signature(key.bytes@, hash@) == Some(s@)
                &&& 27 <= s@[64] <= 30
                &&& recovers(s@, hash@, key.bytes@)
            },
            None => hash_signature(key.bytes@, hash@) is None,
        },
{
    match sign_prehash(&key.bytes, hash) {
        Some((s, v)) => {
            let r = recoverable_signature(&s, v);
            assert(r@.take(64) =~= s@);
            Some(r)
        },
        None => None,
    }
}

/// Signs a hash and writes the signature in hexadecimal after `0x`.
pub fn sign_hash_hex(key: &SigningKey, hash: &[u8; 32]) -> (r: Option<String>)
    requires
        key.wf(),
    ensures
        match r {
            Some(s) => {
                &&& hash_signature(key.bytes@, hash@) matches Some(b)
                &&& s@ == "0x"@ + hex_text(b)
                &&& s@.len() == 132
                &&& recovers(b, hash@, key.bytes@)
            },
            None => hash_signature(key.bytes@, hash@) is None,
        },
{
    match sign_hash(key, hash) {
        Some(bytes) => {
            let digits = encode_hex(&bytes);
            let mut out = "0x".to_owned();
            out.append(digits.as_str());
            proof {
                reveal_strlit("0x");
            }
            Some(out)
        },
        None => None,
    }
}

/// Signs a hash and writes the signature in base64.
pub fn sign_hash_base64(key: &SigningKey, hash: &[u8; 32]) -> (r: Option<String>)
    requires
        key.wf(),
    ensures
        match r {
            Some(s) => {
                &&& hash_signature(key.bytes@, hash@) matches Some(b)
                &&& s@ == base64_text(b)
                &&& s@.len() == 88
                &&& recovers(b, hash@, key.bytes@)
            },
            None => hash_signature(key.bytes@, hash@) is None,
        },
{
    match sign_hash(key, hash) {
        Some(bytes) => {
            proof {
                law_base64_length(bytes@);
            }
            Some(encode_base64(&bytes))
        },
        None => None,
    }
}

/// An address is the last twenty of the thirty-two bytes of the hash of a public
/// key's two coordinates, which are the point without its first byte.
pub proof fn law_key_address(key: Seq<u8>, coordinates: Seq<u8>, hash: Seq<u8>)
    requires
        curve_point(key).len() == coordinates.len() + 1,
        forall|i: int| 0 <= i < coordinates.len() ==> coordinates[i] == #[trigger] curve_point(
            key,
        )[i + 1],
        hash == keccak(coordinates),
        hash.len() == 32,
    ensures
        key_address(key).len() == 20,
        forall|i: int| 0 <= i < 20 ==> #[trigger] key_address(key)[i] == hash[i + 12],
{
    assert(curve_point(key).skip(1) =~= coordinates);
}

/// The bytes of a recoverable signature: those of the signature, and then the
/// recovery id raised by twenty-seven, or as it is where it is that already.
pub proof fn law_with_recovery(signature: Seq<u8>, recovery_id: u8)
    requires
        signature.len() == 64,
    ensures
        with_recovery(signature, recovery_id).len() == 65,
        with_recovery(signature, recovery_id).take(64) == signature,
        recovery_id < 27 ==> with_recovery(signature, recovery_id)[64] == recovery_id + 27,
        recovery_id >= 27 ==> with_recovery(signature, recovery_id)[64] == recovery_id,
{
    assert(with_recovery(signature, recovery_id).take(64) =~= signature);
}

/// The signature of a hash is that of the key, and its last byte tells the
/// recovery id with which the public key is recovered from it.
pub proof fn law_recoverable(key: Seq<u8>, hash: Seq<u8>, signature: Seq<u8>, recovery_id: u8)
    requires
        ecdsa_signature(key, hash) == Some((signature, recovery_id)),
        signature.len() == 64,
        recovery_id <= 3,
    ensures
        hash_signature(key, hash) is Some,
        hash_signature(key, hash)->0.len() == 65,
        hash_signature(key, hash)->0.take(64) == signature,
        hash_signature(key, hash)->0[64] - 27 == recovery_id,
        recovers(hash_signature(key, hash)->0, hash, key) == (recovered_point(
            hash,
            signature,
            recovery_id,
        ) == Some(curve_point(key))),
{
    law_with_recovery(signature, recovery_id);
}

/// Where the key gives no signature of a hash there is none.
pub proof fn law_unsigned(key: Seq<u8>, hash: Seq<u8>)
    ensures
        (hash_signature(key, hash) is None) == (ecdsa_signature(key, hash) is None),
{
}

/// The hash of a text is that of its UTF-8 bytes.
pub proof fn law_hash_of_text(s: Seq<char>)
    ensures
        keccak_text(s) == keccak(encode_utf8(s)),
{
}

/// One `0x` in front of a text is dropped, and a text without one stays.
pub proof fn law_without_0x(s: Seq<char>)
    ensures
        without_0x(seq!['0', 'x'] + s) == s,
        s.len() < 2 || s[0] != '0' || s[1] != 'x' ==> without_0x(s) == s,
{
    let t = seq!['0', 'x'] + s;
    assert(t.skip(2) =~= s);
}

} // verus!
