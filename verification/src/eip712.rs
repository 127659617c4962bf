//! Typed data as EIP-712 hashes it for signing.

use vstd::prelude::*;
use vstd::utf8::encode_utf8;

use crate::crypto::{hash_text, keccak, keccak256, keccak_text, Address};
use crate::encoding::{
    append_address, append_bytes, append_word, be_value, law_left_padded, law_word, left_padded,
    word,
};

verus! {

/// The largest value of the type `uint48`.
pub const MAX_UINT48: u64 = 0xffff_ffff_ffff;

/// The type of the domain.
pub const DOMAIN_TYPE: &'static str =
    "EIP712Domain(string name,string version,uint256 chainId,address verifyingContract)";

/// The type of a request to register a signer, signed by the account.
pub const REGISTER_SIGNER_TYPE: &'static str =
    "RegisterSigner(address account,address signer,string message,uint32 expiration,uint48 nonceAnchor,uint8 nonceBitmap)";

/// The type of a proof that the signer agrees, signed by the signer.
pub const VERIFY_SIGNER_TYPE: &'static str =
    "VerifySigner(address account,uint48 nonceAnchor,uint8 nonceBitmap)";

/// The type of a permit for one action, signed by the signer.
pub const VERIFY_WITNESS_TYPE: &'static str =
    "VerifyWitness(address account,address target,bytes32 hash,uint48 nonceAnchor,uint8 nonceBitmap,uint32 deadline)";

// ---------------------------------------------------------------------------
// Domain
// ---------------------------------------------------------------------------

/// The separator of a domain: the hash of its type, name and version, of its
/// chain id and of its contract.
pub open spec fn domain_hash(
    name: Seq<char>,
    version: Seq<char>,
    chain_id: u64,
    contract: Seq<u8>,
) -> Seq<u8> {
    keccak(
        keccak_text(DOMAIN_TYPE@) + keccak_text(name) + keccak_text(version) + word(
            chain_id as nat,
        ) + left_padded(contract),
    )
}

/// `hash_struct` of `alloy_sol_types::Eip712Domain`, with a name, a version, a
/// chain id and a contract and without a salt: the hash of the hash of its type
/// and of one word for each of the four, the texts by their hashes.
#[verifier::external_body]
pub(crate) fn domain_separator(
    name: &str,
    version: &str,
    chain_id: u64,
    contract: &[u8; 20],
) -> (r: [u8; 32])
    ensures
        r@ == domain_hash(name@, version@, chain_id, contract@),
{
    alloy_sol_types::Eip712Domain::new(
        Some(name.to_string().into()),
        Some(version.to_string().into()),
        Some(alloy_primitives::U256::from(chain_id)),
        Some(alloy_primitives::Address::from(*contract)),
        None,
    ).hash_struct().0
}

/// The separator of a domain.
pub fn separator_of(name: &str, version: &str, chain_id: u64, contract: &Address) -> (r: [u8; 32])
    ensures
        r@ == domain_hash(name@, version@, chain_id, contract.bytes@),
{
    domain_separator(name, version, chain_id, &contract.bytes)
}

// ---------------------------------------------------------------------------
// Structs
// ---------------------------------------------------------------------------

/// The type and the fields of a request to register a signer, one word each;
/// the message by its hash.
pub open spec fn register_signer_bytes(
    account: Seq<u8>,
    signer: Seq<u8>,
    message: Seq<char>,
    expiration: u32,
    nonce_anchor: u64,
    nonce_bitmap: u8,
) -> Seq<u8> {
    keccak_text(REGISTER_SIGNER_TYPE@) + left_padded(account) + left_padded(signer) + keccak_text(
        message,
    ) + word(expiration as nat) + word(nonce_anchor as nat) + word(nonce_bitmap as nat)
}

/// A request to register a signer for an account.
pub struct RegisterSigner {
    pub account: Address,
    pub signer: Address,
    pub message: String,
    pub expiration: u32,
    pub nonce_anchor: u64,
    pub nonce_bitmap: u8,
}

impl RegisterSigner {
    pub open spec fn wf(&self) -> bool {
        self.nonce_anchor <= MAX_UINT48
    }

    pub open spec fn encoded(&self) -> Seq<u8> {
        register_signer_bytes(
            self.account.bytes@,
            self.signer.bytes@,
            self.message@,
            self.expiration,
            self.nonce_anchor,
            self.nonce_bitmap,
        )
    }

    /// The bytes whose hash stands for the request.
    pub fn encode(&self) -> (r: Vec<u8>)
        requires
            self.wf(),
        ensures
            r@ == self.encoded(),
    {
        let mut out: Vec<u8> = Vec::new();
        append_bytes(&mut out, &hash_text(REGISTER_SIGNER_TYPE));
        append_address(&mut out, &self.account.bytes);
        append_address(&mut out, &self.signer.bytes);
        append_bytes(&mut out, &hash_text(self.message.as_str()));
        append_word(&mut out, self.expiration as u128);
        append_word(&mut out, self.nonce_anchor as u128);
        append_word(&mut out, self.nonce_bitmap as u128);
        assert(out@ =~= self.encoded());
        out
    }

    /// The hash that stands for the request.
    pub fn hash_struct(&self) -> (r: [u8; 32])
        requires
            self.wf(),
        ensures
            r@ == keccak(self.encoded()),
    {
        keccak256(self.encode().as_slice())
    }
}

/// A signer's agreement to act for an account.
pub struct VerifySigner {
    pub account: Address,
    pub nonce_anchor: u64,
    pub nonce_bitmap: u8,
}

impl VerifySigner {
    pub open spec fn wf(&self) -> bool {
        self.nonce_anchor <= MAX_UINT48
    }

    /// The type and the fields, one word each.
    pub open spec fn encoded(&self) -> Seq<u8> {
        keccak_text(VERIFY_SIGNER_TYPE@) + left_padded(self.account.bytes@) + word(
            self.nonce_anchor as nat,
        ) + word(self.nonce_bitmap as nat)
    }

    /// The bytes whose hash stands for the agreement.
    pub fn encode(&self) -> (r: Vec<u8>)
        requires
            self.wf(),
        ensures
            r@ == self.encoded(),
    {
        let mut out: Vec<u8> = Vec::new();
        append_bytes(&mut out, &hash_text(VERIFY_SIGNER_TYPE));
        append_address(&mut out, &self.account.bytes);
        append_word(&mut out, self.nonce_anchor as u128);
        append_word(&mut out, self.nonce_bitmap as u128);
        assert(out@ =~= self.encoded());
        out
    }

    /// The hash that stands for the agreement.
    pub fn hash_struct(&self) -> (r: [u8; 32])
        requires
            self.wf(),
        ensures
            r@ == keccak(self.encoded()),
    {
        keccak256(self.encode().as_slice())
    }
}

/// The type and the fields of a permit, one word each.
pub open spec fn witness_bytes(
    account: Seq<u8>,
    target: Seq<u8>,
    hash: Seq<u8>,
    nonce_anchor: u64,
    nonce_bitmap: u8,
    deadline: u32,
) -> Seq<u8> {
    keccak_text(VERIFY_WITNESS_TYPE@) + left_padded(account) + left_padded(target) + hash + word(
        nonce_anchor as nat,
    ) + word(nonce_bitmap as nat) + word(deadline as nat)
}

/// A permit for the action that a hash stands for, at a contract.
pub struct VerifyWitness {
    pub account: Address,
    pub target: Address,
    pub hash: [u8; 32],
    pub nonce_anchor: u64,
    pub nonce_bitmap: u8,
    pub deadline: u32,
}

impl VerifyWitness {
    pub open spec fn wf(&self) -> bool {
        self.nonce_anchor <= MAX_UINT48
    }

    pub open spec fn encoded(&self) -> Seq<u8> {
        witness_bytes(
            self.account.bytes@,
            self.target.bytes@,
            self.hash@,
            self.nonce_anchor,
            self.nonce_bitmap,
            self.deadline,
        )
    }

    /// The bytes whose hash stands for the permit.
    pub fn encode(&self) -> (r: Vec<u8>)
        requires
            self.wf(),
        ensures
            r@ == self.encoded(),
    {
        let mut out: Vec<u8> = Vec::new();
        append_bytes(&mut out, &hash_text(VERIFY_WITNESS_TYPE));
        append_address(&mut out, &self.account.bytes);
        append_address(&mut out, &self.target.bytes);
        append_bytes(&mut out, &self.hash);
        append_word(&mut out, self.nonce_anchor as u128);
        append_word(&mut out, self.nonce_bitmap as u128);
        append_word(&mut out, self.deadline as u128);
        assert(out@ =~= self.encoded());
        out
    }

    /// The hash that stands for the permit.
    pub fn hash_struct(&self) -> (r: [u8; 32])
        requires
            self.wf(),
        ensures
            r@ == keccak(self.encoded()),
    {
        keccak256(self.encode().as_slice())
    }
}

// ---------------------------------------------------------------------------
// Digest
// ---------------------------------------------------------------------------

/// What is hashed for signing: two marker bytes, the separator and the hash of
/// the struct.
pub open spec fn signing_bytes(separator: Seq<u8>, struct_hash: Seq<u8>) -> Seq<u8> {
    seq![0x19u8, 0x01u8] + separator + struct_hash
}

/// The bytes that are hashed for signing.
pub fn signing_preimage(separator: &[u8; 32], struct_hash: &[u8; 32]) -> (r: Vec<u8>)
    ensures
        r@ == signing_bytes(separator@, struct_hash@),
        r@.len() == 66,
{
    let mut data: Vec<u8> = Vec::new();
    data.push(0x19);
    data.push(0x01);
    append_bytes(&mut data, separator);
    append_bytes(&mut data, struct_hash);
    assert(data@ =~= signing_bytes(separator@, struct_hash@));
    data
}

/// The digest that is signed.
pub open spec fn digest(separator: Seq<u8>, struct_hash: Seq<u8>) -> Seq<u8> {
    keccak(signing_bytes(separator, struct_hash))
}

/// The digest that is signed for a struct in a domain.
pub fn eip712_hash(domain_separator: &[u8; 32], struct_hash: &[u8; 32]) -> (r: [u8; 32])
    ensures
        r@ == digest(domain_separator@, struct_hash@),
{
    keccak256(signing_preimage(domain_separator, struct_hash).as_slice())
}

/// Different domains and different structs are different bytes to hash.
pub proof fn law_signing_bytes_differ(
    separator1: Seq<u8>,
    hash1: Seq<u8>,
    separator2: Seq<u8>,
    hash2: Seq<u8>,
)
    requires
        separator1.len() == 32,
        separator2.len() == 32,
        hash1.len() == 32,
        hash2.len() == 32,
        signing_bytes(separator1, hash1) == signing_bytes(separator2, hash2),
    ensures
        separator1 == separator2,
        hash1 == hash2,
{
    let a = signing_bytes(separator1, hash1);
    let b = signing_bytes(separator2, hash2);
    assert(separator1 =~= a.subrange(2, 34));
    assert(separator2 =~= b.subrange(2, 34));
    assert(hash1 =~= a.subrange(34, 66));
    assert(hash2 =~= b.subrange(34, 66));
}

/// What is hashed for a permit: the hash of the type, and then six times
/// thirty-two bytes: the account and the target after twelve zeros, the hash of
/// the action, and as numbers the nonce, the place in its bitmap and the
/// deadline.
pub proof fn law_witness_words(
    account: Seq<u8>,
    target: Seq<u8>,
    hash: Seq<u8>,
    nonce_anchor: u64,
    nonce_bitmap: u8,
    deadline: u32,
)
    requires
        account.len() == 20,
        target.len() == 20,
        hash.len() == 32,
    ensures
        ({
            let bytes = witness_bytes(account, target, hash, nonce_anchor, nonce_bitmap, deadline);
            let kind = keccak(
                encode_utf8(
                    "VerifyWitness(address account,address target,bytes32 hash,uint48 nonceAnchor,uint8 nonceBitmap,uint32 deadline)"@,
                ),
            );
            let w = bytes.skip(kind.len() as int);
            &&& bytes == kind + w
            &&& w.len() == 192
            &&& forall|i: int| 0 <= i < 12 ==> #[trigger] w[i] == 0
            &&& forall|i: int| 32 <= i < 44 ==> #[trigger] w[i] == 0
            &&& w.subrange(12, 32) == account
            &&& w.subrange(44, 64) == target
            &&& w.subrange(64, 96) == hash
            &&& be_value(w.subrange(96, 128)) == nonce_anchor
            &&& be_value(w.subrange(128, 160)) == nonce_bitmap
            &&& be_value(w.subrange(160, 192)) == deadline
        }),
{
    let bytes = witness_bytes(account, target, hash, nonce_anchor, nonce_bitmap, deadline);
    let kind = keccak_text(VERIFY_WITNESS_TYPE@);
    let w = bytes.skip(kind.len() as int);
    law_left_padded(account);
    law_left_padded(target);
    law_word(nonce_anchor as nat);
    law_word(nonce_bitmap as nat);
    law_word(deadline as nat);
    assert(w =~= left_padded(account) + left_padded(target) + hash + word(nonce_anchor as nat)
        + word(nonce_bitmap as nat) + word(deadline as nat));
    assert(bytes =~= kind + w);
    assert(w.subrange(12, 32) =~= account);
    assert(w.subrange(44, 64) =~= target);
    assert(w.subrange(64, 96) =~= hash);
    assert(w.subrange(96, 128) =~= word(nonce_anchor as nat));
    assert(w.subrange(128, 160) =~= word(nonce_bitmap as nat));
    assert(w.subrange(160, 192) =~= word(deadline as nat));
    assert forall|i: int| 0 <= i < 12 implies #[trigger] w[i] == 0 by {
        assert(w[i] == left_padded(account)[i]);
    }
    assert forall|i: int| 32 <= i < 44 implies #[trigger] w[i] == 0 by {
        assert(w[i] == left_padded(target)[i - 32]);
    }
}

/// Permits that differ in a field are different bytes to hash: a signature for
/// one nonce, place, deadline, action, account or target is over other bytes
/// than one for another.
pub proof fn law_witness_bytes_differ(
    account1: Seq<u8>,
    target1: Seq<u8>,
    hash1: Seq<u8>,
    nonce_anchor1: u64,
    nonce_bitmap1: u8,
    deadline1: u32,
    account2: Seq<u8>,
    target2: Seq<u8>,
    hash2: Seq<u8>,
    nonce_anchor2: u64,
    nonce_bitmap2: u8,
    deadline2: u32,
)
    requires
        account1.len() == 20,
        account2.len() == 20,
        target1.len() == 20,
        target2.len() == 20,
        hash1.len() == 32,
        hash2.len() == 32,
        witness_bytes(account1, target1, hash1, nonce_anchor1, nonce_bitmap1, deadline1)
            == witness_bytes(account2, target2, hash2, nonce_anchor2, nonce_bitmap2, deadline2),
    ensures
        account1 == account2,
        target1 == target2,
        hash1 == hash2,
        nonce_anchor1 == nonce_anchor2,
        nonce_bitmap1 == nonce_bitmap2,
        deadline1 == deadline2,
{
    law_witness_words(account1, target1, hash1, nonce_anchor1, nonce_bitmap1, deadline1);
    law_witness_words(account2, target2, hash2, nonce_anchor2, nonce_bitmap2, deadline2);
}

/// What is hashed for a registration: the hash of the type, the account and the
/// signer after twelve zeros, the hash of the message, and as numbers the
/// expiration, the nonce and the place in its bitmap.
pub proof fn law_register_signer_words(
    account: Seq<u8>,
    signer: Seq<u8>,
    message: Seq<char>,
    expiration: u32,
    nonce_anchor: u64,
    nonce_bitmap: u8,
)
    requires
        account.len() == 20,
        signer.len() == 20,
    ensures
        ({
            let bytes = register_signer_bytes(
                account,
                signer,
                message,
                expiration,
                nonce_anchor,
                nonce_bitmap,
            );
            let kind = keccak(
                encode_utf8(
                    "RegisterSigner(address account,address signer,string message,uint32 expiration,uint48 nonceAnchor,uint8 nonceBitmap)"@,
                ),
            );
            let text = keccak(encode_utf8(message));
            let w = bytes.skip(kind.len() as int);
            let z = w.skip(64 + text.len() as int);
            &&& bytes == kind + w
            &&& w.len() == 160 + text.len()
            &&& forall|i: int| 0 <= i < 12 ==> #[trigger] w[i] == 0
            &&& forall|i: int| 32 <= i < 44 ==> #[trigger] w[i] == 0
            &&& w.subrange(12, 32) == account
            &&& w.subrange(44, 64) == signer
            &&& w.subrange(64, 64 + text.len() as int) == text
            &&& be_value(z.subrange(0, 32)) == expiration
            &&& be_value(z.subrange(32, 64)) == nonce_anchor
            &&& be_value(z.subrange(64, 96)) == nonce_bitmap
        }),
{
    let bytes = register_signer_bytes(
        account,
        signer,
        message,
        expiration,
        nonce_anchor,
        nonce_bitmap,
    );
    let kind = keccak_text(REGISTER_SIGNER_TYPE@);
    let text = keccak_text(message);
    let w = bytes.skip(kind.len() as int);
    let z = w.skip(64 + text.len() as int);
    law_left_padded(account);
    law_left_padded(signer);
    law_word(expiration as nat);
    law_word(nonce_anchor as nat);
    law_word(nonce_bitmap as nat);
    assert(w =~= left_padded(account) + left_padded(signer) + text + word(expiration as nat)
        + word(nonce_anchor as nat) + word(nonce_bitmap as nat));
    assert(bytes =~= kind + w);
    assert(z =~= word(expiration as nat) + word(nonce_anchor as nat) + word(nonce_bitmap as nat));
    assert(w.subrange(12, 32) =~= account);
    assert(w.subrange(44, 64) =~= signer);
    assert(w.subrange(64, 64 + text.len() as int) =~= text);
    assert(z.subrange(0, 32) =~= word(expiration as nat));
    assert(z.subrange(32, 64) =~= word(nonce_anchor as nat));
    assert(z.subrange(64, 96) =~= word(nonce_bitmap as nat));
    assert forall|i: int| 0 <= i < 12 implies #[trigger] w[i] == 0 by {
        assert(w[i] == left_padded(account)[i]);
    }
    assert forall|i: int| 32 <= i < 44 implies #[trigger] w[i] == 0 by {
        assert(w[i] == left_padded(signer)[i - 32]);
    }
}

/// What is hashed for a signer's agreement: the hash of the type, the account
/// after twelve zeros, and as numbers the nonce and the place in its bitmap.
pub proof fn law_verify_signer_words(agreement: VerifySigner)
    ensures
        ({
            let bytes = agreement.encoded();
            let kind = keccak(
                encode_utf8("VerifySigner(address account,uint48 nonceAnchor,uint8 nonceBitmap)"@),
            );
            let w = bytes.skip(kind.len() as int);
            &&& bytes == kind + w
            &&& w.len() == 96
            &&& forall|i: int| 0 <= i < 12 ==> w[i] == 0
            &&& w.subrange(12, 32) == agreement.account.bytes@
            &&& be_value(w.subrange(32, 64)) == agreement.nonce_anchor
            &&& be_value(w.subrange(64, 96)) == agreement.nonce_bitmap
        }),
{
    let bytes = agreement.encoded();
    let kind = keccak_text(VERIFY_SIGNER_TYPE@);
    let w = bytes.skip(kind.len() as int);
    law_left_padded(agreement.account.bytes@);
    law_word(agreement.nonce_anchor as nat);
    law_word(agreement.nonce_bitmap as nat);
    assert(w =~= left_padded(agreement.account.bytes@) + word(agreement.nonce_anchor as nat)
        + word(agreement.nonce_bitmap as nat));
    assert(bytes =~= kind + w);
    assert(w.subrange(12, 32) =~= agreement.account.bytes@);
    assert(w.subrange(32, 64) =~= word(agreement.nonce_anchor as nat));
    assert(w.subrange(64, 96) =~= word(agreement.nonce_bitmap as nat));
    assert forall|i: int| 0 <= i < 12 implies w[i] == 0 by {
        assert(w[i] == left_padded(agreement.account.bytes@)[i]);
    }
}

/// A struct holds in its hashed bytes its own fields, each in its place.
pub proof fn law_struct_fields(request: RegisterSigner, witness: VerifyWitness)
    ensures
        request.encoded() == register_signer_bytes(
            request.account.bytes@,
            request.signer.bytes@,
            request.message@,
            request.expiration,
            request.nonce_anchor,
            request.nonce_bitmap,
        ),
        witness.encoded() == witness_bytes(
            witness.account.bytes@,
            witness.target.bytes@,
            witness.hash@,
            witness.nonce_anchor,
            witness.nonce_bitmap,
            witness.deadline,
        ),
{
}

/// What is signed is the hash of sixty-six bytes: 0x19, 0x01, the separator of
/// the domain and the hash of the struct.
pub proof fn law_digest(separator: Seq<u8>, struct_hash: Seq<u8>, bytes: Seq<u8>)
    requires
        separator.len() == 32,
        struct_hash.len() == 32,
        bytes.len() == 66,
        bytes[0] == 0x19,
        bytes[1] == 0x01,
        bytes.subrange(2, 34) == separator,
        bytes.subrange(34, 66) == struct_hash,
    ensures
        signing_bytes(separator, struct_hash) == bytes,
        digest(separator, struct_hash) == keccak(bytes),
{
    let all = signing_bytes(separator, struct_hash);
    assert forall|i: int| 0 <= i < 66 implies all[i] == bytes[i] by {
        if 2 <= i < 34 {
            assert(bytes[i] == bytes.subrange(2, 34)[i - 2]);
        } else if i >= 34 {
            assert(bytes[i] == bytes.subrange(34, 66)[i - 34]);
        }
    }
    assert(all =~= bytes);
}

} // verus!
