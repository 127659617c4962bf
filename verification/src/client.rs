//! What the client sends: the registration of its signer, permits, orders, and
//! what it does with the answers.

use vstd::prelude::*;
use vstd::utf8::encode_utf8;

use crate::book::OrderbookLevel;
use crate::crypto::{
    address_bytes, address_from_key, checksummed, curve_point, ecdsa_signature, hash_signature,
    keccak, key_address, recovered_point, recovers, sign_hash_base64, sign_hash_hex, Address, SigningKey,
};
use crate::eip712::{
    digest, domain_hash, eip712_hash, law_register_signer_words, law_verify_signer_words,
    law_witness_words, register_signer_bytes, separator_of, witness_bytes,
    RegisterSigner, VerifySigner, VerifyWitness, MAX_UINT48,
};
use crate::encoding::{base64_text, be_value, hex_text};
use crate::order::{cancel_all_hash, encode_cancel_all_hash, order_hash, Order};
use crate::text::{
    all_digits, contains_text, decimal_string, decimal_text, digits_value, is_digit,
    law_occurs_in, occurs_in, parse_u64, same_text, unsigned_up_to, unsigned_value,
};

verus! {

/// How often a request is tried when its nonce is refused.
pub const MAX_NONCE_RETRIES: usize = 3;

/// The market that is traded.
pub const MARKET_SYMBOL: &'static str = "ETH/USDC";

/// How long a permit holds, in seconds.
pub const PERMIT_DEADLINE_SECS: u64 = 604800;

/// How long a signer is registered for, in seconds.
pub const SIGNER_EXPIRY_SECS: u64 = 2592000;

/// The message that the account signs to register a signer.
pub const REGISTER_MSG: &'static str = "Registering signer for RISEx";

/// The name under which a signer is registered.
pub const SIGNER_LABEL: &'static str = "rust-latency";

/// What an answer holds where the nonce was refused.
pub const NONCE_REFUSED: &'static str = "InvalidNonceIndex";

// ---------------------------------------------------------------------------
// Accounts and configuration
// ---------------------------------------------------------------------------

/// Why there is no account.
#[derive(Clone, Copy, Debug, PartialEq, Eq, Structural)]
pub enum AccountError {
    InvalidAddress,
    Missing,
}

/// The account: the address that is given, or else that of the account's key.
pub fn resolve_account(address: Option<&str>, key: &Option<SigningKey>) -> (r: Result<
    Address,
    AccountError,
>)
    requires
        *key matches Some(k) ==> k.wf(),
    ensures
        match r {
            Ok(a) => match address {
                Some(s) => address_bytes(s@) == Some(a.bytes@),
                None => *key matches Some(k) && a.bytes@ == key_address(k.bytes@),
            },
            Err(AccountError::InvalidAddress) => address matches Some(s) && address_bytes(
                s@,
            ) is None,
            Err(AccountError::Missing) => address is None && *key is None,
        },
{
    match address {
        Some(s) => match Address::parse(s) {
            Some(a) => Ok(a),
            None => Err(AccountError::InvalidAddress),
        },
        None => match key {
            Some(k) => Ok(address_from_key(k)),
            None => Err(AccountError::Missing),
        },
    }
}

/// The contracts of the exchange.
pub struct SystemAddresses {
    pub router: Option<String>,
    pub perp_v2: Option<PerpV2>,
}

pub struct PerpV2 {
    pub orders_manager: Option<String>,
}

/// The contract that permits are for: the router, or else the orders manager.
pub open spec fn target_of(addresses: SystemAddresses) -> Option<Seq<char>> {
    match addresses.router {
        Some(s) => Some(s@),
        None => match addresses.perp_v2 {
            Some(PerpV2 { orders_manager: Some(s) }) => Some(s@),
            _ => None,
        },
    }
}

/// The contract that permits are for, as text.
pub fn target_text(addresses: SystemAddresses) -> (r: Option<String>)
    ensures
        match r {
            Some(s) => target_of(addresses) == Some(s@),
            None => target_of(addresses) is None,
        },
{
    match addresses.router {
        Some(s) => Some(s),
        None => match addresses.perp_v2 {
            Some(p) => p.orders_manager,
            None => None,
        },
    }
}

/// A market as far as it is looked for.
pub struct MarketEntry {
    pub visible: bool,
    pub display_name: String,
}

/// Whether a market is the one that is traded.
pub open spec fn is_traded(market: MarketEntry) -> bool {
    market.visible && market.display_name@ == MARKET_SYMBOL@
}

/// The place of the first market that is visible and has the traded name.
pub fn find_market(markets: &Vec<MarketEntry>) -> (r: Option<usize>)
    ensures
        match r {
            Some(i) => {
                &&& i < markets@.len()
                &&& is_traded(markets@[i as int])
                &&& forall|j: int| 0 <= j < i ==> !is_traded(#[trigger] markets@[j])
            },
            None => forall|j: int| 0 <= j < markets@.len() ==> !is_traded(#[trigger] markets@[j]),
        },
{
    let mut i: usize = 0;
    while i < markets.len()
        invariant
            i <= markets@.len(),
            forall|j: int| 0 <= j < i ==> !is_traded(#[trigger] markets@[j]),
        decreases markets@.len() - i,
    {
        if markets[i].visible && same_text(markets[i].display_name.as_str(), MARKET_SYMBOL) {
            return Some(i);
        }
        i += 1;
    }
    None
}

/// The price to start from: that of the best bid, or else the last price.
pub fn reference_price<'a>(bids: &'a Vec<OrderbookLevel>, last_price: &'a str) -> (r: &'a str)
    ensures
        r@ == (if bids@.len() > 0 {
            bids@[0].price@
        } else {
            last_price@
        }),
{
    if bids.len() > 0 {
        bids[0].price.as_str()
    } else {
        last_price
    }
}

// ---------------------------------------------------------------------------
// Session
// ---------------------------------------------------------------------------

/// The nonce that the exchange expects next.
pub struct NonceState {
    pub nonce_anchor: String,
    pub current_bitmap_index: u8,
}

/// Leave to act for an account, sent with each request.
pub struct PermitParams {
    pub account: String,
    pub signer: String,
    pub nonce_anchor: u64,
    pub nonce_bitmap_index: u8,
    pub deadline: u64,
    pub signature: String,
}

/// A request to register a signer.
pub struct RegisterSignerReq {
    pub account: String,
    pub signer: String,
    pub message: String,
    pub nonce_anchor: String,
    pub nonce_bitmap_index: u8,
    pub expiration: String,
    pub account_signature: String,
    pub signer_signature: String,
    pub label: String,
}

/// A request to place an order.
pub struct PlaceOrderReq {
    pub market_id: u32,
    pub side: u8,
    pub order_type: u8,
    pub price_ticks: u32,
    pub size_steps: u32,
    pub time_in_force: u8,
    pub post_only: bool,
    pub reduce_only: bool,
    pub stp_mode: u8,
    pub ttl_units: u16,
    pub client_order_id: String,
    pub builder_id: u16,
    pub permit: PermitParams,
}

/// A request to cancel all orders of a market.
pub struct CancelAllReq {
    pub market_id: u32,
    pub permit: PermitParams,
}

/// Who acts for which account, and for what contract and domain.
pub struct Session {
    pub account_key: Option<SigningKey>,
    pub signer_key: SigningKey,
    pub account: Address,
    pub signer_addr: Address,
    pub domain_separator: [u8; 32],
    pub target: Address,
}

/// Why a session cannot be set up.
#[derive(Clone, Copy, Debug, PartialEq, Eq, Structural)]
pub enum SetupError {
    InvalidContract,
    NoTarget,
    InvalidTarget,
}

/// Why a permit cannot be made.
#[derive(Clone, Copy, Debug, PartialEq, Eq, Structural)]
pub enum PermitError {
    InvalidNonce,
    NonceTooLarge,
    NotSigned,
}

/// Why a registration cannot be made.
#[derive(Clone, Copy, Debug, PartialEq, Eq, Structural)]
pub enum RegisterError {
    NoAccountKey,
    InvalidNonce,
    NonceTooLarge,
    NotSigned,
}

/// The number that a nonce denotes.
pub open spec fn nonce_value(state: NonceState) -> Option<nat> {
    unsigned_up_to(state.nonce_anchor@, u64::MAX as nat)
}

impl Session {
    pub open spec fn wf(&self) -> bool {
        &&& self.signer_key.wf()
        &&& self.account_key matches Some(k) ==> k.wf()
        &&& self.signer_addr.bytes@ == key_address(self.signer_key.bytes@)
    }

    /// What is signed for the permit for the action of a hash.
    pub open spec fn permit_digest(
        &self,
        hash: Seq<u8>,
        anchor: u64,
        bitmap: u8,
        deadline: u64,
    ) -> Seq<u8> {
        let permit = witness_bytes(
            self.account.bytes@,
            self.target.bytes@,
            hash,
            anchor,
            bitmap,
            (deadline % 0x1_0000_0000) as u32,
        );
        digest(self.domain_separator@, keccak(permit))
    }

    /// The signer's signature of the permit for the action of a hash.
    pub open spec fn permit_signature(
        &self,
        hash: Seq<u8>,
        anchor: u64,
        bitmap: u8,
        deadline: u64,
    ) -> Option<Seq<u8>> {
        hash_signature(
            self.signer_key.bytes@,
            self.permit_digest(hash, anchor, bitmap, deadline),
        )
    }

    /// Whether this is the permit for the action of a hash.
    pub open spec fn is_permit(
        &self,
        p: PermitParams,
        hash: Seq<u8>,
        nonce_state: NonceState,
        now_secs: u64,
    ) -> bool {
        &&& nonce_value(nonce_state) == Some(p.nonce_anchor as nat)
        &&& p.nonce_anchor <= MAX_UINT48
        &&& p.nonce_bitmap_index == nonce_state.current_bitmap_index
        &&& p.deadline == now_secs + PERMIT_DEADLINE_SECS
        &&& p.account@ == checksummed(self.account.bytes@)
        &&& p.signer@ == checksummed(self.signer_addr.bytes@)
        &&& self.permit_signature(
            hash,
            p.nonce_anchor,
            p.nonce_bitmap_index,
            p.deadline,
        ) matches Some(b)
        &&& p.signature@ == base64_text(b)
        &&& p.signature@.len() == 88
        &&& recovers(
            b,
            self.permit_digest(hash, p.nonce_anchor, p.nonce_bitmap_index, p.deadline),
            self.signer_key.bytes@,
        )
    }

    /// Whether this is why there is no permit for the action of a hash.
    pub open spec fn is_permit_error(
        &self,
        e: PermitError,
        hash: Seq<u8>,
        nonce_state: NonceState,
        now_secs: u64,
    ) -> bool {
        match e {
            PermitError::InvalidNonce => nonce_value(nonce_state) is None,
            PermitError::NonceTooLarge => nonce_value(nonce_state) matches Some(n) && n
                > MAX_UINT48,
            PermitError::NotSigned => {
                &&& nonce_value(nonce_state) matches Some(n)
                &&& n <= MAX_UINT48
                &&& self.permit_signature(
                    hash,
                    n as u64,
                    nonce_state.current_bitmap_index,
                    (now_secs + PERMIT_DEADLINE_SECS) as u64,
                ) is None
            },
        }
    }

    /// What the account signs to register the signer.
    pub open spec fn account_digest(&self, anchor: u64, expiration: u64) -> Seq<u8> {
        let request = register_signer_bytes(
            self.account.bytes@,
            self.signer_addr.bytes@,
            REGISTER_MSG@,
            (expiration % 0x1_0000_0000) as u32,
            anchor,
            0,
        );
        digest(self.domain_separator@, keccak(request))
    }

    /// The account's signature of the registration of the signer.
    pub open spec fn account_signature(
        &self,
        key: SigningKey,
        anchor: u64,
        expiration: u64,
    ) -> Option<Seq<u8>> {
        hash_signature(key.bytes@, self.account_digest(anchor, expiration))
    }

    /// What the signer signs to agree.
    pub open spec fn signer_digest(&self, anchor: u64) -> Seq<u8> {
        let agreement = VerifySigner {
            account: self.account,
            nonce_anchor: anchor,
            nonce_bitmap: 0,
        };
        digest(self.domain_separator@, keccak(agreement.encoded()))
    }

    /// The signer's signature of its agreement.
    pub open spec fn signer_signature(&self, anchor: u64) -> Option<Seq<u8>> {
        hash_signature(self.signer_key.bytes@, self.signer_digest(anchor))
    }

    /// A session before it knows its domain and its target.
    pub fn new(account: Address, account_key: Option<SigningKey>, signer_key: SigningKey) -> (r:
        Session)
        requires
            signer_key.wf(),
            account_key matches Some(k) ==> k.wf(),
        ensures
            r.wf(),
            r.account == account,
            r.account_key == account_key,
            r.signer_key == signer_key,
            r.domain_separator@ == Seq::new(32, |i: int| 0u8),
            r.target.bytes@ == Seq::new(20, |i: int| 0u8),
    {
        let signer_addr = address_from_key(&signer_key);
        let r = Session {
            account_key,
            signer_key,
            account,
            signer_addr,
            domain_separator: [0u8; 32],
            target: Address { bytes: [0u8; 20] },
        };
        assert(r.domain_separator@ =~= Seq::new(32, |i: int| 0u8));
        assert(r.target.bytes@ =~= Seq::new(20, |i: int| 0u8));
        r
    }

    /// Takes the domain and the contracts of the exchange. Where one of them
    /// is refused the session stays as it was.
    pub fn init(
        &mut self,
        name: &str,
        version: &str,
        chain_id: u64,
        contract: &str,
        addresses: SystemAddresses,
    ) -> (r: Result<(), SetupError>)
        requires
            old(self).wf(),
        ensures
            final(self).wf(),
            final(self).account == old(self).account,
            final(self).account_key == old(self).account_key,
            final(self).signer_key == old(self).signer_key,
            final(self).signer_addr == old(self).signer_addr,
            match r {
                Ok(_) => {
                    &&& address_bytes(contract@) matches Some(c)
                    &&& final(self).domain_separator@ == domain_hash(name@, version@, chain_id, c)
                    &&& target_of(addresses) matches Some(t)
                    &&& address_bytes(t) == Some(final(self).target.bytes@)
                },
                Err(SetupError::InvalidContract) => {
                    &&& address_bytes(contract@) is None
                    &&& *final(self) == *old(self)
                },
                Err(SetupError::NoTarget) => {
                    &&& address_bytes(contract@) is Some
                    &&& target_of(addresses) is None
                    &&& *final(self) == *old(self)
                },
                Err(SetupError::InvalidTarget) => {
                    &&& address_bytes(contract@) is Some
                    &&& target_of(addresses) matches Some(t)
                    &&& address_bytes(t) is None
                    &&& *final(self) == *old(self)
                },
            },
    {
        let contract_address = match Address::parse(contract) {
            Some(a) => a,
            None => {
                return Err(SetupError::InvalidContract);
            },
        };
        let target = match target_text(addresses) {
            None => {
                return Err(SetupError::NoTarget);
            },
            Some(t) => match Address::parse(t.as_str()) {
                None => {
                    return Err(SetupError::InvalidTarget);
                },
                Some(a) => a,
            },
        };
        self.domain_separator = separator_of(name, version, chain_id, &contract_address);
        self.target = target;
        Ok(())
    }

    /// Makes the permit for the action of a hash.
    pub fn sign_permit(&self, hash: [u8; 32], nonce_state: &NonceState, now_secs: u64) -> (r:
        Result<PermitParams, PermitError>)
        requires
            self.wf(),
            now_secs + PERMIT_DEADLINE_SECS <= u64::MAX,
        ensures
            match r {
                Ok(p) => self.is_permit(p, hash@, *nonce_state, now_secs),
                Err(e) => self.is_permit_error(e, hash@, *nonce_state, now_secs),
            },
    {
        let nonce_anchor: u64 = match parse_u64(nonce_state.nonce_anchor.as_str()) {
            Some(n) => n,
            None => {
                return Err(PermitError::InvalidNonce);
            },
        };
        if nonce_anchor > MAX_UINT48 {
            return Err(PermitError::NonceTooLarge);
        }
        let deadline: u64 = now_secs + PERMIT_DEADLINE_SECS;
        let witness = VerifyWitness {
            account: self.account,
            target: self.target,
            hash,
            nonce_anchor,
            nonce_bitmap: nonce_state.current_bitmap_index,
            deadline: (deadline % 0x1_0000_0000) as u32,
        };
        let signed = eip712_hash(&self.domain_separator, &witness.hash_struct());
        match sign_hash_base64(&self.signer_key, &signed) {
            None => Err(PermitError::NotSigned),
            Some(signature) => Ok(
                PermitParams {
                    account: self.account.to_text(),
                    signer: self.signer_addr.to_text(),
                    nonce_anchor,
                    nonce_bitmap_index: nonce_state.current_bitmap_index,
                    deadline,
                    signature,
                },
            ),
        }
    }

    /// Makes the request to place an order in one step: the hash of the order, the
    /// permit for that hash, and the order with the permit.
    pub fn order_request(&self, order: &Order, nonce_state: &NonceState, now_secs: u64) -> (r:
        Result<PlaceOrderReq, PermitError>)
        requires
            self.wf(),
            now_secs + PERMIT_DEADLINE_SECS <= u64::MAX,
        ensures
            match r {
                Ok(q) => {
                    &&& is_order_request(q, *order)
                    &&& self.is_permit(q.permit, order_hash(*order), *nonce_state, now_secs)
                },
                Err(e) => self.is_permit_error(e, order_hash(*order), *nonce_state, now_secs),
            },
    {
        match self.sign_permit(order.hash(), nonce_state, now_secs) {
            Ok(permit) => Ok(place_order_request(order, permit)),
            Err(e) => Err(e),
        }
    }

    /// Makes the request to cancel all orders of a market in one step, with the
    /// permit for it.
    pub fn cancel_request(&self, market_id: u32, nonce_state: &NonceState, now_secs: u64) -> (r:
        Result<CancelAllReq, PermitError>)
        requires
            self.wf(),
            now_secs + PERMIT_DEADLINE_SECS <= u64::MAX,
        ensures
            match r {
                Ok(q) => {
                    &&& q.market_id == market_id
                    &&& self.is_permit(
                        q.permit,
                        cancel_all_hash(market_id),
                        *nonce_state,
                        now_secs,
                    )
                },
                Err(e) => self.is_permit_error(
                    e,
                    cancel_all_hash(market_id),
                    *nonce_state,
                    now_secs,
                ),
            },
    {
        match self.sign_permit(encode_cancel_all_hash(market_id), nonce_state, now_secs) {
            Ok(permit) => Ok(CancelAllReq { market_id, permit }),
            Err(e) => Err(e),
        }
    }

    /// Makes the request to register the signer, with the nonce after the one
    /// that the exchange expects next.
    pub fn register_signer(&self, nonce_state: &NonceState, now_secs: u64) -> (r: Result<
        RegisterSignerReq,
        RegisterError,
    >)
        requires
            self.wf(),
            now_secs + SIGNER_EXPIRY_SECS <= u64::MAX,
        ensures
            match r {
                Ok(q) => {
                    &&& self.account_key matches Some(key)
                    &&& nonce_value(*nonce_state) matches Some(n)
                    &&& n + 1 <= MAX_UINT48
                    &&& q.account@ == checksummed(self.account.bytes@)
                    &&& q.signer@ == checksummed(self.signer_addr.bytes@)
                    &&& q.message@ == REGISTER_MSG@
                    &&& q.message@ == "Registering signer for RISEx"@
                    &&& q.nonce_anchor@ == decimal_text(n + 1)
                    &&& q.nonce_bitmap_index == 0
                    &&& q.expiration@ == decimal_text((now_secs + SIGNER_EXPIRY_SECS) as nat)
                    &&& q.expiration@ == decimal_text((now_secs + 2592000) as nat)
                    &&& self.account_signature(
                        key,
                        (n + 1) as u64,
                        (now_secs + SIGNER_EXPIRY_SECS) as u64,
                    ) matches Some(a)
                    &&& q.account_signature@ == "0x"@ + hex_text(a)
                    &&& q.account_signature@.len() == 132
                    &&& recovers(
                        a,
                        self.account_digest(
                            (n + 1) as u64,
                            (now_secs + SIGNER_EXPIRY_SECS) as u64,
                        ),
                        key.bytes@,
                    )
                    &&& self.signer_signature((n + 1) as u64) matches Some(s)
                    &&& q.signer_signature@ == "0x"@ + hex_text(s)
                    &&& q.signer_signature@.len() == 132
                    &&& recovers(
                        s,
                        self.signer_digest((n + 1) as u64),
                        self.signer_key.bytes@,
                    )
                    &&& q.label@ == SIGNER_LABEL@
                    &&& q.label@ == "rust-latency"@
                },
                Err(RegisterError::NoAccountKey) => self.account_key is None,
                Err(RegisterError::InvalidNonce) => self.account_key is Some && nonce_value(
                    *nonce_state,
                ) is None,
                Err(RegisterError::NonceTooLarge) => {
                    &&& self.account_key is Some
                    &&& nonce_value(*nonce_state) matches Some(n)
                    &&& n + 1 > MAX_UINT48
                },
                Err(RegisterError::NotSigned) => {
                    &&& self.account_key matches Some(key)
                    &&& nonce_value(*nonce_state) matches Some(n)
                    &&& n + 1 <= MAX_UINT48
                    &&& self.signer_signature((n + 1) as u64) is None || self.account_signature(
                        key,
                        (n + 1) as u64,
                        (now_secs + SIGNER_EXPIRY_SECS) as u64,
                    ) is None
                },
            },
    {
        let account_key = match &self.account_key {
            Some(k) => k,
            None => {
                return Err(RegisterError::NoAccountKey);
            },
        };
        let nonce: u64 = match parse_u64(nonce_state.nonce_anchor.as_str()) {
            Some(n) => n,
            None => {
                return Err(RegisterError::InvalidNonce);
            },
        };
        if nonce >= MAX_UINT48 {
            return Err(RegisterError::NonceTooLarge);
        }
        let anchor: u64 = nonce + 1;
        let expiration: u64 = now_secs + SIGNER_EXPIRY_SECS;
        let request = RegisterSigner {
            account: self.account,
            signer: self.signer_addr,
            message: REGISTER_MSG.to_owned(),
            expiration: (expiration % 0x1_0000_0000) as u32,
            nonce_anchor: anchor,
            nonce_bitmap: 0,
        };
        let request_digest = eip712_hash(&self.domain_separator, &request.hash_struct());
        let agreement = VerifySigner {
            account: self.account,
            nonce_anchor: anchor,
            nonce_bitmap: 0,
        };
        let agreement_digest = eip712_hash(&self.domain_separator, &agreement.hash_struct());
        let account_signature = match sign_hash_hex(account_key, &request_digest) {
            Some(s) => s,
            None => {
                return Err(RegisterError::NotSigned);
            },
        };
        let signer_signature = match sign_hash_hex(&self.signer_key, &agreement_digest) {
            Some(s) => s,
            None => {
                return Err(RegisterError::NotSigned);
            },
        };
        Ok(
            RegisterSignerReq {
                account: self.account.to_text(),
                signer: self.signer_addr.to_text(),
                message: request.message,
                nonce_anchor: decimal_string(anchor as u128),
                nonce_bitmap_index: 0,
                expiration: decimal_string(expiration as u128),
                account_signature,
                signer_signature,
                label: SIGNER_LABEL.to_owned(),
            },
        )
    }
}

/// Whether the signer is to be registered, by the status that the exchange
/// reports of it.
pub fn registration_needed(status: Option<u8>) -> (r: bool)
    ensures
        r == (status != Some(1u8)),
{
    match status {
        Some(s) => s != 1,
        None => true,
    }
}

// ---------------------------------------------------------------------------
// Requests and answers
// ---------------------------------------------------------------------------

/// Whether a request asks to place an order.
pub open spec fn is_order_request(r: PlaceOrderReq, order: Order) -> bool {
    &&& r.market_id == order.market_id
    &&& r.side == order.side
    &&& r.order_type == order.order_type
    &&& r.price_ticks == order.price_ticks
    &&& r.size_steps == order.size_steps
    &&& r.time_in_force == order.time_in_force
    &&& r.post_only == order.post_only
    &&& r.reduce_only == order.reduce_only
    &&& r.stp_mode == order.stp_mode
    &&& r.ttl_units == 0
    &&& r.client_order_id@ == "0"@
    &&& r.builder_id == 0
}

/// The request to place an order.
pub fn place_order_request(order: &Order, permit: PermitParams) -> (r: PlaceOrderReq)
    ensures
        is_order_request(r, *order),
        r.permit == permit,
{
    PlaceOrderReq {
        market_id: order.market_id,
        side: order.side,
        order_type: order.order_type,
        price_ticks: order.price_ticks,
        size_steps: order.size_steps,
        time_in_force: order.time_in_force,
        post_only: order.post_only,
        reduce_only: order.reduce_only,
        stp_mode: order.stp_mode,
        ttl_units: 0,
        client_order_id: "0".to_owned(),
        builder_id: 0,
        permit,
    }
}

/// What to do after an answer.
#[derive(Clone, Copy, Debug, PartialEq, Eq, Structural)]
pub enum Verdict {
    Accept,
    Retry,
    Fail,
}

/// What to do after the answer to an attempt, attempts counted from zero: a
/// refusal for its nonce is tried again, unless the attempt was the last.
pub open spec fn verdict(success: bool, text: Seq<char>, attempt: nat) -> Verdict {
    if success {
        Verdict::Accept
    } else if occurs_in(text, NONCE_REFUSED@) && attempt < MAX_NONCE_RETRIES - 1 {
        Verdict::Retry
    } else {
        Verdict::Fail
    }
}

/// A request under way.
pub struct Submission {
    pub attempt: usize,
}

impl Submission {
    pub open spec fn wf(&self) -> bool {
        self.attempt < MAX_NONCE_RETRIES
    }

    /// A request before its first attempt.
    pub fn new() -> (r: Submission)
        ensures
            r.wf(),
            r.attempt == 0,
    {
        Submission { attempt: 0 }
    }

    /// Takes the answer to the current attempt.
    pub fn on_response(&mut self, success: bool, text: &str) -> (r: Verdict)
        requires
            old(self).wf(),
        ensures
            final(self).wf(),
            r == verdict(success, text@, old(self).attempt as nat),
            (r == Verdict::Accept) == success,
            final(self).attempt == old(self).attempt + (if r == Verdict::Retry {
                1int
            } else {
                0int
            }),
    {
        if success {
            return Verdict::Accept;
        }
        if contains_text(text, NONCE_REFUSED) && self.attempt < MAX_NONCE_RETRIES - 1 {
            self.attempt += 1;
            return Verdict::Retry;
        }
        Verdict::Fail
    }
}

/// How many attempts of a request are made, where the answers to the attempts
/// from `attempt` on are these: an attempt follows each that is to be retried.
pub open spec fn attempts_made(answers: Seq<(bool, Seq<char>)>, attempt: nat) -> nat
    decreases answers.len(),
{
    if answers.len() == 0 {
        attempt
    } else if verdict(answers[0].0, answers[0].1, attempt) == Verdict::Retry {
        attempts_made(answers.skip(1), attempt + 1)
    } else {
        attempt + 1
    }
}

/// Whatever the exchange answers, a request is tried no more often than the
/// limit.
pub proof fn law_attempts_bounded(answers: Seq<(bool, Seq<char>)>, attempt: nat)
    requires
        attempt < MAX_NONCE_RETRIES,
    ensures
        attempts_made(answers, attempt) <= MAX_NONCE_RETRIES,
    decreases answers.len(),
{
    if answers.len() > 0 && verdict(answers[0].0, answers[0].1, attempt) == Verdict::Retry {
        law_attempts_bounded(answers.skip(1), attempt + 1);
    }
}

/// How many of the first answers refuse the nonce, one after the other.
pub open spec fn leading_refusals(answers: Seq<(bool, Seq<char>)>) -> nat
    decreases answers.len(),
{
    if answers.len() > 0 && !answers[0].0 && occurs_in(answers[0].1, NONCE_REFUSED@) {
        1 + leading_refusals(answers.skip(1))
    } else {
        0
    }
}

proof fn lemma_attempts_from(answers: Seq<(bool, Seq<char>)>, attempt: nat)
    requires
        attempt < MAX_NONCE_RETRIES,
        leading_refusals(answers) < answers.len() || attempt + answers.len() >= MAX_NONCE_RETRIES,
    ensures
        attempts_made(answers, attempt) == if attempt + leading_refusals(answers) + 1
            <= MAX_NONCE_RETRIES {
            attempt + leading_refusals(answers) + 1
        } else {
            MAX_NONCE_RETRIES as nat
        },
    decreases answers.len(),
{
    if answers.len() > 0 && verdict(answers[0].0, answers[0].1, attempt) == Verdict::Retry {
        lemma_attempts_from(answers.skip(1), attempt + 1);
    }
}

/// A request is tried once more than its nonce was refused at the start, up to
/// the limit: the first answer that is no such refusal ends it, and so does the
/// answer to the last attempt. The answers are as many as that takes.
pub proof fn law_attempts_made(answers: Seq<(bool, Seq<char>)>)
    requires
        leading_refusals(answers) < answers.len() || answers.len() >= MAX_NONCE_RETRIES,
    ensures
        attempts_made(answers, 0) == if leading_refusals(answers) + 1 <= MAX_NONCE_RETRIES {
            leading_refusals(answers) + 1
        } else {
            MAX_NONCE_RETRIES as nat
        },
{
    lemma_attempts_from(answers, 0);
}

/// A position as the exchange reports it.
pub struct Position {
    pub size: String,
    pub side: u8,
}

/// The position to close: the reported one, unless its size is `0`.
pub fn position_to_close(position: Option<Position>) -> (r: Option<Position>)
    ensures
        r == (match position {
            Some(p) => if p.size@ == "0"@ {
                None
            } else {
                Some(p)
            },
            None => None,
        }),
{
    match position {
        Some(p) => if same_text(p.size.as_str(), "0") {
            None
        } else {
            Some(p)
        },
        None => None,
    }
}

/// The order that closes a position: a long one is sold, no further than to
/// zero, and a short one is bought back.
pub fn closing_order(market_id: u32, size_steps: u32, side: u8) -> (r: Order)
    ensures
        r.market_id == market_id,
        r.size_steps == size_steps,
        r.side == (if side == 0 {
            1u8
        } else {
            0u8
        }),
        r.reduce_only == (side == 0),
        r.price_ticks == 0,
        r.order_type == 0,
        r.time_in_force == 3,
        !r.post_only,
        r.stp_mode == 0,
{
    if side == 0 {
        Order::market_sell(market_id, size_steps, true)
    } else {
        Order::market_buy(market_id, size_steps)
    }
}

/// The signature of a permit is over exactly what the permit carries. From it the
/// signer's public key is recovered for the hash of 0x19, 0x01, the separator and
/// the hash of a struct; the struct is the type's hash, the account, the target,
/// the hash of the action, and, as numbers, the nonce, the place in its bitmap
/// and the low thirty-two bits of the deadline that are sent.
#[verifier::rlimit(60)]
#[verifier::spinoff_prover]
pub proof fn law_permit_signs_what_it_carries(
    session: Session,
    p: PermitParams,
    hash: Seq<u8>,
    nonce_state: NonceState,
    now_secs: u64,
)
    requires
        session.is_permit(p, hash, nonce_state, now_secs),
        hash.len() == 32,
    ensures
        exists|b: Seq<u8>, w: Seq<u8>|
            {
                let kind = keccak(
                    encode_utf8(
                        "VerifyWitness(address account,address target,bytes32 hash,uint48 nonceAnchor,uint8 nonceBitmap,uint32 deadline)"@,
                    ),
                );
                &&& p.signature@ == #[trigger] base64_text(b)
                &&& recovered_point(
                    keccak(
                        seq![0x19u8, 0x01u8] + session.domain_separator@ + keccak(
                            kind + w,
                        ),
                    ),
                    b.take(64),
                    (b[64] - 27) as u8,
                ) == Some(curve_point(session.signer_key.bytes@))
                &&& #[trigger] w.len() == 192
                &&& forall|i: int| 0 <= i < 12 ==> #[trigger] w[i] == 0
                &&& w.subrange(12, 32) == session.account.bytes@
                &&& forall|i: int| 32 <= i < 44 ==> #[trigger] w[i] == 0
                &&& w.subrange(44, 64) == session.target.bytes@
                &&& w.subrange(64, 96) == hash
                &&& be_value(w.subrange(96, 128)) == p.nonce_anchor
                &&& be_value(w.subrange(128, 160)) == p.nonce_bitmap_index
                &&& be_value(w.subrange(160, 192)) == p.deadline % 0x1_0000_0000
            },
        p.nonce_anchor < 0x1_0000_0000_0000,
        p.nonce_bitmap_index == nonce_state.current_bitmap_index,
        p.deadline == now_secs + 604800,
        p.account@ == checksummed(session.account.bytes@),
        p.signer@ == checksummed(session.signer_addr.bytes@),
        all_digits(nonce_state.nonce_anchor@) ==> p.nonce_anchor == digits_value(
            nonce_state.nonce_anchor@,
        ),
        unsigned_value(nonce_state.nonce_anchor@) == Some(p.nonce_anchor as nat),
{
    let deadline = (p.deadline % 0x1_0000_0000) as u32;
    law_witness_words(
        session.account.bytes@,
        session.target.bytes@,
        hash,
        p.nonce_anchor,
        p.nonce_bitmap_index,
        deadline,
    );
    let kind = keccak(
        encode_utf8(
            "VerifyWitness(address account,address target,bytes32 hash,uint48 nonceAnchor,uint8 nonceBitmap,uint32 deadline)"@,
        ),
    );
    let bytes = witness_bytes(
        session.account.bytes@,
        session.target.bytes@,
        hash,
        p.nonce_anchor,
        p.nonce_bitmap_index,
        deadline,
    );
    let w = bytes.skip(kind.len() as int);
    let b = session.permit_signature(
        hash,
        p.nonce_anchor,
        p.nonce_bitmap_index,
        p.deadline,
    )->0;
    assert(p.signature@ == base64_text(b));
    assert(bytes == kind + w);
    assert(recovered_point(
        keccak(seq![0x19u8, 0x01u8] + session.domain_separator@ + keccak(kind + w)),
        b.take(64),
        (b[64] - 27) as u8,
    ) == Some(curve_point(session.signer_key.bytes@)));
    if all_digits(nonce_state.nonce_anchor@) {
        assert(nonce_state.nonce_anchor@.len() > 0 ==> is_digit(nonce_state.nonce_anchor@[0]));
    }
}

/// A permit fails exactly for these reasons: a nonce of digits is refused as no
/// number only above the largest of sixty-four bits, and as too large exactly
/// where it needs more than forty-eight.
pub proof fn law_permit_refusals(
    session: Session,
    e: PermitError,
    hash: Seq<u8>,
    nonce_state: NonceState,
    now_secs: u64,
)
    requires
        session.is_permit_error(e, hash, nonce_state, now_secs),
        nonce_state.nonce_anchor@.len() > 0,
        all_digits(nonce_state.nonce_anchor@),
    ensures
        (e == PermitError::InvalidNonce) == (digits_value(nonce_state.nonce_anchor@)
            >= 0x1_0000_0000_0000_0000),
        (e == PermitError::NonceTooLarge) == (0x1_0000_0000_0000 <= digits_value(
            nonce_state.nonce_anchor@,
        ) < 0x1_0000_0000_0000_0000),
{
    assert(is_digit(nonce_state.nonce_anchor@[0]));
}

/// A permit that is refused as not signed is one that the signer's key gives no
/// signature for, and one whose nonce is no number is refused as that.
pub proof fn law_permit_not_signed(
    session: Session,
    e: PermitError,
    hash: Seq<u8>,
    nonce_state: NonceState,
    now_secs: u64,
)
    requires
        session.is_permit_error(e, hash, nonce_state, now_secs),
        now_secs + 604800 <= u64::MAX,
    ensures
        (e == PermitError::InvalidNonce) == (match unsigned_value(nonce_state.nonce_anchor@) {
            Some(n) => n >= 0x1_0000_0000_0000_0000,
            None => true,
        }),
        (e == PermitError::NonceTooLarge) == (match unsigned_value(nonce_state.nonce_anchor@) {
            Some(n) => 0x1_0000_0000_0000 <= n < 0x1_0000_0000_0000_0000,
            None => false,
        }),
        e == PermitError::NotSigned ==> ecdsa_signature(
            session.signer_key.bytes@,
            session.permit_digest(
                hash,
                unsigned_value(nonce_state.nonce_anchor@)->0 as u64,
                nonce_state.current_bitmap_index,
                (now_secs + 604800) as u64,
            ),
        ) is None,
{
}

/// What is signed for a permit depends on the nonce, the place in its bitmap and
/// the deadline in just this way: it is the hash of 0x19, 0x01, the separator and
/// the hash of a struct that holds them as numbers.
#[verifier::rlimit(60)]
#[verifier::spinoff_prover]
pub proof fn law_permit_digest(
    session: Session,
    hash: Seq<u8>,
    anchor: u64,
    bitmap: u8,
    deadline: u64,
)
    requires
        hash.len() == 32,
    ensures
        exists|w: Seq<u8>|
            {
                let kind = keccak(
                    encode_utf8(
                        "VerifyWitness(address account,address target,bytes32 hash,uint48 nonceAnchor,uint8 nonceBitmap,uint32 deadline)"@,
                    ),
                );
                &&& session.permit_digest(hash, anchor, bitmap, deadline) == keccak(
                    seq![0x19u8, 0x01u8] + session.domain_separator@ + keccak(kind + w),
                )
                &&& #[trigger] w.len() == 192
                &&& w.subrange(12, 32) == session.account.bytes@
                &&& w.subrange(44, 64) == session.target.bytes@
                &&& w.subrange(64, 96) == hash
                &&& be_value(w.subrange(96, 128)) == anchor
                &&& be_value(w.subrange(128, 160)) == bitmap
                &&& be_value(w.subrange(160, 192)) == deadline % 0x1_0000_0000
            },
{
    let low = (deadline % 0x1_0000_0000) as u32;
    law_witness_words(
        session.account.bytes@,
        session.target.bytes@,
        hash,
        anchor,
        bitmap,
        low,
    );
    let kind = keccak(
        encode_utf8(
            "VerifyWitness(address account,address target,bytes32 hash,uint48 nonceAnchor,uint8 nonceBitmap,uint32 deadline)"@,
        ),
    );
    let bytes = witness_bytes(
        session.account.bytes@,
        session.target.bytes@,
        hash,
        anchor,
        bitmap,
        low,
    );
    let w = bytes.skip(kind.len() as int);
    assert(bytes == kind + w);
    assert(session.permit_digest(hash, anchor, bitmap, deadline) == keccak(
        seq![0x19u8, 0x01u8] + session.domain_separator@ + keccak(kind + w),
    ));
}

/// The number of a nonce is the one that its text denotes, where it fits in
/// sixty-four bits.
pub proof fn law_nonce_value(state: NonceState)
    ensures
        match unsigned_value(state.nonce_anchor@) {
            Some(n) => nonce_value(state) == (if n < 0x1_0000_0000_0000_0000 {
                Some(n)
            } else {
                None
            }),
            None => nonce_value(state) is None,
        },
{
}

/// What the account signs to register the signer: the hash of 0x19, 0x01, the
/// separator and the hash of a struct, which is the type's hash, the account, the
/// signer, the hash of the message, and, as numbers, the low thirty-two bits of
/// the expiration, the nonce, and zero.
#[verifier::rlimit(60)]
#[verifier::spinoff_prover]
pub proof fn law_account_digest(session: Session, anchor: u64, expiration: u64)
    ensures
        exists|w: Seq<u8>|
            {
                let kind = keccak(
                    encode_utf8(
                        "RegisterSigner(address account,address signer,string message,uint32 expiration,uint48 nonceAnchor,uint8 nonceBitmap)"@,
                    ),
                );
                let text = keccak(encode_utf8("Registering signer for RISEx"@));
                let z = w.skip(64 + text.len() as int);
                &&& session.account_digest(anchor, expiration) == keccak(
                    seq![0x19u8, 0x01u8] + session.domain_separator@ + keccak(
                        kind + w,
                    ),
                )
                &&& #[trigger] w.len() == 160 + text.len()
                &&& forall|i: int| 0 <= i < 12 ==> #[trigger] w[i] == 0
                &&& w.subrange(12, 32) == session.account.bytes@
                &&& forall|i: int| 32 <= i < 44 ==> #[trigger] w[i] == 0
                &&& w.subrange(44, 64) == session.signer_addr.bytes@
                &&& w.subrange(64, 64 + text.len() as int) == text
                &&& be_value(z.subrange(0, 32)) == expiration % 0x1_0000_0000
                &&& be_value(z.subrange(32, 64)) == anchor
                &&& be_value(z.subrange(64, 96)) == 0
            },
{
    let e = (expiration % 0x1_0000_0000) as u32;
    law_register_signer_words(
        session.account.bytes@,
        session.signer_addr.bytes@,
        REGISTER_MSG@,
        e,
        anchor,
        0,
    );
    let bytes = register_signer_bytes(
        session.account.bytes@,
        session.signer_addr.bytes@,
        REGISTER_MSG@,
        e,
        anchor,
        0,
    );
    let kind = keccak(
        encode_utf8(
            "RegisterSigner(address account,address signer,string message,uint32 expiration,uint48 nonceAnchor,uint8 nonceBitmap)"@,
        ),
    );
    let w = bytes.skip(kind.len() as int);
    assert(bytes == kind + w);
    assert(session.account_digest(anchor, expiration) == keccak(
        seq![0x19u8, 0x01u8] + session.domain_separator@ + keccak(kind + w),
    ));
}

/// What the signer signs to agree: the hash of 0x19, 0x01, the separator and the
/// hash of a struct, which is the type's hash, the account, and, as numbers, the
/// nonce and zero.
#[verifier::rlimit(60)]
#[verifier::spinoff_prover]
pub proof fn law_signer_digest(session: Session, anchor: u64)
    ensures
        exists|w: Seq<u8>|
            {
                let kind = keccak(
                    encode_utf8("VerifySigner(address account,uint48 nonceAnchor,uint8 nonceBitmap)"@),
                );
                &&& session.signer_digest(anchor) == keccak(
                    seq![0x19u8, 0x01u8] + session.domain_separator@ + keccak(
                        kind + w,
                    ),
                )
                &&& #[trigger] w.len() == 96
                &&& forall|i: int| 0 <= i < 12 ==> #[trigger] w[i] == 0
                &&& w.subrange(12, 32) == session.account.bytes@
                &&& be_value(w.subrange(32, 64)) == anchor
                &&& be_value(w.subrange(64, 96)) == 0
            },
{
    let agreement = VerifySigner {
        account: session.account,
        nonce_anchor: anchor,
        nonce_bitmap: 0,
    };
    law_verify_signer_words(agreement);
    let kind = keccak(encode_utf8("VerifySigner(address account,uint48 nonceAnchor,uint8 nonceBitmap)"@));
    let w = agreement.encoded().skip(kind.len() as int);
    assert(agreement.encoded() == kind + w);
    assert(session.signer_digest(anchor) == keccak(
        seq![0x19u8, 0x01u8] + session.domain_separator@ + keccak(kind + w),
    ));
}

/// The signatures of a session are those of its keys: the signer's of a permit
/// and of its agreement, the account's of the registration.
pub proof fn law_who_signs(
    session: Session,
    key: SigningKey,
    hash: Seq<u8>,
    anchor: u64,
    bitmap: u8,
    time: u64,
)
    ensures
        session.permit_signature(hash, anchor, bitmap, time) == hash_signature(
            session.signer_key.bytes@,
            session.permit_digest(hash, anchor, bitmap, time),
        ),
        session.account_signature(key, anchor, time) == hash_signature(
            key.bytes@,
            session.account_digest(anchor, time),
        ),
        session.signer_signature(anchor) == hash_signature(
            session.signer_key.bytes@,
            session.signer_digest(anchor),
        ),
{
}

/// A request carries the very order whose hash its permit is for: the order can
/// be read off the request.
pub proof fn law_request_carries_order(q: PlaceOrderReq, order: Order)
    requires
        is_order_request(q, order),
    ensures
        order == (Order {
            market_id: q.market_id,
            size_steps: q.size_steps,
            price_ticks: q.price_ticks,
            side: q.side,
            order_type: q.order_type,
            time_in_force: q.time_in_force,
            post_only: q.post_only,
            reduce_only: q.reduce_only,
            stp_mode: q.stp_mode,
        }),
        q.ttl_units == 0,
        q.builder_id == 0,
        q.client_order_id@ == "0"@,
{
}

/// What becomes of a request, by the answers to its attempts from `attempt` on;
/// `None` where the answers leave it open.
pub open spec fn outcome(answers: Seq<(bool, Seq<char>)>, attempt: nat) -> Option<Verdict>
    decreases answers.len(),
{
    if answers.len() == 0 {
        None
    } else {
        let v = verdict(answers[0].0, answers[0].1, attempt);
        if v == Verdict::Retry {
            outcome(answers.skip(1), attempt + 1)
        } else {
            Some(v)
        }
    }
}

/// One answer: success is accepted, whatever the text and the attempt, and
/// nothing else is; what is not accepted is tried again exactly where the text
/// holds the refusal of the nonce and the attempt is not the third.
pub proof fn law_verdict(success: bool, text: Seq<char>, attempt: nat)
    ensures
        (verdict(success, text, attempt) == Verdict::Accept) == success,
        (verdict(success, text, attempt) == Verdict::Retry) == (!success && attempt < 2 && exists|
            front: Seq<char>,
            back: Seq<char>,
        | #[trigger] (front + "InvalidNonceIndex"@ + back) == text),
        (verdict(success, text, attempt) == Verdict::Fail) == (!success && (attempt >= 2
            || !exists|front: Seq<char>, back: Seq<char>| #[trigger]
            (front + "InvalidNonceIndex"@ + back) == text)),
{
    law_occurs_in(text, "InvalidNonceIndex"@);
}

proof fn lemma_outcome_from(answers: Seq<(bool, Seq<char>)>, attempt: nat, c: int)
    requires
        0 <= c < answers.len(),
        attempt < 3,
        forall|i: int|
            0 <= i < c ==> !(#[trigger] answers[i]).0 && occurs_in(
                answers[i].1,
                "InvalidNonceIndex"@,
            ),
        answers[c].0 || !occurs_in(answers[c].1, "InvalidNonceIndex"@),
    ensures
        outcome(answers, attempt) == Some(
            if attempt + c < 3 && answers[c].0 {
                Verdict::Accept
            } else {
                Verdict::Fail
            },
        ),
        attempts_made(answers, attempt) == if attempt + c + 1 <= 3 {
            attempt + c + 1
        } else {
            3
        },
    decreases answers.len(),
{
    if c > 0 {
        assert(!answers[0].0 && occurs_in(answers[0].1, "InvalidNonceIndex"@));
        if attempt < 2 {
            let rest = answers.skip(1);
            assert forall|i: int| 0 <= i < c - 1 implies !(#[trigger] rest[i]).0 && occurs_in(
                rest[i].1,
                "InvalidNonceIndex"@,
            ) by {
                assert(rest[i] == answers[i + 1]);
            }
            lemma_outcome_from(rest, attempt + 1, c - 1);
        }
    }
}

/// A request whose first `c` answers refuse the nonce, and the next does not, is
/// accepted exactly where that next answer comes within three attempts and is a
/// success; otherwise it fails. It is tried `c + 1` times, or three times where
/// that is less.
pub proof fn law_outcome(answers: Seq<(bool, Seq<char>)>, c: int)
    requires
        0 <= c < answers.len(),
        forall|i: int|
            0 <= i < c ==> !(#[trigger] answers[i]).0 && occurs_in(
                answers[i].1,
                "InvalidNonceIndex"@,
            ),
        answers[c].0 || !occurs_in(answers[c].1, "InvalidNonceIndex"@),
    ensures
        outcome(answers, 0) == Some(
            if c < 3 && answers[c].0 {
                Verdict::Accept
            } else {
                Verdict::Fail
            },
        ),
        attempts_made(answers, 0) == if c + 1 <= 3 {
            c + 1
        } else {
            3
        },
{
    lemma_outcome_from(answers, 0, c);
}

/// Permits are for the router where there is one, else for the orders manager
/// where there is one, else for nothing.
pub proof fn law_target(router: String, manager: String, perp: Option<PerpV2>)
    ensures
        target_of((SystemAddresses { router: Some(router), perp_v2: perp })) == Some(router@),
        target_of(
            (SystemAddresses {
                router: None,
                perp_v2: Some(PerpV2 { orders_manager: Some(manager) }),
            }),
        ) == Some(manager@),
        target_of(
            (SystemAddresses { router: None, perp_v2: Some(PerpV2 { orders_manager: None }) }),
        ) is None,
        target_of((SystemAddresses { router: None, perp_v2: None })) is None,
{
}

/// The market that is traded is visible and named `ETH/USDC`, and no other is.
pub proof fn law_traded_market(market: MarketEntry)
    ensures
        is_traded(market) == (market.visible && market.display_name@ == "ETH/USDC"@),
{
}

} // verus!
