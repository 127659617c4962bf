//! Orders: what they hold, the word they are packed into, and their hashes.

use vstd::prelude::*;
use vstd::utf8::encode_utf8;

use crate::crypto::{hash_text, keccak, keccak256, keccak_text};
use crate::encoding::{append_bytes, append_word, be_value, law_word, word};

verus! {

/// The action of placing an order.
pub const ACTION_PLACE_ORDER: &'static str = "RISE_PERPS_PLACE_ORDER_V1";

/// The action of cancelling all orders of a market.
pub const ACTION_CANCEL_ALL_ORDERS: &'static str = "RISE_PERPS_CANCEL_ALL_ORDERS_V1";

/// The flag that says that a permit comes with the order.
pub const V3_FLAG_PERMIT: u8 = 0x01;

/// An order. A side of zero buys and one sells; an order type of zero is a
/// market order and one a limit order.
#[derive(Clone, Copy, Debug, PartialEq, Eq, Structural)]
pub struct Order {
    pub market_id: u32,
    pub size_steps: u32,
    pub price_ticks: u32,
    pub side: u8,
    pub order_type: u8,
    pub time_in_force: u8,
    pub post_only: bool,
    pub reduce_only: bool,
    pub stp_mode: u8,
}

pub open spec fn bit(b: bool) -> nat {
    if b {
        1
    } else {
        0
    }
}

impl Order {
    /// The flags of an order: side, post-only, reduce-only, self-trade
    /// prevention, type and time in force, from the lowest bit up.
    pub open spec fn flags(self) -> nat {
        (self.side % 2) as nat + 2 * bit(self.post_only) + 4 * bit(self.reduce_only) + 8 * (
        self.stp_mode % 4) as nat + 32 * (self.order_type % 2) as nat + 64 * (self.time_in_force
            % 4) as nat
    }

    /// The number that an order is packed into: sixteen bits of the market,
    /// thirty-two of the size, twenty-four of the price, the flags, and six
    /// bits that hold two.
    pub open spec fn packed(self) -> nat {
        (self.market_id % 0x1_0000) as nat * 0x40_0000_0000_0000_0000 + self.size_steps as nat
            * 0x40_0000_0000 + (self.price_ticks % 0x100_0000) as nat * 0x4000 + self.flags() * 0x40
            + 2
    }

    /// What is hashed to place the order: the action, the permit flag, the
    /// packed order and three empty words.
    pub open spec fn encoded(self, action: Seq<u8>) -> Seq<u8> {
        action + word(V3_FLAG_PERMIT as nat) + word(self.packed()) + word(0) + word(0) + word(0)
    }

    /// A market order to buy.
    pub fn market_buy(market_id: u32, size_steps: u32) -> (r: Order)
        ensures
            r == (Order {
                market_id,
                size_steps,
                price_ticks: 0,
                side: 0,
                order_type: 0,
                time_in_force: 3,
                post_only: false,
                reduce_only: false,
                stp_mode: 0,
            }),
    {
        Order {
            market_id,
            size_steps,
            price_ticks: 0,
            side: 0,
            order_type: 0,
            time_in_force: 3,
            post_only: false,
            reduce_only: false,
            stp_mode: 0,
        }
    }

    /// A market order to sell.
    pub fn market_sell(market_id: u32, size_steps: u32, reduce_only: bool) -> (r: Order)
        ensures
            r == (Order {
                market_id,
                size_steps,
                price_ticks: 0,
                side: 1,
                order_type: 0,
                time_in_force: 3,
                post_only: false,
                reduce_only,
                stp_mode: 0,
            }),
    {
        Order {
            market_id,
            size_steps,
            price_ticks: 0,
            side: 1,
            order_type: 0,
            time_in_force: 3,
            post_only: false,
            reduce_only,
            stp_mode: 0,
        }
    }

    /// A limit order to buy, good till cancelled.
    pub fn limit_buy(market_id: u32, size_steps: u32, price_ticks: u32, post_only: bool) -> (r:
        Order)
        ensures
            r == (Order {
                market_id,
                size_steps,
                price_ticks,
                side: 0,
                order_type: 1,
                time_in_force: 0,
                post_only,
                reduce_only: false,
                stp_mode: 0,
            }),
    {
        Order {
            market_id,
            size_steps,
            price_ticks,
            side: 0,
            order_type: 1,
            time_in_force: 0,
            post_only,
            reduce_only: false,
            stp_mode: 0,
        }
    }

    fn flags_byte(&self) -> (r: u8)
        ensures
            r == self.flags(),
    {
        let side = self.side;
        let stp = self.stp_mode;
        let kind = self.order_type;
        let tif = self.time_in_force;
        let mut flags: u8 = 0;
        if side & 1 != 0 {
            flags |= 0x01;
        }
        if self.post_only {
            flags |= 0x02;
        }
        if self.reduce_only {
            flags |= 0x04;
        }
        let low = flags;
        flags |= (stp & 3) << 3;
        flags |= (kind & 1) << 5;
        flags |= (tif & 3) << 6;
        proof {
            assert(side & 1 == side % 2) by (bit_vector);
            let p: u8 = if self.post_only {
                2
            } else {
                0
            };
            let q: u8 = if self.reduce_only {
                4
            } else {
                0
            };
            let s: u8 = if side & 1 != 0 {
                1
            } else {
                0
            };
            assert(0u8 | 1 == 1 && 0u8 | 2 == 2 && 0u8 | 4 == 4 && 1u8 | 2 == 3 && 1u8 | 4 == 5 && 2u8
                | 4 == 6 && 3u8 | 4 == 7) by (bit_vector);
            assert(low == s + p + q);
            assert(low < 8);
            assert(low | ((stp & 3) << 3) | ((kind & 1) << 5) | ((tif & 3) << 6) == low + 8 * (stp
                % 4) + 32 * (kind % 2) + 64 * (tif % 4)) by (bit_vector)
                requires
                    low < 8,
            ;
        }
        flags
    }

    /// The number that the order is packed into.
    pub fn pack(&self) -> (r: u128)
        ensures
            r == self.packed(),
    {
        let market: u128 = self.market_id as u128;
        let size: u128 = self.size_steps as u128;
        let price: u128 = self.price_ticks as u128;
        let flags: u128 = self.flags_byte() as u128;
        let r: u128 = ((market & 0xFFFF) << 70u128) | ((size & 0xFFFFFFFF) << 38u128) | ((price
            & 0xFFFFFF) << 14u128) | (flags << 6u128) | 2u128;
        assert(((market & 0xFFFF) << 70u128) | ((size & 0xFFFFFFFF) << 38u128) | ((price
            & 0xFFFFFF) << 14u128) | (flags << 6u128) | 2u128 == (market % 0x1_0000u128)
            * 0x40_0000_0000_0000_0000u128 + size * 0x40_0000_0000u128 + (price % 0x100_0000u128)
            * 0x4000u128 + flags * 0x40u128 + 2u128) by (bit_vector)
            requires
                market <= 0xFFFF_FFFFu128,
                size <= 0xFFFF_FFFFu128,
                price <= 0xFFFF_FFFFu128,
                flags <= 0xFFu128,
        ;
        r
    }

    /// What is hashed to place the order, by the hash of the action.
    pub fn encode(&self, action: &[u8; 32]) -> (r: Vec<u8>)
        ensures
            r@ == self.encoded(action@),
    {
        let mut out: Vec<u8> = Vec::new();
        append_bytes(&mut out, action);
        append_word(&mut out, V3_FLAG_PERMIT as u128);
        append_word(&mut out, self.pack());
        append_word(&mut out, 0);
        append_word(&mut out, 0);
        append_word(&mut out, 0);
        assert(out@ =~= self.encoded(action@));
        out
    }
}

/// The hash that stands for placing an order.
pub open spec fn order_hash(order: Order) -> Seq<u8> {
    keccak(order.encoded(keccak_text(ACTION_PLACE_ORDER@)))
}

/// The hash that stands for placing an order.
pub fn encode_order_hash(
    market_id: u32,
    size_steps: u32,
    price_ticks: u32,
    side: u8,
    order_type: u8,
    time_in_force: u8,
    post_only: bool,
    reduce_only: bool,
    stp_mode: u8,
) -> (r: [u8; 32])
    ensures
        r@ == order_hash(
            (Order {
                market_id,
                size_steps,
                price_ticks,
                side,
                order_type,
                time_in_force,
                post_only,
                reduce_only,
                stp_mode,
            }),
        ),
{
    let order = Order {
        market_id,
        size_steps,
        price_ticks,
        side,
        order_type,
        time_in_force,
        post_only,
        reduce_only,
        stp_mode,
    };
    let action = hash_text(ACTION_PLACE_ORDER);
    keccak256(order.encode(&action).as_slice())
}

impl Order {
    /// The hash that stands for placing the order.
    pub fn hash(&self) -> (r: [u8; 32])
        ensures
            r@ == order_hash(*self),
    {
        encode_order_hash(
            self.market_id,
            self.size_steps,
            self.price_ticks,
            self.side,
            self.order_type,
            self.time_in_force,
            self.post_only,
            self.reduce_only,
            self.stp_mode,
        )
    }
}

/// What is hashed to cancel all orders of a market: the action and the market.
pub open spec fn cancel_all_bytes(action: Seq<u8>, market_id: u32) -> Seq<u8> {
    action + word(market_id as nat)
}

/// What is hashed to cancel all orders of a market, by the hash of the action.
pub fn cancel_all_preimage(action: &[u8; 32], market_id: u32) -> (r: Vec<u8>)
    ensures
        r@ == cancel_all_bytes(action@, market_id),
{
    let mut out: Vec<u8> = Vec::new();
    append_bytes(&mut out, action);
    append_word(&mut out, market_id as u128);
    assert(out@ =~= cancel_all_bytes(action@, market_id));
    out
}

/// The hash that stands for cancelling all orders of a market.
pub open spec fn cancel_all_hash(market_id: u32) -> Seq<u8> {
    keccak(cancel_all_bytes(keccak_text(ACTION_CANCEL_ALL_ORDERS@), market_id))
}

/// The hash that stands for cancelling all orders of a market.
pub fn encode_cancel_all_hash(market_id: u32) -> (r: [u8; 32])
    ensures
        r@ == cancel_all_hash(market_id),
{
    let action = hash_text(ACTION_CANCEL_ALL_ORDERS);
    keccak256(cancel_all_preimage(&action, market_id).as_slice())
}

/// Every field can be read off the packed order, as far as its bits go, so two
/// orders are packed alike only where they agree in those bits. The packed
/// order has no more than eighty-six bits.
pub proof fn law_packed_fields(order: Order)
    ensures
        order.packed() < 0x40_0000_0000_0000_0000_0000,
        order.packed() / 0x40_0000_0000_0000_0000 == order.market_id % 0x1_0000,
        order.packed() / 0x40_0000_0000 % 0x1_0000_0000 == order.size_steps,
        order.packed() / 0x4000 % 0x100_0000 == order.price_ticks % 0x100_0000,
        order.packed() / 0x40 % 0x100 == order.flags(),
        order.packed() % 0x40 == 2,
        order.flags() % 2 == order.side % 2,
        (order.flags() / 2 % 2 == 1) == order.post_only,
        (order.flags() / 4 % 2 == 1) == order.reduce_only,
        order.flags() / 8 % 4 == order.stp_mode % 4,
        order.flags() / 32 % 2 == order.order_type % 2,
        order.flags() / 64 == order.time_in_force % 4,
{
    let m = order.market_id as int % 0x1_0000;
    let s = order.size_steps as int;
    let p = order.price_ticks as int % 0x100_0000;
    let f = order.flags() as int;
    lemma_flags_fields(order);
    // The number from each place up, lowest place last.
    let above_price = m * 0x1_0000_0000 + s;
    let above_flags = above_price * 0x100_0000 + p;
    let above_rest = above_flags * 0x100 + f;
    assert(order.packed() == above_rest * 0x40 + 2);
    assert(order.packed() == above_flags * 0x4000 + (f * 0x40 + 2));
    assert(order.packed() == above_price * 0x40_0000_0000 + (p * 0x4000 + f * 0x40 + 2));
    assert(order.packed() == m * 0x40_0000_0000_0000_0000 + (s * 0x40_0000_0000 + p * 0x4000 + f
        * 0x40 + 2));
    lemma_place(above_rest, 0x40, 2);
    lemma_place(above_flags, 0x4000, f * 0x40 + 2);
    lemma_place(above_price, 0x40_0000_0000, p * 0x4000 + f * 0x40 + 2);
    lemma_place(
        m,
        0x40_0000_0000_0000_0000,
        s * 0x40_0000_0000 + p * 0x4000 + f * 0x40 + 2,
    );
    lemma_place(above_flags, 0x100, f);
    lemma_place(above_price, 0x100_0000, p);
    lemma_place(m, 0x1_0000_0000, s);
}

/// A number that is less than a unit is what is left over by that unit.
proof fn lemma_place(q: int, unit: int, rest: int)
    requires
        0 <= rest < unit,
    ensures
        (q * unit + rest) / unit == q,
        (q * unit + rest) % unit == rest,
{
    vstd::arithmetic::div_mod::lemma_fundamental_div_mod_converse(q * unit + rest, unit, q, rest);
}

proof fn lemma_flags_fields(order: Order)
    ensures
        order.flags() < 0x100,
        order.flags() % 2 == order.side % 2,
        order.flags() / 2 % 2 == bit(order.post_only),
        order.flags() / 4 % 2 == bit(order.reduce_only),
        order.flags() / 8 % 4 == order.stp_mode % 4,
        order.flags() / 32 % 2 == order.order_type % 2,
        order.flags() / 64 == order.time_in_force % 4,
{
    let d = order.side as int % 2;
    let p = bit(order.post_only) as int;
    let q = bit(order.reduce_only) as int;
    let t = order.stp_mode as int % 4;
    let k = order.order_type as int % 2;
    let w = order.time_in_force as int % 4;
    let above_t = w * 2 + k;
    let above_q = above_t * 4 + t;
    let above_p = above_q * 2 + q;
    let above_d = above_p * 2 + p;
    let f = order.flags() as int;
    assert(f == above_d * 2 + d);
    assert(f == above_p * 4 + (p * 2 + d));
    assert(f == above_q * 8 + (q * 4 + p * 2 + d));
    assert(f == above_t * 32 + (t * 8 + q * 4 + p * 2 + d));
    assert(f == w * 64 + (k * 32 + t * 8 + q * 4 + p * 2 + d));
    lemma_place(above_d, 2, d);
    lemma_place(above_p, 4, p * 2 + d);
    lemma_place(above_q, 8, q * 4 + p * 2 + d);
    lemma_place(above_t, 32, t * 8 + q * 4 + p * 2 + d);
    lemma_place(w, 64, k * 32 + t * 8 + q * 4 + p * 2 + d);
    lemma_place(above_p, 2, p);
    lemma_place(above_q, 2, q);
    lemma_place(above_t, 4, t);
    lemma_place(w, 2, k);
}

/// What is hashed to place an order: the hash of the action, and then five
/// numbers of thirty-two bytes: one, the packed order, and three zeros.
pub proof fn law_order_words(order: Order)
    ensures
        exists|w: Seq<u8>|
            {
                &&& order_hash(order) == keccak(
                    keccak(encode_utf8("RISE_PERPS_PLACE_ORDER_V1"@)) + w,
                )
                &&& #[trigger] w.len() == 160
                &&& be_value(w.subrange(0, 32)) == 1
                &&& be_value(w.subrange(32, 64)) == order.packed()
                &&& be_value(w.subrange(64, 96)) == 0
                &&& be_value(w.subrange(96, 128)) == 0
                &&& be_value(w.subrange(128, 160)) == 0
            },
{
    let kind = keccak_text(ACTION_PLACE_ORDER@);
    let w = word(1) + word(order.packed()) + word(0) + word(0) + word(0);
    law_packed_fields(order);
    law_word(1);
    law_word(0);
    law_word(order.packed());
    assert(order.encoded(kind) =~= kind + w);
    assert(w.subrange(0, 32) =~= word(1));
    assert(w.subrange(32, 64) =~= word(order.packed()));
    assert(w.subrange(64, 96) =~= word(0));
    assert(w.subrange(96, 128) =~= word(0));
    assert(w.subrange(128, 160) =~= word(0));
}

/// The words of an order after the action, given the hash of any action.
pub proof fn law_encoded_words(order: Order, action: Seq<u8>)
    ensures
        order.encoded(action).take(action.len() as int) == action,
        order.encoded(action).len() == action.len() + 160,
        be_value(order.encoded(action).skip(action.len() as int).subrange(0, 32)) == 1,
        be_value(order.encoded(action).skip(action.len() as int).subrange(32, 64))
            == order.packed(),
        be_value(order.encoded(action).skip(action.len() as int).subrange(64, 96)) == 0,
        be_value(order.encoded(action).skip(action.len() as int).subrange(96, 128)) == 0,
        be_value(order.encoded(action).skip(action.len() as int).subrange(128, 160)) == 0,
{
    law_packed_fields(order);
    law_word(1);
    law_word(0);
    law_word(order.packed());
    let bytes = order.encoded(action);
    let w = bytes.skip(action.len() as int);
    assert(bytes.take(action.len() as int) =~= action);
    assert(w.subrange(0, 32) =~= word(1));
    assert(w.subrange(32, 64) =~= word(order.packed()));
    assert(w.subrange(64, 96) =~= word(0));
    assert(w.subrange(96, 128) =~= word(0));
    assert(w.subrange(128, 160) =~= word(0));
}

/// What is hashed to cancel all orders of a market: the hash of the action, and
/// then the market as a number of thirty-two bytes. Different markets are
/// different bytes.
pub proof fn law_cancel_all_words(market_id: u32, action: Seq<u8>)
    ensures
        cancel_all_bytes(action, market_id).len() == action.len() + 32,
        cancel_all_bytes(action, market_id).take(action.len() as int) == action,
        be_value(cancel_all_bytes(action, market_id).skip(action.len() as int)) == market_id,
        cancel_all_hash(market_id) == keccak(
            cancel_all_bytes(
                keccak(encode_utf8("RISE_PERPS_CANCEL_ALL_ORDERS_V1"@)),
                market_id,
            ),
        ),
{
    law_word(market_id as nat);
    let bytes = cancel_all_bytes(action, market_id);
    assert(bytes.take(action.len() as int) =~= action);
    assert(bytes.skip(action.len() as int) =~= word(market_id as nat));
}

} // verus!
