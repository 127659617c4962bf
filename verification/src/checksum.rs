//! The checksum by which a kept book is compared with the exchange's own.

use vstd::prelude::*;
use vstd::utf8::encode_utf8;

use crate::book::{lemma_levels_of_view, side_levels, Book, LevelView};
use crate::decimal::{
    decimal_value, has_wei, law_same_number_same_wei, same_number, to_wei_string, value_or_zero,
    wei_fits, wei_of_text, wei_text,
};

verus! {

/// A remainder after `n` more bits, lowest bit first: each bit that leaves
/// brings the polynomial in.
pub open spec fn crc_bits(remainder: u32, n: nat) -> u32
    decreases n,
{
    if n == 0 {
        remainder
    } else {
        let r = crc_bits(remainder, (n - 1) as nat);
        if r & 1 == 1 {
            (r >> 1) ^ 0xedb8_8320
        } else {
            r >> 1
        }
    }
}

/// The remainder of bytes, from one whose bits are all set.
pub open spec fn crc_remainder(data: Seq<u8>) -> u32
    decreases data.len(),
{
    if data.len() == 0 {
        0xffff_ffff
    } else {
        crc_bits(crc_remainder(data.drop_last()) ^ data.last() as u32, 8)
    }
}

/// The CRC-32 of bytes, as IEEE 802.3 has it.
pub open spec fn crc32(data: Seq<u8>) -> u32 {
    crc_remainder(data) ^ 0xffff_ffff
}

/// `crc32fast::hash`: the CRC-32 of the bytes, with the polynomial of IEEE
/// 802.3, its bits reversed, and with all bits turned over before and after.
#[verifier::external_body]
fn crc32_hash(data: &[u8]) -> (r: u32)
    ensures
        r == crc32(data@),
{
    crc32fast::hash(data)
}

/// The texts of a level in the order in which they are summed.
pub open spec fn level_fields(level: LevelView) -> Seq<Seq<char>> {
    seq![level.price, level.quantity]
}

/// The fields of the first `n` ranks: at each rank the level of the first list
/// and then that of the second, where the lists reach that far.
pub open spec fn ranked_fields(
    first: Seq<LevelView>,
    second: Seq<LevelView>,
    n: nat,
) -> Seq<Seq<char>>
    decreases n,
{
    if n == 0 {
        Seq::empty()
    } else {
        let rank = (n - 1) as int;
        let before = ranked_fields(first, second, (n - 1) as nat);
        let with_first = if rank < first.len() {
            before + level_fields(first[rank])
        } else {
            before
        };
        if rank < second.len() {
            with_first + level_fields(second[rank])
        } else {
            with_first
        }
    }
}

pub open spec fn longer(a: nat, b: nat) -> nat {
    if a >= b {
        a
    } else {
        b
    }
}

/// The texts that are summed for a book: bids from the highest price down and
/// asks from the lowest price up, by turns.
pub open spec fn checksum_fields(bids: Seq<LevelView>, asks: Seq<LevelView>) -> Seq<Seq<char>> {
    ranked_fields(bids.reverse(), asks, longer(bids.len(), asks.len()))
}

/// Texts with a separator between each and the next.
pub open spec fn joined(parts: Seq<Seq<char>>, separator: char) -> Seq<char>
    decreases parts.len(),
{
    if parts.len() == 0 {
        Seq::empty()
    } else if parts.len() == 1 {
        parts[0]
    } else {
        joined(parts.drop_last(), separator).push(separator) + parts.last()
    }
}

/// Whether each field has an amount in wei, a field that is not a number
/// counting as zero.
pub open spec fn all_fit(fields: Seq<Seq<char>>) -> bool {
    forall|i: int| 0 <= i < fields.len() ==> wei_fits(value_or_zero(#[trigger] fields[i]))
}

/// Whether each field is a number that has an amount in wei.
pub open spec fn all_numbers_fit(fields: Seq<Seq<char>>) -> bool {
    forall|i: int|
        0 <= i < fields.len() ==> (decimal_value(#[trigger] fields[i]) is Some && wei_fits(
            decimal_value(fields[i])->0,
        ))
}

/// The amounts in wei of the fields.
pub open spec fn wei_fields(fields: Seq<Seq<char>>) -> Seq<Seq<char>> {
    fields.map_values(|f: Seq<char>| wei_text(value_or_zero(f)))
}

/// The checksum over a list of fields.
pub open spec fn checksum_of(fields: Seq<Seq<char>>) -> u32 {
    crc32(encode_utf8(joined(wei_fields(fields), ':')))
}

/// The checksum of a book.
pub open spec fn book_checksum(bids: Seq<LevelView>, asks: Seq<LevelView>) -> u32 {
    checksum_of(checksum_fields(bids, asks))
}

/// The texts of a list of strings.
pub open spec fn text_views(texts: Seq<String>) -> Seq<Seq<char>> {
    texts.map_values(|t: String| t@)
}

/// The texts that are summed for a book, in order.
fn collect_fields(bids: &Book, asks: &Book) -> (r: Vec<String>)
    requires
        bids.wf(),
        asks.wf(),
    ensures
        text_views(r@) == checksum_fields(side_levels(bids@), side_levels(asks@)),
{
    proof {
        lemma_levels_of_view(*bids);
        lemma_levels_of_view(*asks);
    }
    let ghost first = bids.levels().reverse();
    let ghost second = asks.levels();
    let nb = bids.entries.len();
    let na = asks.entries.len();
    let n: usize = if nb >= na {
        nb
    } else {
        na
    };
    let mut out: Vec<String> = Vec::new();
    let mut i: usize = 0;
    assert(text_views(out@) =~= Seq::empty());
    while i < n
        invariant
            first == bids.levels().reverse(),
            second == asks.levels(),
            nb == bids.entries@.len(),
            na == asks.entries@.len(),
            n == longer(nb as nat, na as nat),
            i <= n,
            text_views(out@) == ranked_fields(first, second, i as nat),
        decreases n - i,
    {
        let ghost before = text_views(out@);
        if i < nb {
            let at: usize = nb - 1 - i;
            assert(first[i as int] == bids.entries@[at as int].level@);
            out.push(bids.entries[at].level.price.clone());
            out.push(bids.entries[at].level.quantity.clone());
            assert(text_views(out@) =~= before + level_fields(first[i as int]));
        }
        let ghost middle = text_views(out@);
        if i < na {
            assert(second[i as int] == asks.entries@[i as int].level@);
            out.push(asks.entries[i].level.price.clone());
            out.push(asks.entries[i].level.quantity.clone());
            assert(text_views(out@) =~= middle + level_fields(second[i as int]));
        }
        i += 1;
    }
    out
}

/// The bytes of a text, hashed.
fn hash_text(s: &str) -> (r: u32)
    ensures
        r == crc32(encode_utf8(s@)),
{
    crc32_hash(s.as_bytes())
}

/// Whether each field has an amount in wei, a field that is not a number
/// counting as zero.
fn fields_fit(fields: &Vec<String>) -> (r: bool)
    ensures
        r == all_fit(text_views(fields@)),
{
    let ghost views = text_views(fields@);
    let mut i: usize = 0;
    while i < fields.len()
        invariant
            views == text_views(fields@),
            i <= fields@.len(),
            forall|k: int| 0 <= k < i ==> wei_fits(value_or_zero(#[trigger] views[k])),
        decreases fields@.len() - i,
    {
        assert(views[i as int] == fields@[i as int]@);
        if !has_wei(fields[i].as_str()) {
            return false;
        }
        i += 1;
    }
    true
}

/// The checksum over a list of fields.
fn fields_checksum(fields: &Vec<String>) -> (r: u32)
    requires
        all_fit(text_views(fields@)),
    ensures
        r == checksum_of(text_views(fields@)),
{
    let ghost views = text_views(fields@);
    let ghost amounts = wei_fields(views);
    let mut line = String::new();
    let mut i: usize = 0;
    assert(amounts.take(0) =~= Seq::empty());
    while i < fields.len()
        invariant
            all_fit(views),
            views == text_views(fields@),
            amounts == wei_fields(views),
            i <= fields@.len(),
            line@ == joined(amounts.take(i as int), ':'),
        decreases fields@.len() - i,
    {
        assert(views[i as int] == fields@[i as int]@);
        assert(amounts[i as int] == wei_text(value_or_zero(views[i as int])));
        proof {
            assert(amounts.take(i + 1).drop_last() =~= amounts.take(i as int));
            assert(amounts.take(i + 1).last() == amounts[i as int]);
        }
        let w = to_wei_string(fields[i].as_str());
        if i > 0 {
            line.push(':');
        }
        line.append(w.as_str());
        proof {
            if i == 0 {
                assert(line@ =~= amounts[0]);
            }
        }
        i += 1;
    }
    assert(amounts.take(i as int) =~= amounts);
    hash_text(line.as_str())
}

/// The checksum of a book, a text that is not a number counting as zero.
pub fn compute_checksum(bids: &Book, asks: &Book) -> (r: u32)
    requires
        bids.wf(),
        asks.wf(),
        all_fit(checksum_fields(side_levels(bids@), side_levels(asks@))),
    ensures
        r == book_checksum(side_levels(bids@), side_levels(asks@)),
{
    fields_checksum(&collect_fields(bids, asks))
}

/// The checksum of a book, a text that is not a number counting as zero;
/// `None` where an amount in wei does not fit.
pub fn try_checksum(bids: &Book, asks: &Book) -> (r: Option<u32>)
    requires
        bids.wf(),
        asks.wf(),
    ensures
        match r {
            Some(c) => {
                &&& all_fit(checksum_fields(side_levels(bids@), side_levels(asks@)))
                &&& c == book_checksum(side_levels(bids@), side_levels(asks@))
            },
            None => !all_fit(checksum_fields(side_levels(bids@), side_levels(asks@))),
        },
{
    if fields_fit(&collect_fields(bids, asks)) {
        Some(compute_checksum(bids, asks))
    } else {
        None
    }
}

/// The checksum of a book all of whose texts are numbers; `None` where one is
/// not, or where an amount in wei does not fit.
pub fn strict_checksum(bids: &Book, asks: &Book) -> (r: Option<u32>)
    requires
        bids.wf(),
        asks.wf(),
    ensures
        match r {
            Some(c) => {
                &&& all_numbers_fit(checksum_fields(side_levels(bids@), side_levels(asks@)))
                &&& c == book_checksum(side_levels(bids@), side_levels(asks@))
            },
            None => !all_numbers_fit(checksum_fields(side_levels(bids@), side_levels(asks@))),
        },
{
    let fields = collect_fields(bids, asks);
    let ghost views = text_views(fields@);
    let mut i: usize = 0;
    while i < fields.len()
        invariant
            views == text_views(fields@),
            views == checksum_fields(side_levels(bids@), side_levels(asks@)),
            i <= fields@.len(),
            forall|k: int|
                0 <= k < i ==> (decimal_value(#[trigger] views[k]) is Some && wei_fits(
                    decimal_value(views[k])->0,
                )),
        decreases fields@.len() - i,
    {
        assert(views[i as int] == fields@[i as int]@);
        if wei_of_text(fields[i].as_str()).is_err() {
            return None;
        }
        i += 1;
    }
    Some(fields_checksum(&fields))
}

/// Where every text is a number that has an amount in wei, the strict and the
/// lenient checksum are both made.
pub proof fn law_strict_is_lenient(fields: Seq<Seq<char>>)
    requires
        all_numbers_fit(fields),
    ensures
        all_fit(fields),
{
}

/// Whether texts denote the same numbers, one by one.
pub open spec fn same_numbers(a: Seq<Seq<char>>, b: Seq<Seq<char>>) -> bool {
    &&& a.len() == b.len()
    &&& forall|i: int|
        #![trigger a[i]]
        #![trigger b[i]]
        0 <= i < a.len() ==> same_number(value_or_zero(a[i]), value_or_zero(b[i]))
}

/// Texts that denote the same numbers have the same checksum, or both have
/// none: how a number is written does not matter.
pub proof fn law_same_numbers_same_checksum(a: Seq<Seq<char>>, b: Seq<Seq<char>>)
    requires
        same_numbers(a, b),
    ensures
        all_fit(a) == all_fit(b),
        checksum_of(a) == checksum_of(b),
{
    assert forall|i: int| 0 <= i < a.len() implies wei_fits(value_or_zero(#[trigger] a[i]))
        == wei_fits(value_or_zero(b[i])) && wei_text(value_or_zero(a[i])) == wei_text(
        value_or_zero(b[i]),
    ) by {
        law_same_number_same_wei(value_or_zero(a[i]), value_or_zero(b[i]));
    }
    assert(wei_fields(a) =~= wei_fields(b));
    if all_fit(a) {
        assert forall|i: int| 0 <= i < b.len() implies wei_fits(
            value_or_zero(#[trigger] b[i]),
        ) by {
            assert(wei_fits(value_or_zero(a[i])));
        }
    }
    if all_fit(b) {
        assert forall|i: int| 0 <= i < a.len() implies wei_fits(
            value_or_zero(#[trigger] a[i]),
        ) by {
            assert(wei_fits(value_or_zero(b[i])));
        }
    }
}

/// Whether two levels have the same price and the same quantity.
pub open spec fn same_level(a: LevelView, b: LevelView) -> bool {
    &&& same_number(value_or_zero(a.price), value_or_zero(b.price))
    &&& same_number(value_or_zero(a.quantity), value_or_zero(b.quantity))
}

/// Whether lists of levels are the same, one by one.
pub open spec fn same_levels(a: Seq<LevelView>, b: Seq<LevelView>) -> bool {
    &&& a.len() == b.len()
    &&& forall|i: int|
        #![trigger a[i]]
        #![trigger b[i]]
        0 <= i < a.len() ==> same_level(a[i], b[i])
}

proof fn lemma_same_numbers_appended(
    a: Seq<Seq<char>>,
    b: Seq<Seq<char>>,
    x: LevelView,
    y: LevelView,
)
    requires
        same_numbers(a, b),
        same_level(x, y),
    ensures
        same_numbers(a + level_fields(x), b + level_fields(y)),
{
    let p = a + level_fields(x);
    let q = b + level_fields(y);
    assert forall|i: int| 0 <= i < p.len() implies same_number(
        value_or_zero(p[i]),
        value_or_zero(q[i]),
    ) by {
        if i < a.len() {
            assert(p[i] == a[i] && q[i] == b[i]);
        }
    }
}

proof fn lemma_same_ranked_fields(
    first1: Seq<LevelView>,
    second1: Seq<LevelView>,
    first2: Seq<LevelView>,
    second2: Seq<LevelView>,
    n: nat,
)
    requires
        same_levels(first1, first2),
        same_levels(second1, second2),
    ensures
        same_numbers(ranked_fields(first1, second1, n), ranked_fields(first2, second2, n)),
    decreases n,
{
    if n > 0 {
        let rank = (n - 1) as int;
        lemma_same_ranked_fields(first1, second1, first2, second2, (n - 1) as nat);
        let a = ranked_fields(first1, second1, (n - 1) as nat);
        let b = ranked_fields(first2, second2, (n - 1) as nat);
        if rank < first1.len() {
            lemma_same_numbers_appended(a, b, first1[rank], first2[rank]);
            if rank < second1.len() {
                lemma_same_numbers_appended(
                    a + level_fields(first1[rank]),
                    b + level_fields(first2[rank]),
                    second1[rank],
                    second2[rank],
                );
            }
        } else if rank < second1.len() {
            lemma_same_numbers_appended(a, b, second1[rank], second2[rank]);
        }
    }
}

/// Books with the same levels have the same checksum, or both have none: how
/// prices and quantities are written does not matter.
pub proof fn law_same_levels_same_checksum(
    bids1: Seq<LevelView>,
    asks1: Seq<LevelView>,
    bids2: Seq<LevelView>,
    asks2: Seq<LevelView>,
)
    requires
        same_levels(bids1, bids2),
        same_levels(asks1, asks2),
    ensures
        all_fit(checksum_fields(bids1, asks1)) == all_fit(checksum_fields(bids2, asks2)),
        book_checksum(bids1, asks1) == book_checksum(bids2, asks2),
{
    assert(same_levels(bids1.reverse(), bids2.reverse()));
    lemma_same_ranked_fields(
        bids1.reverse(),
        asks1,
        bids2.reverse(),
        asks2,
        longer(bids1.len(), asks1.len()),
    );
    law_same_numbers_same_checksum(checksum_fields(bids1, asks1), checksum_fields(bids2, asks2));
}

/// The checksum of a book without levels is zero.
pub proof fn law_empty_book_checksum()
    ensures
        book_checksum(Seq::empty(), Seq::empty()) == 0,
{
    let none = Seq::<LevelView>::empty();
    assert(checksum_fields(none, none) =~= Seq::empty());
    assert(wei_fields(checksum_fields(none, none)) =~= Seq::empty());
    assert(encode_utf8(Seq::<char>::empty()).len() == 0);
    assert(0xffff_ffffu32 ^ 0xffff_ffffu32 == 0u32) by (bit_vector);
}

proof fn lemma_ranked_positions(first: Seq<LevelView>, second: Seq<LevelView>, n: nat)
    ensures
        ({
            let fields = ranked_fields(first, second, n);
            &&& fields.len() == 2 * (shorter(n, first.len()) + shorter(n, second.len()))
            &&& forall|i: int|
                #![trigger first[i]]
                0 <= i < n && i < first.len() ==> {
                    &&& fields[2 * (i + shorter(i as nat, second.len()))] == first[i].price
                    &&& fields[2 * (i + shorter(i as nat, second.len())) + 1] == first[i].quantity
                }
            &&& forall|i: int|
                #![trigger second[i]]
                0 <= i < n && i < second.len() ==> {
                    &&& fields[2 * (i + shorter((i + 1) as nat, first.len()))] == second[i].price
                    &&& fields[2 * (i + shorter((i + 1) as nat, first.len())) + 1]
                        == second[i].quantity
                }
        }),
    decreases n,
{
    if n > 0 {
        lemma_ranked_positions(first, second, (n - 1) as nat);
    }
}

pub open spec fn shorter(a: nat, b: nat) -> nat {
    if a <= b {
        a
    } else {
        b
    }
}

/// The texts that are summed hold every level of both sides exactly once, each
/// as its price and then its quantity. The ask of rank `i` has `i` asks in front
/// of it and every bid of rank up to `i`; the bid of rank `i`, counted from the
/// highest price, has `i` bids in front of it and every ask of rank below `i`.
pub proof fn law_field_positions(bids: Seq<LevelView>, asks: Seq<LevelView>, i: int)
    requires
        0 <= i,
    ensures
        checksum_fields(bids, asks).len() == 2 * (bids.len() + asks.len()),
        i < asks.len() ==> ({
            let at = 2 * (i + if i + 1 <= bids.len() {
                i + 1
            } else {
                bids.len() as int
            });
            &&& 0 <= at && at + 1 < checksum_fields(bids, asks).len()
            &&& checksum_fields(bids, asks)[at] == asks[i].price
            &&& checksum_fields(bids, asks)[at + 1] == asks[i].quantity
        }),
        i < bids.len() ==> ({
            let at = 2 * (i + if i <= asks.len() {
                i
            } else {
                asks.len() as int
            });
            &&& 0 <= at && at + 1 < checksum_fields(bids, asks).len()
            &&& checksum_fields(bids, asks)[at] == bids[bids.len() - 1 - i].price
            &&& checksum_fields(bids, asks)[at + 1] == bids[bids.len() - 1 - i].quantity
        }),
{
    let first = bids.reverse();
    lemma_ranked_positions(first, asks, longer(bids.len(), asks.len()));
    if i < asks.len() {
        let level = asks[i];
    }
    if i < bids.len() {
        assert(first[i] == bids[bids.len() - 1 - i]);
    }
}

/// Joined texts: nothing of none, one as it is, and each further one after a
/// separator.
pub proof fn law_joined(parts: Seq<Seq<char>>, part: Seq<char>, separator: char)
    ensures
        joined(Seq::empty(), separator) == Seq::<char>::empty(),
        joined(seq![part], separator) == part,
        parts.len() > 0 ==> joined(parts.push(part), separator) == joined(parts, separator)
            + seq![separator] + part,
{
    assert(seq![part][0] == part);
    if parts.len() > 0 {
        let all = parts.push(part);
        assert(all.drop_last() =~= parts);
        assert(joined(parts, separator).push(separator) =~= joined(parts, separator)
            + seq![separator]);
    }
}

/// The checksum of a book is the CRC-32 of the amounts in wei of its texts,
/// joined by colons: as many amounts as texts, each that of the text in its
/// place.
pub proof fn law_book_checksum(
    bids: Seq<LevelView>,
    asks: Seq<LevelView>,
    amounts: Seq<Seq<char>>,
)
    requires
        amounts.len() == checksum_fields(bids, asks).len(),
        forall|i: int|
            0 <= i < amounts.len() ==> #[trigger] amounts[i] == wei_text(
                value_or_zero(checksum_fields(bids, asks)[i]),
            ),
    ensures
        book_checksum(bids, asks) == crc32(encode_utf8(joined(amounts, ':'))),
{
    assert(wei_fields(checksum_fields(bids, asks)) =~= amounts);
}

/// A book can be summed exactly where the amount of each of its texts fits, and
/// strictly exactly where each of its texts is also a number.
pub proof fn law_summable(fields: Seq<Seq<char>>)
    ensures
        !all_fit(fields) == exists|i: int|
            0 <= i < fields.len() && !wei_fits(value_or_zero(#[trigger] fields[i])),
        !all_numbers_fit(fields) == exists|i: int|
            0 <= i < fields.len() && (decimal_value(#[trigger] fields[i]) is None || !wei_fits(
                value_or_zero(fields[i]),
            )),
{
}

} // verus!
