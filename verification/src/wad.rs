//! Amounts with eighteen decimal places, written as whole numbers of the last
//! place, and shown with a decimal point.

use vstd::prelude::*;
use vstd::utf8::{decode_utf8, encode_utf8, is_ascii_chars, is_char_boundary};

use crate::decimal::pow10;
use crate::text::{all_digits, chars_of, digits_value, is_digit, text_of};

verus! {

/// Zeros in front of a text, up to nineteen characters in all.
pub open spec fn padded(s: Seq<char>) -> Seq<char> {
    if s.len() >= 19 {
        s
    } else {
        Seq::new((19 - s.len()) as nat, |i: int| '0') + s
    }
}

/// A text without the zeros at its end.
pub open spec fn trimmed(s: Seq<char>) -> Seq<char>
    decreases s.len(),
{
    if s.len() > 0 && s.last() == '0' {
        trimmed(s.drop_last())
    } else {
        s
    }
}

/// The text without a minus sign in front.
pub open spec fn unsigned_part(wad: Seq<char>) -> Seq<char> {
    if wad.len() > 0 && wad[0] == '-' {
        wad.skip(1)
    } else {
        wad
    }
}

/// The bytes of the unsigned part, with zeros in front.
pub open spec fn wad_bytes(wad: Seq<char>) -> Seq<u8> {
    encode_utf8(padded(unsigned_part(wad)))
}

/// Whether the last eighteen bytes of the unsigned part are whole characters.
/// They are in every text of digits.
pub open spec fn divides(wad: Seq<char>) -> bool {
    wad.contains('.') || is_char_boundary(wad_bytes(wad), wad_bytes(wad).len() - 18)
}

/// What stands in front of the point: all but the last eighteen bytes.
pub open spec fn whole_part(wad: Seq<char>) -> Seq<char> {
    decode_utf8(wad_bytes(wad).subrange(0, wad_bytes(wad).len() - 18))
}

/// What stands behind the point: the last eighteen bytes without the zeros at
/// their end, or one zero.
pub open spec fn places_part(wad: Seq<char>) -> Seq<char> {
    let bytes = wad_bytes(wad);
    let places = trimmed(decode_utf8(bytes.subrange(bytes.len() - 18, bytes.len() as int)));
    if places.len() == 0 {
        seq!['0']
    } else {
        places
    }
}

/// An amount as it is shown. What has a point already is shown as it is.
pub open spec fn wad_text(wad: Seq<char>) -> Seq<char> {
    if wad.contains('.') {
        wad
    } else {
        let sign = if wad.len() > 0 && wad[0] == '-' {
            seq!['-']
        } else {
            Seq::empty()
        };
        sign + whole_part(wad) + seq!['.'] + places_part(wad)
    }
}

proof fn lemma_encoded_len(s: Seq<char>)
    ensures
        encode_utf8(s).len() >= s.len(),
    decreases s.len(),
{
    if s.len() > 0 {
        lemma_encoded_len(s.drop_first());
    }
}

fn has_point(chars: &Vec<char>) -> (r: bool)
    ensures
        r == chars@.contains('.'),
{
    let mut i: usize = 0;
    while i < chars.len()
        invariant
            i <= chars@.len(),
            forall|k: int| 0 <= k < i ==> chars@[k] != '.',
        decreases chars@.len() - i,
    {
        if chars[i] == '.' {
            return true;
        }
        i += 1;
    }
    false
}

fn is_negative(chars: &Vec<char>) -> (r: bool)
    ensures
        r == (chars@.len() > 0 && chars@[0] == '-'),
{
    chars.len() > 0 && chars[0] == '-'
}

fn padded_string(chars: &Vec<char>) -> (r: String)
    ensures
        r@ == padded(unsigned_part(chars@)),
{
    let len = chars.len();
    let start: usize = if is_negative(chars) {
        1
    } else {
        0
    };
    let ghost body = unsigned_part(chars@);
    let digits = text_of(chars, start, len);
    assert(digits@ =~= body);
    let mut out = String::new();
    let mut n: usize = len - start;
    while n < 19
        invariant
            body.len() <= n,
            n <= 19 || n == body.len(),
            out@ == Seq::new((n - body.len()) as nat, |i: int| '0'),
        decreases 19 - n,
    {
        out.push('0');
        n += 1;
        assert(out@ =~= Seq::new((n - body.len()) as nat, |i: int| '0'));
    }
    out.append(digits.as_str());
    assert(out@ =~= padded(body));
    out
}

fn trimmed_string(s: &str) -> (r: String)
    ensures
        r@ == trimmed(s@),
{
    let chars = chars_of(s);
    let mut n: usize = chars.len();
    assert(chars@.take(n as int) =~= s@);
    while n > 0 && chars[n - 1] == '0'
        invariant
            chars@ == s@,
            n <= chars@.len(),
            trimmed(s@) == trimmed(chars@.take(n as int)),
        decreases n,
    {
        proof {
            let part = chars@.take(n as int);
            assert(part.last() == '0');
            assert(part.drop_last() =~= chars@.take(n - 1));
        }
        n -= 1;
    }
    let r = text_of(&chars, 0, n);
    assert(r@ =~= chars@.take(n as int));
    r
}

/// Whether an amount can be shown.
pub fn can_format_wad(wad: &str) -> (r: bool)
    ensures
        r == divides(wad@),
{
    let chars = chars_of(wad);
    if has_point(&chars) {
        return true;
    }
    let text = padded_string(&chars);
    let len = text.as_str().as_bytes().len();
    proof {
        lemma_encoded_len(padded(unsigned_part(wad@)));
    }
    text.as_str().is_char_boundary(len - 18)
}

/// Shows an amount with its decimal point.
pub fn format_wad(wad: &str) -> (r: String)
    requires
        divides(wad@),
    ensures
        r@ == wad_text(wad@),
{
    let chars = chars_of(wad);
    if has_point(&chars) {
        return wad.to_owned();
    }
    let text = padded_string(&chars);
    let len = text.as_str().as_bytes().len();
    proof {
        lemma_encoded_len(padded(unsigned_part(wad@)));
    }
    let (integer, decimal) = text.as_str().split_at(len - 18);
    proof {
        vstd::utf8::encode_utf8_decode_utf8(integer@);
        vstd::utf8::encode_utf8_decode_utf8(decimal@);
        assert(integer@ == whole_part(wad@));
    }
    let places = trimmed_string(decimal);
    let mut out = String::new();
    if is_negative(&chars) {
        out.push('-');
    }
    out.append(integer);
    out.push('.');
    if places.as_str().is_empty() {
        out.push('0');
    } else {
        out.append(places.as_str());
    }
    assert(out@ =~= wad_text(wad@));
    out
}

// ---------------------------------------------------------------------------
// Value
// ---------------------------------------------------------------------------

proof fn lemma_digits_concat(a: Seq<char>, b: Seq<char>)
    ensures
        digits_value(a + b) == digits_value(a) * pow10(b.len()) + digits_value(b),
    decreases b.len(),
{
    if b.len() == 0 {
        assert(a + b =~= a);
        assert(pow10(b.len()) == 1);
        assert(digits_value(a) * 1 == digits_value(a));
    } else {
        let c = b.drop_last();
        lemma_digits_concat(a, c);
        assert((a + b).drop_last() =~= a + c);
        assert((a + b).last() == b.last());
        let x = digits_value(a);
        let t = pow10(c.len());
        assert(pow10(b.len()) == 10 * t);
        assert(10 * (x * t) == x * (10 * t)) by (nonlinear_arith);
        assert(digits_value(a + b) == 10 * digits_value(a + c) + crate::text::digit_value(b.last()));
    }
}

proof fn lemma_digits_of_zeros(n: nat)
    ensures
        digits_value(Seq::new(n, |i: int| '0')) == 0,
    decreases n,
{
    let s = Seq::new(n, |i: int| '0');
    if n > 0 {
        lemma_digits_of_zeros((n - 1) as nat);
        assert(s.drop_last() =~= Seq::new((n - 1) as nat, |i: int| '0'));
    }
}

proof fn lemma_trimmed(s: Seq<char>)
    ensures
        trimmed(s).len() <= s.len(),
        s == trimmed(s) + Seq::new((s.len() - trimmed(s).len()) as nat, |i: int| '0'),
        trimmed(s).len() > 0 ==> trimmed(s).last() != '0',
    decreases s.len(),
{
    if s.len() > 0 && s.last() == '0' {
        lemma_trimmed(s.drop_last());
        let t = trimmed(s);
        assert(s =~= t + Seq::new((s.len() - t.len()) as nat, |i: int| '0')) by {
            assert(s =~= s.drop_last().push('0'));
        }
    } else {
        assert(s =~= s + Seq::new(0, |i: int| '0'));
    }
}

proof fn lemma_ascii_part(s: Seq<char>, from: int, to: int)
    requires
        is_ascii_chars(s),
        0 <= from <= to <= s.len(),
    ensures
        encode_utf8(s).len() == s.len(),
        decode_utf8(encode_utf8(s).subrange(from, to)) == s.subrange(from, to),
{
    let part = s.subrange(from, to);
    vstd::utf8::is_ascii_chars_encode_utf8(s);
    assert(is_ascii_chars(part));
    vstd::utf8::is_ascii_chars_encode_utf8(part);
    assert forall|i: int| 0 <= i < part.len() implies encode_utf8(part)[i] == encode_utf8(s)[from
        + i] by {
        assert(part[i] == s[from + i]);
    }
    assert(encode_utf8(part) =~= encode_utf8(s).subrange(from, to));
    vstd::utf8::encode_utf8_decode_utf8(part);
}

/// A whole number of the last place, with or without a minus sign, is shown
/// with its value: the digits in front of the point count units, and the at
/// most eighteen behind it are the rest, without a zero at their end unless
/// that is all there is.
pub proof fn law_format_wad_value(wad: Seq<char>)
    requires
        unsigned_part(wad).len() > 0,
        all_digits(unsigned_part(wad)),
    ensures
        divides(wad),
        wad_text(wad) == (if wad[0] == '-' {
            seq!['-']
        } else {
            Seq::empty()
        }) + whole_part(wad) + seq!['.'] + places_part(wad),
        whole_part(wad).len() > 0,
        all_digits(whole_part(wad)),
        all_digits(places_part(wad)),
        1 <= places_part(wad).len() <= 18,
        places_part(wad).last() == '0' ==> places_part(wad) == seq!['0'],
        digits_value(whole_part(wad)) * pow10(18) + digits_value(places_part(wad)) * pow10(
            (18 - places_part(wad).len()) as nat,
        ) == digits_value(unsigned_part(wad)),
{
    let body = unsigned_part(wad);
    let p = padded(body);
    let n = p.len() as int;
    assert(all_digits(p)) by {
        assert forall|i: int| 0 <= i < p.len() implies is_digit(#[trigger] p[i]) by {
            if body.len() < 19 && i >= 19 - body.len() {
                assert(p[i] == body[i - (19 - body.len())]);
                assert(is_digit(body[i - (19 - body.len())]));
            } else if body.len() >= 19 {
                assert(is_digit(body[i]));
            }
        }
    }
    assert(is_ascii_chars(p)) by {
        assert forall|i: int| 0 <= i < p.len() implies '\0' <= #[trigger] p[i] <= '\u{7f}' by {
            assert(is_digit(p[i]));
        }
    }
    lemma_ascii_part(p, 0, n - 18);
    lemma_ascii_part(p, n - 18, n);
    let whole = p.subrange(0, n - 18);
    let places = p.subrange(n - 18, n);
    assert(whole_part(wad) == whole);
    assert(p =~= whole + places);
    lemma_trimmed(places);
    let t = trimmed(places);
    assert forall|i: int| 0 <= i < whole.len() implies is_digit(#[trigger] whole[i]) by {
        assert(is_digit(p[i]));
    }
    assert forall|i: int| 0 <= i < t.len() implies is_digit(#[trigger] t[i]) by {
        assert(t[i] == places[i]);
        assert(is_digit(p[n - 18 + i]));
    }
    // The point is in no digit, and the last eighteen bytes are characters.
    assert(!wad.contains('.')) by {
        if wad.contains('.') {
            let i = choose|i: int| 0 <= i < wad.len() && wad[i] == '.';
            if wad[0] == '-' {
                assert(body[i - 1] == '.');
                assert(is_digit(body[i - 1]));
            } else {
                assert(is_digit(body[i]));
            }
        }
    }
    lemma_boundary_in_ascii(p, n - 18);
    // Value.
    lemma_digits_concat(whole, places);
    lemma_digits_concat(t, Seq::new((18 - t.len()) as nat, |i: int| '0'));
    lemma_digits_of_zeros((18 - t.len()) as nat);
    if body.len() < 19 {
        lemma_digits_concat(Seq::new((19 - body.len()) as nat, |i: int| '0'), body);
        lemma_digits_of_zeros((19 - body.len()) as nat);
        assert(0 * pow10(body.len()) == 0) by (nonlinear_arith);
        assert(digits_value(p) == digits_value(body));
    }
    if t.len() == 0 {
        let zero = seq!['0'];
        assert(zero.drop_last() =~= Seq::<char>::empty());
        assert(digits_value(zero.drop_last()) == 0);
        assert(digits_value(zero) == 0);
        assert(digits_value(t) == 0);
    }
}

proof fn lemma_boundary_in_ascii(s: Seq<char>, index: int)
    requires
        is_ascii_chars(s),
        0 <= index <= s.len(),
    ensures
        is_char_boundary(encode_utf8(s), index),
{
    vstd::utf8::encode_utf8_valid_utf8(s);
    vstd::utf8::is_ascii_chars_encode_utf8(s);
    vstd::utf8::is_char_boundary_start_end_of_seq(encode_utf8(s));
    if 0 < index < s.len() {
        let b = encode_utf8(s);
        assert('\0' <= s[index] <= '\u{7f}');
        assert(s[index] as u8 == b[index]);
        vstd::utf8::is_char_boundary_iff_not_is_continuation_byte(b, index);
    }
}

/// A row of digits is shown as the number of last places that it is, with a
/// point eighteen places from its end: what stands in front of the point times
/// ten to the power of eighteen, and what stands behind it, filled up to eighteen
/// places, are together the number. In front stand all digits but the last
/// eighteen, or one zero; behind stands no zero at the end, unless it is alone. A
/// `-` in front of the digits stays in front.
pub proof fn law_wad_of_digits(s: Seq<char>)
    requires
        s.len() > 0,
        all_digits(s),
    ensures
        divides(s),
        divides(seq!['-'] + s),
        wad_text(seq!['-'] + s) == seq!['-'] + wad_text(s),
        exists|whole: Seq<char>, places: Seq<char>|
            {
                &&& wad_text(s) == #[trigger] (whole + seq!['.'] + places)
                &&& all_digits(whole)
                &&& all_digits(places)
                &&& whole.len() == (if s.len() > 18 {
                    s.len() - 18
                } else {
                    1
                })
                &&& 1 <= places.len() <= 18
                &&& places[places.len() - 1] == '0' ==> places.len() == 1
                &&& digits_value(whole) * 1_000_000_000_000_000_000 + digits_value(places) * pow10(
                    (18 - places.len()) as nat,
                ) == digits_value(s)
            },
{
    let t = seq!['-'] + s;
    assert(is_digit(s[0]));
    assert(t.skip(1) =~= s);
    assert(unsigned_part(t) == s);
    assert(unsigned_part(s) == s);
    law_format_wad_value(s);
    law_format_wad_value(t);
    assert(wad_bytes(t) == wad_bytes(s));
    let whole = whole_part(s);
    let places = places_part(s);
    assert(wad_text(s) =~= whole + seq!['.'] + places);
    assert(wad_text(t) =~= seq!['-'] + wad_text(s));
    reveal_with_fuel(pow10, 19);
    assert(pow10(18) == 1_000_000_000_000_000_000);
    let p = padded(s);
    assert(is_ascii_chars(p)) by {
        assert forall|i: int| 0 <= i < p.len() implies '\0' <= #[trigger] p[i] <= '\u{7f}' by {
            if s.len() < 19 && i >= 19 - s.len() {
                assert(p[i] == s[i - (19 - s.len())]);
                assert(is_digit(s[i - (19 - s.len())]));
            } else if s.len() >= 19 {
                assert(is_digit(s[i]));
            }
        }
    }
    lemma_ascii_part(p, 0, p.len() - 18);
}

/// What has a point already is shown as it is.
pub proof fn law_wad_with_point(wad: Seq<char>, at: int)
    requires
        0 <= at < wad.len(),
        wad[at] == '.',
    ensures
        divides(wad),
        wad_text(wad) == wad,
{
    assert(wad.contains('.'));
}

/// A text of ASCII characters without a point or a sign is filled up with zeros
/// in front to nineteen characters, and parted before the last eighteen of them;
/// the zeros at their end are dropped, or one zero stands where that leaves
/// nothing.
pub proof fn law_wad_of_ascii(s: Seq<char>)
    requires
        is_ascii_chars(s),
        !s.contains('.'),
        s.len() > 0 ==> s[0] != '-',
    ensures
        divides(s),
        exists|whole: Seq<char>, kept: Seq<char>, zeros: Seq<char>, front: Seq<char>|
            {
                &&& #[trigger] (whole + kept + zeros) == #[trigger] (front + s)
                &&& front.len() == (if s.len() < 19 {
                    19 - s.len()
                } else {
                    0
                })
                &&& forall|i: int| 0 <= i < front.len() ==> #[trigger] front[i] == '0'
                &&& forall|i: int| 0 <= i < zeros.len() ==> #[trigger] zeros[i] == '0'
                &&& kept.len() + zeros.len() == 18
                &&& kept.len() > 0 ==> kept[kept.len() - 1] != '0'
                &&& wad_text(s) == whole + seq!['.'] + (if kept.len() == 0 {
                    seq!['0']
                } else {
                    kept
                })
            },
{
    let p = padded(s);
    let n = p.len() as int;
    assert(is_ascii_chars(p)) by {
        assert forall|i: int| 0 <= i < p.len() implies '\0' <= #[trigger] p[i] <= '\u{7f}' by {
            if s.len() < 19 && i >= 19 - s.len() {
                assert(p[i] == s[i - (19 - s.len())]);
            } else if s.len() >= 19 {
                assert(p[i] == s[i]);
            }
        }
    }
    assert(unsigned_part(s) == s);
    lemma_boundary_in_ascii(p, n - 18);
    lemma_ascii_part(p, 0, n - 18);
    lemma_ascii_part(p, n - 18, n);
    let whole = p.subrange(0, n - 18);
    let places = p.subrange(n - 18, n);
    lemma_trimmed(places);
    let kept = trimmed(places);
    let zeros = places.skip(kept.len() as int);
    let front = Seq::new(
        if s.len() < 19 {
            (19 - s.len()) as nat
        } else {
            0
        },
        |i: int| '0',
    );
    assert(front + s =~= p);
    assert(kept + zeros =~= places);
    assert(whole + places =~= p);
    assert(whole + kept + zeros =~= whole + (kept + zeros));
    assert(whole + kept + zeros == front + s);
    assert(wad_text(s) =~= whole + seq!['.'] + (if kept.len() == 0 {
        seq!['0']
    } else {
        kept
    }));
}

/// A `-` in front of a text without a point stays in front of what is shown of
/// the text, and has no part in whether it can be shown.
pub proof fn law_wad_sign(s: Seq<char>)
    requires
        !s.contains('.'),
        s.len() > 0 ==> s[0] != '-',
    ensures
        wad_text(seq!['-'] + s) == seq!['-'] + wad_text(s),
        divides(seq!['-'] + s) == divides(s),
{
    let t = seq!['-'] + s;
    assert(t.skip(1) =~= s);
    assert(!t.contains('.')) by {
        if t.contains('.') {
            let i = choose|i: int| 0 <= i < t.len() && t[i] == '.';
            assert(s[i - 1] == '.');
        }
    }
    assert(wad_text(t) =~= seq!['-'] + wad_text(s));
}

/// Any text without a point or a sign, filled up with zeros in front to nineteen
/// characters, is parted before the last eighteen of its bytes, and can be shown
/// exactly where that is between two characters. Of the characters behind, the
/// zeros at the end are dropped, or one zero stands where that leaves nothing.
pub proof fn law_wad_of_text(s: Seq<char>, front: Seq<char>, bytes: Seq<u8>)
    requires
        !s.contains('.'),
        s.len() > 0 ==> s[0] != '-',
        front.len() == (if s.len() < 19 {
            19 - s.len()
        } else {
            0
        }),
        forall|i: int| 0 <= i < front.len() ==> #[trigger] front[i] == '0',
        bytes == encode_utf8(front + s),
    ensures
        divides(s) == is_char_boundary(bytes, bytes.len() - 18),
        exists|kept: Seq<char>, zeros: Seq<char>|
            {
                &&& #[trigger] (kept + zeros) == decode_utf8(
                    bytes.subrange(bytes.len() - 18, bytes.len() as int),
                )
                &&& forall|i: int| 0 <= i < zeros.len() ==> #[trigger] zeros[i] == '0'
                &&& kept.len() > 0 ==> kept[kept.len() - 1] != '0'
                &&& wad_text(s) == decode_utf8(bytes.subrange(0, bytes.len() - 18)) + seq!['.'] + (
                if kept.len() == 0 {
                    seq!['0']
                } else {
                    kept
                })
            },
{
    assert(front + s =~= padded(s));
    let places = decode_utf8(bytes.subrange(bytes.len() - 18, bytes.len() as int));
    lemma_trimmed(places);
    let kept = trimmed(places);
    let zeros = places.skip(kept.len() as int);
    assert(kept + zeros =~= places);
    assert(wad_text(s) =~= decode_utf8(bytes.subrange(0, bytes.len() - 18)) + seq!['.'] + (
    if kept.len() == 0 {
        seq!['0']
    } else {
        kept
    }));
}

} // verus!
