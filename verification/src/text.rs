//! Text helpers: comparison, searching, whitespace fields, and unsigned
//! decimal numbers read from and written to text.

use vstd::prelude::*;

verus! {

/// `String::push` of the standard library: appends one character at the end
/// and leaves the rest of the string as it was.
pub assume_specification[ String::push ](s: &mut String, c: char)
    ensures
        final(s)@ == old(s)@.push(c),
;

/// Whether two texts hold the same characters.
pub fn same_text(a: &str, b: &str) -> (r: bool)
    ensures
        r == (a@ == b@),
{
    a.to_owned() == b.to_owned()
}

/// The characters of a text.
pub fn chars_of(s: &str) -> (r: Vec<char>)
    ensures
        r@ == s@,
{
    let mut out: Vec<char> = Vec::new();
    for c in it: s.chars()
        invariant
            out@ == it.seq().take(it.index() as int),
            it.seq() == s@,
    {
        out.push(c);
    }
    out
}

/// The text made of the characters `from..to` of a list.
pub fn text_of(chars: &Vec<char>, from: usize, to: usize) -> (r: String)
    requires
        from <= to <= chars@.len(),
    ensures
        r@ == chars@.subrange(from as int, to as int),
{
    let mut out = String::new();
    let mut i: usize = from;
    while i < to
        invariant
            from <= i <= to <= chars@.len(),
            out@ == chars@.subrange(from as int, i as int),
        decreases to - i,
    {
        out.push(chars[i]);
        i += 1;
    }
    out
}

// ---------------------------------------------------------------------------
// Searching
// ---------------------------------------------------------------------------

/// Whether `part` stands in `whole` with its first character at `at`.
pub open spec fn occurs_at(whole: Seq<char>, part: Seq<char>, at: int) -> bool {
    &&& 0 <= at
    &&& at + part.len() <= whole.len()
    &&& whole.subrange(at, at + part.len()) == part
}

/// Whether `part` stands somewhere in `whole`.
pub open spec fn occurs_in(whole: Seq<char>, part: Seq<char>) -> bool {
    exists|at: int| occurs_at(whole, part, at)
}

fn matches_at(whole: &Vec<char>, part: &Vec<char>, at: usize) -> (r: bool)
    requires
        at + part@.len() <= whole@.len(),
    ensures
        r == occurs_at(whole@, part@, at as int),
{
    let len = whole.len();
    let mut j: usize = 0;
    while j < part.len()
        invariant
            len == whole@.len(),
            at + part@.len() <= len,
            j <= part@.len(),
            forall|k: int| 0 <= k < j ==> whole@[at + k] == part@[k],
        decreases part@.len() - j,
    {
        if whole[at + j] != part[j] {
            proof {
                let window = whole@.subrange(at as int, at + part@.len());
                assert(window[j as int] == whole@[at + j]);
            }
            return false;
        }
        j += 1;
    }
    assert(whole@.subrange(at as int, at + part@.len()) =~= part@);
    true
}

/// Whether `part` stands somewhere in `whole`.
pub fn contains_text(whole: &str, part: &str) -> (r: bool)
    ensures
        r == occurs_in(whole@, part@),
{
    let w = chars_of(whole);
    let p = chars_of(part);
    if p.len() > w.len() {
        return false;
    }
    let last: usize = w.len() - p.len();
    let mut at: usize = 0;
    while at <= last
        invariant
            w@ == whole@,
            p@ == part@,
            last == w@.len() - p@.len(),
            at <= last + 1,
            forall|k: int| 0 <= k < at ==> !occurs_at(whole@, part@, k),
        decreases last + 1 - at,
    {
        if matches_at(&w, &p, at) {
            return true;
        }
        if at == last {
            assert(forall|k: int| occurs_at(whole@, part@, k) ==> 0 <= k <= last);
            return false;
        }
        at += 1;
    }
    false
}

// ---------------------------------------------------------------------------
// Unsigned decimal numbers
// ---------------------------------------------------------------------------

pub open spec fn is_digit(c: char) -> bool {
    '0' <= c <= '9'
}

pub open spec fn digit_value(c: char) -> nat {
    (c as u32 - '0' as u32) as nat
}

/// The character of a digit below ten.
pub open spec fn digit_char(d: nat) -> char {
    ('0' as u32 + d) as char
}

pub open spec fn all_digits(s: Seq<char>) -> bool {
    forall|i: int| 0 <= i < s.len() ==> is_digit(#[trigger] s[i])
}

/// The number that a row of digits denotes, most significant digit first.
pub open spec fn digits_value(s: Seq<char>) -> nat
    decreases s.len(),
{
    if s.len() == 0 {
        0
    } else {
        10 * digits_value(s.drop_last()) + digit_value(s.last())
    }
}

/// The number that a text denotes: one or more digits, after at most one `+`.
pub open spec fn unsigned_value(s: Seq<char>) -> Option<nat> {
    let body = if s.len() > 0 && s[0] == '+' {
        s.skip(1)
    } else {
        s
    };
    if body.len() > 0 && all_digits(body) {
        Some(digits_value(body))
    } else {
        None
    }
}

/// The number that a text denotes, where it is at most `max`.
pub open spec fn unsigned_up_to(s: Seq<char>, max: nat) -> Option<nat> {
    match unsigned_value(s) {
        Some(n) => if n <= max {
            Some(n)
        } else {
            None
        },
        None => None,
    }
}

proof fn lemma_digits_value_grows(s: Seq<char>, n: int)
    requires
        0 <= n <= s.len(),
    ensures
        digits_value(s.take(n)) <= digits_value(s),
    decreases s.len() - n,
{
    if n < s.len() {
        lemma_digits_value_grows(s, n + 1);
        assert(s.take(n + 1).drop_last() =~= s.take(n));
    } else {
        assert(s.take(n) =~= s);
    }
}

/// Reads the number that a list of characters denotes; `None` where it denotes
/// none or one above `u64::MAX`.
pub fn parse_chars(chars: &Vec<char>) -> (r: Option<u64>)
    ensures
        match r {
            Some(n) => unsigned_up_to(chars@, u64::MAX as nat) == Some(n as nat),
            None => unsigned_up_to(chars@, u64::MAX as nat) is None,
        },
{
    let len = chars.len();
    let start: usize = if len > 0 && chars[0] == '+' {
        1
    } else {
        0
    };
    let ghost body = chars@.skip(start as int);
    proof {
        if start == 0 {
            assert(body =~= chars@);
        }
    }
    if start == len {
        return None;
    }
    let mut acc: u64 = 0;
    let mut i: usize = start;
    while i < len
        invariant
            len == chars@.len(),
            start <= i <= len,
            start < len,
            body == chars@.skip(start as int),
            (start == 1) == (chars@.len() > 0 && chars@[0] == '+'),
            start == 0 || start == 1,
            start == 0 ==> body == chars@,
            acc == digits_value(body.take(i - start)),
            forall|k: int| 0 <= k < i - start ==> is_digit(#[trigger] body[k]),
        decreases len - i,
    {
        let c = chars[i];
        let ghost k = i - start;
        assert(body[k] == c);
        if !(c >= '0' && c <= '9') {
            assert(!is_digit(body[k]));
            return None;
        }
        let d: u64 = (c as u32 - '0' as u32) as u64;
        proof {
            assert(body.take(k + 1).drop_last() =~= body.take(k));
            assert(body.take(k + 1).last() == c);
            assert(digits_value(body.take(k + 1)) == 10 * acc + d);
            lemma_digits_value_grows(body, k + 1);
        }
        match acc.checked_mul(10) {
            None => {
                return None;
            },
            Some(t) => {
                match t.checked_add(d) {
                    None => {
                        return None;
                    },
                    Some(n) => {
                        acc = n;
                    },
                }
            },
        }
        i += 1;
    }
    assert(body.take(len - start) =~= body);
    Some(acc)
}

/// Reads an unsigned 64-bit number; `None` where the text denotes none or one
/// that is too large.
pub fn parse_u64(s: &str) -> (r: Option<u64>)
    ensures
        match r {
            Some(n) => unsigned_up_to(s@, u64::MAX as nat) == Some(n as nat),
            None => unsigned_up_to(s@, u64::MAX as nat) is None,
        },
{
    parse_chars(&chars_of(s))
}

/// Reads an unsigned 32-bit number; `None` where the text denotes none or one
/// that is too large.
pub fn parse_u32(s: &str) -> (r: Option<u32>)
    ensures
        match r {
            Some(n) => unsigned_up_to(s@, u32::MAX as nat) == Some(n as nat),
            None => unsigned_up_to(s@, u32::MAX as nat) is None,
        },
{
    match parse_u64(s) {
        Some(n) => if n <= u32::MAX as u64 {
            Some(n as u32)
        } else {
            None
        },
        None => None,
    }
}

/// A number in decimal, without leading zeros.
pub open spec fn decimal_text(n: nat) -> Seq<char>
    decreases n,
{
    if n < 10 {
        seq![digit_char(n)]
    } else {
        decimal_text(n / 10).push(digit_char(n % 10))
    }
}

/// Writes a number in decimal.
pub fn decimal_string(n: u128) -> (r: String)
    ensures
        r@ == decimal_text(n as nat),
    decreases n,
{
    let d: u8 = 48u8 + (n % 10) as u8;
    assert(d as char == digit_char((n % 10) as nat));
    if n < 10 {
        let mut out = String::new();
        out.push(d as char);
        assert(out@ =~= decimal_text(n as nat));
        out
    } else {
        let mut out = decimal_string(n / 10);
        out.push(d as char);
        out
    }
}

/// The decimal text of a number is a row of digits that denotes the number and
/// does not begin with a zero, unless the number is zero.
pub proof fn law_decimal_text(n: nat)
    ensures
        all_digits(decimal_text(n)),
        decimal_text(n).len() > 0,
        digits_value(decimal_text(n)) == n,
        n > 0 ==> decimal_text(n)[0] != '0',
    decreases n,
{
    if n < 10 {
        let s = decimal_text(n);
        assert(s.drop_last() =~= Seq::<char>::empty());
        assert(digits_value(s.drop_last()) == 0);
        assert(s.last() == digit_char(n));
    } else {
        law_decimal_text(n / 10);
        let s = decimal_text(n);
        assert(s.drop_last() =~= decimal_text(n / 10));
        assert(s.last() == digit_char(n % 10));
        assert(s[0] == decimal_text(n / 10)[0]);
    }
}

/// What is written in decimal is read back: reading the decimal text of a
/// number gives that number.
pub proof fn law_unsigned_round_trip(n: nat)
    ensures
        unsigned_value(decimal_text(n)) == Some(n),
{
    law_decimal_text(n);
    assert(is_digit(decimal_text(n)[0]));
}

// ---------------------------------------------------------------------------
// Whitespace fields
// ---------------------------------------------------------------------------

/// The characters with the Unicode property `White_Space`.
pub open spec fn is_space(c: char) -> bool {
    ||| '\u{9}' <= c <= '\u{d}'
    ||| c == ' '
    ||| c == '\u{85}'
    ||| c == '\u{a0}'
    ||| c == '\u{1680}'
    ||| '\u{2000}' <= c <= '\u{200a}'
    ||| c == '\u{2028}'
    ||| c == '\u{2029}'
    ||| c == '\u{202f}'
    ||| c == '\u{205f}'
    ||| c == '\u{3000}'
}

fn space(c: char) -> (r: bool)
    ensures
        r == is_space(c),
{
    (c >= '\u{9}' && c <= '\u{d}') || c == ' ' || c == '\u{85}' || c == '\u{a0}' || c == '\u{1680}'
        || (c >= '\u{2000}' && c <= '\u{200a}') || c == '\u{2028}' || c == '\u{2029}' || c
        == '\u{202f}' || c == '\u{205f}' || c == '\u{3000}'
}

/// The fields that ended before the last character of `s`, and the run of
/// other characters than whitespace at its end.
pub open spec fn field_split(s: Seq<char>) -> (Seq<Seq<char>>, Seq<char>)
    decreases s.len(),
{
    if s.len() == 0 {
        (Seq::empty(), Seq::empty())
    } else {
        let (done, run) = field_split(s.drop_last());
        if !is_space(s.last()) {
            (done, run.push(s.last()))
        } else if run.len() > 0 {
            (done.push(run), Seq::empty())
        } else {
            (done, Seq::empty())
        }
    }
}

/// The fields of a text: its maximal runs without whitespace, in order.
pub open spec fn fields(s: Seq<char>) -> Seq<Seq<char>> {
    let (done, run) = field_split(s);
    if run.len() > 0 {
        done.push(run)
    } else {
        done
    }
}

/// The field with number `n`, counted from zero.
pub fn nth_field(s: &str, n: usize) -> (r: Option<Vec<char>>)
    ensures
        match r {
            Some(f) => n < fields(s@).len() && f@ == fields(s@)[n as int],
            None => fields(s@).len() <= n,
        },
{
    let chars = chars_of(s);
    let mut count: usize = 0;
    let mut run: Vec<char> = Vec::new();
    let mut found: Option<Vec<char>> = None;
    let mut i: usize = 0;
    while i < chars.len()
        invariant
            chars@ == s@,
            i <= chars@.len(),
            count <= i,
            ({
                let (done, last) = field_split(s@.take(i as int));
                &&& done.len() == count
                &&& run@ == last
                &&& match found {
                    Some(f) => n < done.len() && f@ == done[n as int],
                    None => done.len() <= n,
                }
            }),
        decreases chars@.len() - i,
    {
        let c = chars[i];
        assert(s@.take(i + 1).drop_last() =~= s@.take(i as int));
        assert(s@.take(i + 1).last() == c);
        if !space(c) {
            run.push(c);
        } else if run.len() > 0 {
            if count == n {
                found = Some(run);
            }
            count += 1;
            run = Vec::new();
        }
        i += 1;
    }
    assert(s@.take(i as int) =~= s@);
    if run.len() > 0 && count == n {
        return Some(run);
    }
    found
}

/// A text stands in another exactly where the other is that text between a front
/// and a back.
pub proof fn law_occurs_in(whole: Seq<char>, part: Seq<char>)
    ensures
        occurs_in(whole, part) == exists|front: Seq<char>, back: Seq<char>| #[trigger]
            (front + part + back) == whole,
{
    if occurs_in(whole, part) {
        let at = choose|at: int| occurs_at(whole, part, at);
        let front = whole.take(at);
        let back = whole.skip(at + part.len());
        assert(front + part + back =~= whole) by {
            assert forall|i: int| at <= i < at + part.len() implies whole[i] == part[i - at] by {
                assert(whole.subrange(at, at + part.len())[i - at] == part[i - at]);
            }
        }
    }
    if exists|front: Seq<char>, back: Seq<char>| #[trigger] (front + part + back) == whole {
        let (front, back) = choose|front: Seq<char>, back: Seq<char>| #[trigger]
            (front + part + back) == whole;
        assert(whole.subrange(front.len() as int, front.len() + part.len() as int) =~= part);
        assert(occurs_at(whole, part, front.len() as int));
    }
}

/// Digits denote the number that they are in decimal: one digit its own value,
/// and one more digit at the end ten times the number and that digit.
pub proof fn law_digits(s: Seq<char>, c: char)
    requires
        '0' <= c <= '9',
    ensures
        digits_value(Seq::empty()) == 0,
        digits_value(s.push(c)) == 10 * digits_value(s) + (c as u32 - 48),
{
    assert(s.push(c).drop_last() =~= s);
}

/// A text of digits denotes the number of its digits, also after one `+`. A text
/// without digits, or with any other character, denotes none.
pub proof fn law_unsigned_value(s: Seq<char>, max: nat)
    ensures
        s.len() > 0 && all_digits(s) ==> unsigned_value(s) == Some(digits_value(s)),
        s.len() > 0 && all_digits(s) ==> unsigned_value(seq!['+'] + s) == Some(digits_value(s)),
        s.len() == 0 ==> unsigned_value(s) is None && unsigned_value(seq!['+'] + s) is None,
        (exists|i: int| 1 <= i < s.len() && !('0' <= #[trigger] s[i] <= '9')) ==> unsigned_value(
            s,
        ) is None,
        s.len() > 0 && s[0] != '+' && !('0' <= s[0] <= '9') ==> unsigned_value(s) is None,
        unsigned_up_to(s, max) == (if unsigned_value(s) is Some && unsigned_value(s)->0 <= max {
            unsigned_value(s)
        } else {
            None
        }),
{
    let t = seq!['+'] + s;
    assert(t.skip(1) =~= s);
    if s.len() > 0 && all_digits(s) {
        assert(is_digit(s[0]));
    }
    if s.len() > 0 && s[0] != '+' && !('0' <= s[0] <= '9') {
        assert(!is_digit(s[0]));
    }
    if exists|i: int| 1 <= i < s.len() && !('0' <= #[trigger] s[i] <= '9') {
        let i = choose|i: int| 1 <= i < s.len() && !('0' <= #[trigger] s[i] <= '9');
        assert(!is_digit(s[i]));
        assert(s.skip(1)[i - 1] == s[i]);
        assert(!all_digits(s.skip(1)));
        assert(!all_digits(s));
    }
}

proof fn lemma_fields_of_run(s: Seq<char>)
    requires
        forall|i: int| 0 <= i < s.len() ==> !is_space(#[trigger] s[i]),
    ensures
        field_split(s) == (Seq::<Seq<char>>::empty(), s),
    decreases s.len(),
{
    if s.len() > 0 {
        assert forall|i: int| 0 <= i < s.drop_last().len() implies !is_space(
            #[trigger] s.drop_last()[i],
        ) by {
            assert(s.drop_last()[i] == s[i]);
        }
        lemma_fields_of_run(s.drop_last());
        assert(!is_space(s[s.len() - 1]));
        assert(s.drop_last().push(s.last()) =~= s);
    } else {
        assert(s =~= Seq::empty());
    }
}

proof fn lemma_split_append(s: Seq<char>, gap: char, t: Seq<char>)
    requires
        is_space(gap),
    ensures
        field_split(s.push(gap) + t).0 == fields(s) + field_split(t).0,
        field_split(s.push(gap) + t).1 == field_split(t).1,
    decreases t.len(),
{
    let whole = s.push(gap) + t;
    if t.len() == 0 {
        assert(whole =~= s.push(gap));
        assert(s.push(gap).drop_last() =~= s);
        assert(fields(s) + field_split(t).0 =~= fields(s));
    } else {
        assert(whole.drop_last() =~= s.push(gap) + t.drop_last());
        assert(whole.last() == t.last());
        lemma_split_append(s, gap, t.drop_last());
        let (done, run) = field_split(t.drop_last());
        assert((fields(s) + done).push(run) =~= fields(s) + done.push(run));
    }
}

/// Fields are what stands between spaces: a text without spaces is one field, or
/// none where it is empty, and a space parts the fields in front of it from those
/// behind it.
pub proof fn law_fields(s: Seq<char>, gap: char, t: Seq<char>)
    requires
        is_space(gap),
    ensures
        fields(s.push(gap) + t) == fields(s) + fields(t),
        (forall|i: int| 0 <= i < t.len() ==> !is_space(#[trigger] t[i])) ==> fields(t) == (
        if t.len() == 0 {
            Seq::<Seq<char>>::empty()
        } else {
            seq![t]
        }),
        forall|c: char|
            '\u{9}' <= c <= '\u{d}' || c == ' ' || c == '\u{85}' || c == '\u{a0}' || c == '\u{1680}'
                || '\u{2000}' <= c <= '\u{200a}' || c == '\u{2028}' || c == '\u{2029}' || c
                == '\u{202f}' || c == '\u{205f}' || c == '\u{3000}' ==> is_space(c),
        forall|c: char| '!' <= c <= '~' ==> !is_space(c),
{
    lemma_split_append(s, gap, t);
    let (done, run) = field_split(t);
    assert((fields(s) + done).push(run) =~= fields(s) + done.push(run));
    if forall|i: int| 0 <= i < t.len() ==> !is_space(#[trigger] t[i]) {
        lemma_fields_of_run(t);
        assert(Seq::<Seq<char>>::empty().push(t) =~= seq![t]);
    }
}

} // verus!
