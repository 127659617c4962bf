//! Big-endian words, hexadecimal text and base64 text.

use base64::Engine;
use vstd::prelude::*;

verus! {

// ---------------------------------------------------------------------------
// Big-endian integers
// ---------------------------------------------------------------------------

/// The last `len` bytes of a number, most significant byte first.
pub open spec fn be_bytes(n: nat, len: nat) -> Seq<u8>
    decreases len,
{
    if len == 0 {
        Seq::empty()
    } else {
        be_bytes(n / 256, (len - 1) as nat).push((n % 256) as u8)
    }
}

/// The number that bytes denote, most significant byte first.
pub open spec fn be_value(bytes: Seq<u8>) -> nat
    decreases bytes.len(),
{
    if bytes.len() == 0 {
        0
    } else {
        256 * be_value(bytes.drop_last()) + bytes.last() as nat
    }
}

pub open spec fn pow256(n: nat) -> nat
    decreases n,
{
    if n == 0 {
        1
    } else {
        256 * pow256((n - 1) as nat)
    }
}

/// A number in a word of thirty-two bytes.
pub open spec fn word(n: nat) -> Seq<u8> {
    be_bytes(n, 32)
}

/// A number written to bytes that can hold it is read back from them.
pub proof fn law_be_round_trip(n: nat, len: nat)
    requires
        n < pow256(len),
    ensures
        be_bytes(n, len).len() == len,
        be_value(be_bytes(n, len)) == n,
    decreases len,
{
    if len > 0 {
        law_be_round_trip(n / 256, (len - 1) as nat);
        assert(be_bytes(n, len).drop_last() =~= be_bytes(n / 256, (len - 1) as nat));
    }
}

fn be_vec(n: u128, len: usize) -> (r: Vec<u8>)
    ensures
        r@ == be_bytes(n as nat, len as nat),
    decreases len,
{
    if len == 0 {
        Vec::new()
    } else {
        let mut out = be_vec(n / 256, len - 1);
        out.push((n % 256) as u8);
        out
    }
}

/// Appends bytes to a buffer.
pub(crate) fn append_bytes(out: &mut Vec<u8>, bytes: &[u8])
    ensures
        final(out)@ == old(out)@ + bytes@,
{
    let mut i: usize = 0;
    let ghost before = out@;
    while i < bytes.len()
        invariant
            i <= bytes@.len(),
            out@ == before + bytes@.take(i as int),
        decreases bytes@.len() - i,
    {
        out.push(bytes[i]);
        i += 1;
        assert(out@ =~= before + bytes@.take(i as int));
    }
    assert(bytes@.take(i as int) =~= bytes@);
}

/// Appends the word of a number to a buffer.
pub(crate) fn append_word(out: &mut Vec<u8>, n: u128)
    ensures
        final(out)@ == old(out)@ + word(n as nat),
{
    let bytes = be_vec(n, 32);
    append_bytes(out, bytes.as_slice());
}

/// Bytes after zeros that fill a word up.
pub open spec fn left_padded(bytes: Seq<u8>) -> Seq<u8> {
    Seq::new((32 - bytes.len()) as nat, |i: int| 0u8) + bytes
}

/// Appends the twenty bytes of an address, filled up to a word.
pub(crate) fn append_address(out: &mut Vec<u8>, bytes: &[u8; 20])
    ensures
        final(out)@ == old(out)@ + left_padded(bytes@),
{
    let zeros: [u8; 12] = [0u8; 12];
    append_bytes(out, &zeros);
    append_bytes(out, bytes);
    assert(out@ =~= old(out)@ + left_padded(bytes@));
}

// ---------------------------------------------------------------------------
// Hexadecimal
// ---------------------------------------------------------------------------

pub open spec fn is_hex(c: char) -> bool {
    ||| '0' <= c <= '9'
    ||| 'a' <= c <= 'f'
    ||| 'A' <= c <= 'F'
}

pub open spec fn hex_value(c: char) -> nat {
    if '0' <= c <= '9' {
        (c as u32 - '0' as u32) as nat
    } else if 'a' <= c <= 'f' {
        (c as u32 - 'a' as u32 + 10) as nat
    } else {
        (c as u32 - 'A' as u32 + 10) as nat
    }
}

/// The lower case hexadecimal digit of a number below sixteen.
pub open spec fn hex_digit(n: nat) -> char {
    if n < 10 {
        ('0' as u32 + n) as char
    } else {
        ('a' as u32 + n - 10) as char
    }
}

/// Bytes in lower case hexadecimal.
pub open spec fn hex_text(bytes: Seq<u8>) -> Seq<char> {
    Seq::new(
        2 * bytes.len(),
        |i: int|
            if i % 2 == 0 {
                hex_digit((bytes[i / 2] / 16) as nat)
            } else {
                hex_digit((bytes[i / 2] % 16) as nat)
            },
    )
}

/// The bytes that pairs of hexadecimal digits denote.
pub open spec fn hex_bytes(s: Seq<char>) -> Seq<u8> {
    Seq::new(
        s.len() / 2,
        |i: int| (16 * hex_value(s[2 * i]) + hex_value(s[2 * i + 1])) as u8,
    )
}

/// The bytes that a text denotes: an even number of hexadecimal digits of
/// either case.
pub open spec fn hex_decoded(s: Seq<char>) -> Option<Seq<u8>> {
    if s.len() % 2 == 0 && (forall|i: int| 0 <= i < s.len() ==> is_hex(#[trigger] s[i])) {
        Some(hex_bytes(s))
    } else {
        None
    }
}

/// `hex::decode`: the bytes that hexadecimal text denotes. It takes digits of
/// either case, and refuses an odd number of digits and any other character.
#[verifier::external_body]
pub(crate) fn decode_hex(s: &str) -> (r: Option<Vec<u8>>)
    ensures
        match r {
            Some(bytes) => hex_decoded(s@) == Some(bytes@),
            None => hex_decoded(s@) is None,
        },
{
    hex::decode(s).ok()
}

/// `hex::encode`: two lower case digits for each byte.
#[verifier::external_body]
pub(crate) fn encode_hex(bytes: &[u8; 65]) -> (r: String)
    ensures
        r@ == hex_text(bytes@),
{
    hex::encode(bytes)
}

/// What is written in hexadecimal is read back.
pub proof fn law_hex_round_trip(bytes: Seq<u8>)
    ensures
        hex_decoded(hex_text(bytes)) == Some(bytes),
{
    let s = hex_text(bytes);
    assert forall|i: int| 0 <= i < s.len() implies is_hex(#[trigger] s[i]) by {}
    assert forall|i: int| 0 <= i < bytes.len() implies hex_bytes(s)[i] == bytes[i] by {
        let b = bytes[i];
        assert(s[2 * i] == hex_digit((b / 16) as nat));
        assert(s[2 * i + 1] == hex_digit((b % 16) as nat));
        assert(hex_value(s[2 * i]) == b / 16);
        assert(hex_value(s[2 * i + 1]) == b % 16);
    }
    assert(hex_bytes(s) =~= bytes);
}

// ---------------------------------------------------------------------------
// Base64
// ---------------------------------------------------------------------------

/// The base64 digit of a number below sixty-four.
pub open spec fn base64_digit(n: nat) -> char {
    if n < 26 {
        ('A' as u32 + n) as char
    } else if n < 52 {
        ('a' as u32 + n - 26) as char
    } else if n < 62 {
        ('0' as u32 + n - 52) as char
    } else if n == 62 {
        '+'
    } else {
        '/'
    }
}

/// The first `len` base64 digits of three bytes that denote `n`.
pub open spec fn base64_group(n: nat, len: nat) -> Seq<char> {
    seq![
        base64_digit(n / 262144),
        base64_digit(n / 4096 % 64),
        base64_digit(n / 64 % 64),
        base64_digit(n % 64),
    ].take(len as int)
}

/// Bytes in base64: four digits for three bytes, and `=` in the place of the
/// digits that a last group of one or two bytes does not fill.
pub open spec fn base64_text(bytes: Seq<u8>) -> Seq<char>
    decreases bytes.len(),
{
    if bytes.len() == 0 {
        Seq::empty()
    } else if bytes.len() == 1 {
        base64_group(bytes[0] as nat * 65536, 2) + seq!['=', '=']
    } else if bytes.len() == 2 {
        base64_group(bytes[0] as nat * 65536 + bytes[1] as nat * 256, 3) + seq!['=']
    } else {
        base64_group(bytes[0] as nat * 65536 + bytes[1] as nat * 256 + bytes[2] as nat, 4)
            + base64_text(bytes.skip(3))
    }
}

/// `encode` of the engine `base64::engine::general_purpose::STANDARD`: the
/// standard alphabet, with padding.
#[verifier::external_body]
pub(crate) fn encode_base64(bytes: &[u8; 65]) -> (r: String)
    ensures
        r@ == base64_text(bytes@),
{
    base64::engine::general_purpose::STANDARD.encode(bytes)
}

/// Base64 text has four characters for every three bytes, a last group of one
/// or two bytes included.
pub proof fn law_base64_length(bytes: Seq<u8>)
    ensures
        base64_text(bytes).len() == (bytes.len() + 2) / 3 * 4,
    decreases bytes.len(),
{
    if bytes.len() >= 3 {
        law_base64_length(bytes.skip(3));
    }
}

/// The last byte of a number is what 256 leaves over of it, and the bytes in
/// front of that byte are those of the quotient: the most significant byte comes
/// first. Bytes are read in the same order.
pub proof fn law_big_endian(n: nat, len: nat, bytes: Seq<u8>)
    ensures
        be_bytes(n, len).len() == len,
        len > 0 ==> be_bytes(n, len)[len - 1] as nat == n % 256,
        len > 0 ==> be_bytes(n, len).take(len - 1) == be_bytes(n / 256, (len - 1) as nat),
        bytes.len() == 1 ==> be_value(bytes) == bytes[0],
        bytes.len() > 1 ==> be_value(bytes) == 256 * be_value(bytes.take(bytes.len() - 1))
            + bytes[bytes.len() - 1],
    decreases len,
{
    if len > 0 {
        law_big_endian(n / 256, (len - 1) as nat, bytes);
        assert(be_bytes(n, len).take(len - 1) =~= be_bytes(n / 256, (len - 1) as nat));
    }
    if bytes.len() == 1 {
        assert(be_value(bytes.drop_last()) == 0);
    }
    if bytes.len() > 1 {
        assert(bytes.take(bytes.len() - 1) =~= bytes.drop_last());
    }
}

/// A word has thirty-two bytes, and a number below two to the power of 128 is
/// read back from it.
pub proof fn law_word(n: nat)
    ensures
        word(n).len() == 32,
        n < 0x1_0000_0000_0000_0000_0000_0000_0000_0000 ==> be_value(word(n)) == n,
{
    law_big_endian(n, 32, Seq::empty());
    reveal_with_fuel(pow256, 33);
    if n < 0x1_0000_0000_0000_0000_0000_0000_0000_0000 {
        assert(pow256(32) >= 0x1_0000_0000_0000_0000_0000_0000_0000_0000);
        law_be_round_trip(n, 32);
    }
}

/// An address stands in a word after twelve zeros.
pub proof fn law_left_padded(bytes: Seq<u8>)
    requires
        bytes.len() == 20,
    ensures
        left_padded(bytes).len() == 32,
        forall|i: int| 0 <= i < 12 ==> left_padded(bytes)[i] == 0,
        left_padded(bytes).subrange(12, 32) == bytes,
{
    assert(left_padded(bytes).subrange(12, 32) =~= bytes);
}

} // verus!
