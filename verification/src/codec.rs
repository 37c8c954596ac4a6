//! The two message codecs of the framed channel.
//!
//! Both codecs serialize [`Request`] and [`Response`] values into the
//! payload bytes of one frame, and both round-trip every value:
//! - the binary codec writes a tag byte, and each string as an 8-byte
//!   big-endian byte count followed by the string's UTF-8 bytes;
//! - the text codec is self-describing ASCII where structure is needed: a
//!   tag letter, each string as its decimal byte count, `:` and the
//!   string's UTF-8 bytes, each count as its decimal digits and `;`, and
//!   each optional field introduced by `+` (present) or `-` (absent).
//!
//! Every decoder is specified against a deterministic specification
//! parser, so a malformed payload is rejected exactly where the
//! specification says so.
use vstd::prelude::*;

use vstd::arithmetic::div_mod::lemma_fundamental_div_mod;

use crate::dto::Request;
use crate::dto::Response;

verus! {

/// The 8-byte big-endian representation of a count.
pub open spec fn be_bytes(n: u64) -> Seq<u8> {
    seq![
        (n >> 56) as u8,
        (n >> 48) as u8,
        (n >> 40) as u8,
        (n >> 32) as u8,
        (n >> 24) as u8,
        (n >> 16) as u8,
        (n >> 8) as u8,
        n as u8,
    ]
}

/// The count read back from 8 big-endian bytes.
pub open spec fn be_value(b: Seq<u8>) -> u64
    recommends
        b.len() == 8,
{
    ((b[0] as u64) << 56 | (b[1] as u64) << 48 | (b[2] as u64) << 40 | (b[3] as u64) << 32 | (
    b[4] as u64) << 24 | (b[5] as u64) << 16 | (b[6] as u64) << 8 | (b[7] as u64)) as u64
}

/// Reading back the big-endian bytes of a count yields the count.
pub proof fn lemma_be_roundtrip(n: u64)
    ensures
        be_value(be_bytes(n)) == n,
{
    assert((((n >> 56) as u8) as u64) << 56 | (((n >> 48) as u8) as u64) << 48 | (((n
        >> 40) as u8) as u64) << 40 | (((n >> 32) as u8) as u64) << 32 | (((n
        >> 24) as u8) as u64) << 24 | (((n >> 16) as u8) as u64) << 16 | (((n >> 8) as u8) as u64)
        << 8 | ((n as u8) as u64) == n) by (bit_vector);
}

/// An ASCII decimal digit.
pub open spec fn is_digit(b: u8) -> bool {
    48 <= b <= 57
}

/// Every byte of the sequence is an ASCII decimal digit.
pub open spec fn all_digits(s: Seq<u8>) -> bool {
    forall|i: int| 0 <= i < s.len() ==> is_digit(#[trigger] s[i])
}

/// The shortest ASCII decimal representation of a non-negative number.
pub open spec fn dec_digits(n: int) -> Seq<u8>
    recommends
        n >= 0,
    decreases n,
{
    if n < 10 {
        seq![(48 + if n >= 0 {
            n
        } else {
            0
        }) as u8]
    } else {
        dec_digits(n / 10) + seq![(48 + n % 10) as u8]
    }
}

/// The number denoted by a sequence of ASCII decimal digits.
pub open spec fn dec_value(s: Seq<u8>) -> int
    decreases s.len(),
{
    if s.len() == 0 {
        0
    } else {
        dec_value(s.drop_last()) * 10 + (s.last() - 48)
    }
}

/// Ten to the `k`.
pub open spec fn pow10(k: int) -> int
    decreases k,
{
    if k <= 0 {
        1
    } else {
        10 * pow10(k - 1)
    }
}

/// The decimal representation holds only digits, is never empty, and has
/// no leading zero unless it is exactly "0".
pub proof fn lemma_dec_digits_shape(n: int)
    requires
        n >= 0,
    ensures
        all_digits(dec_digits(n)),
        dec_digits(n).len() >= 1,
        n >= 1 ==> dec_digits(n)[0] != 48,
    decreases n,
{
    if n >= 10 {
        lemma_dec_digits_shape(n / 10);
        assert(dec_digits(n)[0] == dec_digits(n / 10)[0]);
        assert forall|i: int| 0 <= i < dec_digits(n).len() implies is_digit(
            #[trigger] dec_digits(n)[i],
        ) by {
            if i < dec_digits(n / 10).len() {
                assert(dec_digits(n)[i] == dec_digits(n / 10)[i]);
            }
        }
    }
}

/// Reading the decimal representation back yields the number.
pub proof fn lemma_dec_roundtrip(n: int)
    requires
        n >= 0,
    ensures
        dec_value(dec_digits(n)) == n,
    decreases n,
{
    if n < 10 {
        assert(dec_digits(n).drop_last() =~= Seq::<u8>::empty());
        assert(dec_digits(n).last() == (48 + n) as u8);
        assert(dec_value(dec_digits(n)) == dec_value(dec_digits(n).drop_last()) * 10 + (dec_digits(
            n,
        ).last() - 48));
        assert(dec_value(dec_digits(n)) == n);
    } else {
        lemma_dec_roundtrip(n / 10);
        assert(dec_digits(n).drop_last() =~= dec_digits(n / 10));
        assert(dec_digits(n).last() == (48 + n % 10) as u8);
        assert(0 <= n % 10 < 10);
        assert((48 + n % 10) as u8 - 48 == n % 10);
        lemma_fundamental_div_mod(n, 10);
        assert(dec_value(dec_digits(n)) == (n / 10) * 10 + n % 10);
        assert(dec_value(dec_digits(n)) == n);
    }
}

/// A digit string's value is below ten to its length.
pub proof fn lemma_dec_value_upper(s: Seq<u8>)
    requires
        all_digits(s),
    ensures
        0 <= dec_value(s) < pow10(s.len() as int),
    decreases s.len(),
{
    if s.len() > 0 {
        assert(all_digits(s.drop_last())) by {
            assert(forall|i: int|
                0 <= i < s.drop_last().len() ==> #[trigger] s.drop_last()[i] == s[i]);
        }
        lemma_dec_value_upper(s.drop_last());
        assert(is_digit(s.last()));
        assert(pow10(s.len() as int) == 10 * pow10(s.len() - 1));
    }
}

/// Without a leading zero, a digit string's value reaches ten to one less
/// than its length.
pub proof fn lemma_dec_value_lower(s: Seq<u8>)
    requires
        all_digits(s),
        s.len() >= 1,
        s[0] != 48,
    ensures
        dec_value(s) >= pow10(s.len() - 1),
    decreases s.len(),
{
    if s.len() > 1 {
        assert(all_digits(s.drop_last())) by {
            assert(forall|i: int|
                0 <= i < s.drop_last().len() ==> #[trigger] s.drop_last()[i] == s[i]);
        }
        assert(s.drop_last()[0] == s[0]);
        lemma_dec_value_lower(s.drop_last());
        assert(is_digit(s.last()));
        assert(dec_value(s) == dec_value(s.drop_last()) * 10 + (s.last() - 48));
        assert(pow10(s.len() - 1) == 10 * pow10(s.len() - 2));
    } else {
        assert(is_digit(s[0]));
        assert(s.last() == s[0]);
        assert(s.drop_last() =~= Seq::<u8>::empty());
        assert(dec_value(s) == dec_value(s.drop_last()) * 10 + (s.last() - 48));
        assert(pow10(s.len() - 1) == 1);
    }
}

/// Ten to the `k` grows with `k` and is always positive.
pub proof fn lemma_pow10_mono(a: int, b: int)
    requires
        0 <= a <= b,
    ensures
        1 <= pow10(a) <= pow10(b),
    decreases b,
{
    if a < b {
        lemma_pow10_mono(a, b - 1);
    } else {
        if a > 0 {
            lemma_pow10_mono(a - 1, a - 1);
        }
    }
}

/// Twenty-one digits always exceed the widest count.
pub proof fn lemma_pow10_20()
    ensures
        pow10(19) == 10000000000000000000,
        pow10(20) == 100000000000000000000,
        pow10(20) > u64::MAX,
{
    assert(pow10(0) == 1);
    assert(pow10(1) == 10);
    assert(pow10(2) == 100);
    assert(pow10(3) == 1000);
    assert(pow10(4) == 10000);
    assert(pow10(5) == 100000);
    assert(pow10(6) == 1000000);
    assert(pow10(7) == 10000000);
    assert(pow10(8) == 100000000);
    assert(pow10(9) == 1000000000);
    assert(pow10(10) == 10000000000);
    assert(pow10(11) == 100000000000);
    assert(pow10(12) == 1000000000000);
    assert(pow10(13) == 10000000000000);
    assert(pow10(14) == 100000000000000);
    assert(pow10(15) == 1000000000000000);
    assert(pow10(16) == 10000000000000000);
    assert(pow10(17) == 100000000000000000);
    assert(pow10(18) == 1000000000000000000);
    assert(pow10(19) == 10000000000000000000);
    assert(pow10(20) == 100000000000000000000);
}

// ---------------------------------------------------------------------
// Items: one string, count, boolean or optional field inside a payload.
// Each item has an encoding, a specification parser working at a byte
// position, and a lemma that parsing an encoded item in place yields the
// item back and stops right after it.
// ---------------------------------------------------------------------
/// Binary string item: 8-byte big-endian byte count, then UTF-8 bytes.
pub open spec fn enc_str_bin(s: Seq<char>) -> Seq<u8> {
    be_bytes(vstd::utf8::encode_utf8(s).len() as u64) + vstd::utf8::encode_utf8(s)
}

/// Parses a binary string item at position `i`.
pub open spec fn parse_str_bin(b: Seq<u8>, i: int) -> Option<(Seq<char>, int)> {
    if 0 <= i && i + 8 <= b.len() {
        let n = be_value(b.subrange(i, i + 8)) as int;
        if i + 8 + n <= b.len() && vstd::utf8::valid_utf8(b.subrange(i + 8, i + 8 + n)) {
            Option::Some((vstd::utf8::decode_utf8(b.subrange(i + 8, i + 8 + n)), i + 8 + n))
        } else {
            Option::None
        }
    } else {
        Option::None
    }
}

/// A string whose UTF-8 byte count its length field can carry.
pub open spec fn str_fits(s: Seq<char>) -> bool {
    vstd::utf8::encode_utf8(s).len() <= u64::MAX
}

pub proof fn lemma_parse_str_bin(b: Seq<u8>, i: int, s: Seq<char>)
    requires
        0 <= i,
        i + enc_str_bin(s).len() <= b.len(),
        b.subrange(i, i + enc_str_bin(s).len()) == enc_str_bin(s),
        str_fits(s),
    ensures
        parse_str_bin(b, i) == Option::Some((s, i + enc_str_bin(s).len())),
{
    let e = vstd::utf8::encode_utf8(s);
    let n = e.len() as int;
    let l = enc_str_bin(s).len() as int;
    assert(b.subrange(i, i + 8) =~= enc_str_bin(s).subrange(0, 8));
    assert(enc_str_bin(s).subrange(0, 8) =~= be_bytes(n as u64));
    lemma_be_roundtrip(n as u64);
    assert(b.subrange(i + 8, i + 8 + n) =~= enc_str_bin(s).subrange(8, l));
    assert(enc_str_bin(s).subrange(8, l) =~= e);
    vstd::utf8::encode_utf8_valid_utf8(s);
    vstd::utf8::encode_utf8_decode_utf8(s);
}

/// The position right after the digits that start at `i`.
pub open spec fn digits_end(b: Seq<u8>, i: int) -> int
    recommends
        0 <= i <= b.len(),
    decreases b.len() - i,
{
    if 0 <= i < b.len() && is_digit(b[i]) {
        digits_end(b, i + 1)
    } else {
        i
    }
}

pub proof fn lemma_digits_end(b: Seq<u8>, i: int, j: int)
    requires
        0 <= i <= j <= b.len(),
        all_digits(b.subrange(i, j)),
        j == b.len() || !is_digit(b[j]),
    ensures
        digits_end(b, i) == j,
    decreases j - i,
{
    if i < j {
        assert(is_digit(b[i])) by {
            assert(b.subrange(i, j)[0] == b[i]);
        }
        assert(all_digits(b.subrange(i + 1, j))) by {
            assert(forall|k: int|
                0 <= k < j - i - 1 ==> #[trigger] b.subrange(i + 1, j)[k] == b.subrange(i, j)[k
                    + 1]);
        }
        lemma_digits_end(b, i + 1, j);
    }
}

/// Parses an unsigned decimal count at position `i`: at least one digit,
/// no leading zero except for "0" itself, value within 64 bits.
pub open spec fn parse_dec(b: Seq<u8>, i: int) -> Option<(int, int)> {
    let j = digits_end(b, i);
    if j == i {
        Option::None
    } else if b[i] == 48 && j != i + 1 {
        Option::None
    } else if dec_value(b.subrange(i, j)) > u64::MAX {
        Option::None
    } else {
        Option::Some((dec_value(b.subrange(i, j)), j))
    }
}

pub proof fn lemma_parse_dec(b: Seq<u8>, i: int, n: int)
    requires
        0 <= i,
        0 <= n <= u64::MAX,
        i + dec_digits(n).len() <= b.len(),
        b.subrange(i, i + dec_digits(n).len()) == dec_digits(n),
        i + dec_digits(n).len() == b.len() || !is_digit(b[i + dec_digits(n).len()]),
    ensures
        parse_dec(b, i) == Option::Some((n, i + dec_digits(n).len())),
{
    let d = dec_digits(n).len() as int;
    lemma_dec_digits_shape(n);
    assert(all_digits(b.subrange(i, i + d)));
    lemma_digits_end(b, i, i + d);
    assert(b[i] == dec_digits(n)[0]);
    if n == 0 {
        assert(dec_digits(0) =~= seq![48u8]);
        assert(d == 1);
    }
    lemma_dec_roundtrip(n);
}

/// Text string item: decimal byte count, `:`, then UTF-8 bytes.
pub open spec fn enc_str_txt(s: Seq<char>) -> Seq<u8> {
    dec_digits(vstd::utf8::encode_utf8(s).len() as int) + seq![58u8] + vstd::utf8::encode_utf8(s)
}

/// Parses a text string item at position `i`.
pub open spec fn parse_str_txt(b: Seq<u8>, i: int) -> Option<(Seq<char>, int)> {
    match parse_dec(b, i) {
        Option::Some((n, j)) => {
            if j < b.len() && b[j] == 58 && j + 1 + n <= b.len() && vstd::utf8::valid_utf8(
                b.subrange(j + 1, j + 1 + n),
            ) {
                Option::Some((vstd::utf8::decode_utf8(b.subrange(j + 1, j + 1 + n)), j + 1 + n))
            } else {
                Option::None
            }
        },
        Option::None => Option::None,
    }
}

pub proof fn lemma_parse_str_txt(b: Seq<u8>, i: int, s: Seq<char>)
    requires
        0 <= i,
        i + enc_str_txt(s).len() <= b.len(),
        b.subrange(i, i + enc_str_txt(s).len()) == enc_str_txt(s),
        str_fits(s),
    ensures
        parse_str_txt(b, i) == Option::Some((s, i + enc_str_txt(s).len())),
{
    let e = vstd::utf8::encode_utf8(s);
    let n = e.len() as int;
    let d = dec_digits(n).len() as int;
    let l = enc_str_txt(s).len() as int;
    assert(b.subrange(i, i + d) =~= enc_str_txt(s).subrange(0, d));
    assert(enc_str_txt(s).subrange(0, d) =~= dec_digits(n));
    assert(b[i + d] == enc_str_txt(s)[d]);
    assert(enc_str_txt(s)[d] == 58);
    assert(!is_digit(58));
    lemma_parse_dec(b, i, n);
    assert(b.subrange(i + d + 1, i + d + 1 + n) =~= enc_str_txt(s).subrange(d + 1, l));
    assert(enc_str_txt(s).subrange(d + 1, l) =~= e);
    vstd::utf8::encode_utf8_valid_utf8(s);
    vstd::utf8::encode_utf8_decode_utf8(s);
}

/// Binary boolean item: one byte, 1 for true and 0 for false.
pub open spec fn enc_bool_bin(x: bool) -> Seq<u8> {
    seq![
        if x {
            1u8
        } else {
            0u8
        },
    ]
}

pub open spec fn parse_bool_bin(b: Seq<u8>, i: int) -> Option<(bool, int)> {
    if 0 <= i < b.len() && (b[i] == 0 || b[i] == 1) {
        Option::Some((b[i] == 1, i + 1))
    } else {
        Option::None
    }
}

/// Text boolean item: `+` for true, `-` for false.
pub open spec fn enc_bool_txt(x: bool) -> Seq<u8> {
    seq![
        if x {
            43u8
        } else {
            45u8
        },
    ]
}

pub open spec fn parse_bool_txt(b: Seq<u8>, i: int) -> Option<(bool, int)> {
    if 0 <= i < b.len() && (b[i] == 43 || b[i] == 45) {
        Option::Some((b[i] == 43, i + 1))
    } else {
        Option::None
    }
}

/// Binary count item: 8 big-endian bytes.
pub open spec fn enc_num_bin(n: u64) -> Seq<u8> {
    be_bytes(n)
}

pub open spec fn parse_num_bin(b: Seq<u8>, i: int) -> Option<(u64, int)> {
    if 0 <= i && i + 8 <= b.len() {
        Option::Some((be_value(b.subrange(i, i + 8)), i + 8))
    } else {
        Option::None
    }
}

pub proof fn lemma_parse_num_bin(b: Seq<u8>, i: int, n: u64)
    requires
        0 <= i,
        i + 8 <= b.len(),
        b.subrange(i, i + 8) == be_bytes(n),
    ensures
        parse_num_bin(b, i) == Option::Some((n, i + 8)),
{
    lemma_be_roundtrip(n);
}

/// Text count item: decimal digits closed by `;`.
pub open spec fn enc_num_txt(n: u64) -> Seq<u8> {
    dec_digits(n as int) + seq![59u8]
}

pub open spec fn parse_num_txt(b: Seq<u8>, i: int) -> Option<(u64, int)> {
    match parse_dec(b, i) {
        Option::Some((n, j)) => {
            if j < b.len() && b[j] == 59 {
                Option::Some((n as u64, j + 1))
            } else {
                Option::None
            }
        },
        Option::None => Option::None,
    }
}

pub proof fn lemma_parse_num_txt(b: Seq<u8>, i: int, n: u64)
    requires
        0 <= i,
        i + enc_num_txt(n).len() <= b.len(),
        b.subrange(i, i + enc_num_txt(n).len()) == enc_num_txt(n),
    ensures
        parse_num_txt(b, i) == Option::Some((n, i + enc_num_txt(n).len())),
{
    let d = dec_digits(n as int).len() as int;
    assert(b.subrange(i, i + d) =~= enc_num_txt(n).subrange(0, d));
    assert(enc_num_txt(n).subrange(0, d) =~= dec_digits(n as int));
    assert(b[i + d] == enc_num_txt(n)[d]);
    assert(enc_num_txt(n)[d] == 59);
    assert(!is_digit(59));
    lemma_parse_dec(b, i, n as int);
}

// ---------------------------------------------------------------------
// The two codecs, selected at construction time.
// ---------------------------------------------------------------------
/// The codec of a framed channel: fixed per connection at construction.
#[derive(Clone, Copy, Debug, PartialEq, Eq, Structural)]
pub enum Codec {
    Text,
    Binary,
}

/// A string item under either codec.
pub open spec fn enc_str_c(c: Codec, s: Seq<char>) -> Seq<u8> {
    match c {
        Codec::Binary => enc_str_bin(s),
        Codec::Text => enc_str_txt(s),
    }
}

pub open spec fn parse_str_c(c: Codec, b: Seq<u8>, i: int) -> Option<(Seq<char>, int)> {
    match c {
        Codec::Binary => parse_str_bin(b, i),
        Codec::Text => parse_str_txt(b, i),
    }
}

pub proof fn lemma_parse_str_c(c: Codec, b: Seq<u8>, i: int, s: Seq<char>)
    requires
        0 <= i,
        i + enc_str_c(c, s).len() <= b.len(),
        b.subrange(i, i + enc_str_c(c, s).len()) == enc_str_c(c, s),
        str_fits(s),
    ensures
        parse_str_c(c, b, i) == Option::Some((s, i + enc_str_c(c, s).len())),
{
    match c {
        Codec::Binary => lemma_parse_str_bin(b, i, s),
        Codec::Text => lemma_parse_str_txt(b, i, s),
    }
}

/// A boolean item under either codec.
pub open spec fn enc_bool_c(c: Codec, x: bool) -> Seq<u8> {
    match c {
        Codec::Binary => enc_bool_bin(x),
        Codec::Text => enc_bool_txt(x),
    }
}

pub open spec fn parse_bool_c(c: Codec, b: Seq<u8>, i: int) -> Option<(bool, int)> {
    match c {
        Codec::Binary => parse_bool_bin(b, i),
        Codec::Text => parse_bool_txt(b, i),
    }
}

pub proof fn lemma_parse_bool_c(c: Codec, b: Seq<u8>, i: int, x: bool)
    requires
        0 <= i,
        i + 1 <= b.len(),
        b.subrange(i, i + 1) == enc_bool_c(c, x),
    ensures
        parse_bool_c(c, b, i) == Option::Some((x, i + 1)),
{
    assert(b[i] == enc_bool_c(c, x)[0]) by {
        assert(b.subrange(i, i + 1)[0] == b[i]);
    }
}

/// A count item under either codec.
pub open spec fn enc_num_c(c: Codec, n: u64) -> Seq<u8> {
    match c {
        Codec::Binary => enc_num_bin(n),
        Codec::Text => enc_num_txt(n),
    }
}

pub open spec fn parse_num_c(c: Codec, b: Seq<u8>, i: int) -> Option<(u64, int)> {
    match c {
        Codec::Binary => parse_num_bin(b, i),
        Codec::Text => parse_num_txt(b, i),
    }
}

pub proof fn lemma_parse_num_c(c: Codec, b: Seq<u8>, i: int, n: u64)
    requires
        0 <= i,
        i + enc_num_c(c, n).len() <= b.len(),
        b.subrange(i, i + enc_num_c(c, n).len()) == enc_num_c(c, n),
    ensures
        parse_num_c(c, b, i) == Option::Some((n, i + enc_num_c(c, n).len())),
{
    match c {
        Codec::Binary => lemma_parse_num_bin(b, i, n),
        Codec::Text => lemma_parse_num_txt(b, i, n),
    }
}

/// The presence flag of an optional field.
pub open spec fn flag_yes(c: Codec) -> u8 {
    match c {
        Codec::Binary => 1,
        Codec::Text => 43,
    }
}

pub open spec fn flag_no(c: Codec) -> u8 {
    match c {
        Codec::Binary => 0,
        Codec::Text => 45,
    }
}

/// An optional string item: a presence flag, then the string if present.
pub open spec fn enc_opt_str_c(c: Codec, o: Option<Seq<char>>) -> Seq<u8> {
    match o {
        Option::None => seq![flag_no(c)],
        Option::Some(s) => seq![flag_yes(c)] + enc_str_c(c, s),
    }
}

pub open spec fn parse_opt_str_c(c: Codec, b: Seq<u8>, i: int) -> Option<
    (Option<Seq<char>>, int),
> {
    if 0 <= i < b.len() {
        if b[i] == flag_no(c) {
            Option::Some((Option::None, i + 1))
        } else if b[i] == flag_yes(c) {
            match parse_str_c(c, b, i + 1) {
                Option::Some((s, j)) => Option::Some((Option::Some(s), j)),
                Option::None => Option::None,
            }
        } else {
            Option::None
        }
    } else {
        Option::None
    }
}

pub proof fn lemma_parse_opt_str_c(c: Codec, b: Seq<u8>, i: int, o: Option<Seq<char>>)
    requires
        0 <= i,
        i + enc_opt_str_c(c, o).len() <= b.len(),
        b.subrange(i, i + enc_opt_str_c(c, o).len()) == enc_opt_str_c(c, o),
        o matches Option::Some(s) ==> str_fits(s),
    ensures
        parse_opt_str_c(c, b, i) == Option::Some((o, i + enc_opt_str_c(c, o).len())),
{
    let l = enc_opt_str_c(c, o).len() as int;
    assert(b[i] == enc_opt_str_c(c, o)[0]) by {
        assert(b.subrange(i, i + l)[0] == b[i]);
    }
    match o {
        Option::None => {
        },
        Option::Some(s) => {
            assert(b.subrange(i + 1, i + 1 + enc_str_c(c, s).len()) =~= enc_opt_str_c(
                c,
                o,
            ).subrange(1, l));
            assert(enc_opt_str_c(c, o).subrange(1, l) =~= enc_str_c(c, s));
            lemma_parse_str_c(c, b, i + 1, s);
        },
    }
}

/// An optional count item: a presence flag, then the count if present.
pub open spec fn enc_opt_num_c(c: Codec, o: Option<u64>) -> Seq<u8> {
    match o {
        Option::None => seq![flag_no(c)],
        Option::Some(n) => seq![flag_yes(c)] + enc_num_c(c, n),
    }
}

pub open spec fn parse_opt_num_c(c: Codec, b: Seq<u8>, i: int) -> Option<(Option<u64>, int)> {
    if 0 <= i < b.len() {
        if b[i] == flag_no(c) {
            Option::Some((Option::None, i + 1))
        } else if b[i] == flag_yes(c) {
            match parse_num_c(c, b, i + 1) {
                Option::Some((n, j)) => Option::Some((Option::Some(n), j)),
                Option::None => Option::None,
            }
        } else {
            Option::None
        }
    } else {
        Option::None
    }
}

pub proof fn lemma_parse_opt_num_c(c: Codec, b: Seq<u8>, i: int, o: Option<u64>)
    requires
        0 <= i,
        i + enc_opt_num_c(c, o).len() <= b.len(),
        b.subrange(i, i + enc_opt_num_c(c, o).len()) == enc_opt_num_c(c, o),
    ensures
        parse_opt_num_c(c, b, i) == Option::Some((o, i + enc_opt_num_c(c, o).len())),
{
    let l = enc_opt_num_c(c, o).len() as int;
    assert(b[i] == enc_opt_num_c(c, o)[0]) by {
        assert(b.subrange(i, i + l)[0] == b[i]);
    }
    match o {
        Option::None => {
        },
        Option::Some(n) => {
            assert(b.subrange(i + 1, i + 1 + enc_num_c(c, n).len()) =~= enc_opt_num_c(
                c,
                o,
            ).subrange(1, l));
            assert(enc_opt_num_c(c, o).subrange(1, l) =~= enc_num_c(c, n));
            lemma_parse_num_c(c, b, i + 1, n);
        },
    }
}

// ---------------------------------------------------------------------
// Messages: a tag, then the variant's fields in order, consuming the
// whole payload.
// ---------------------------------------------------------------------
pub open spec fn req_tag_get(c: Codec) -> u8 {
    match c {
        Codec::Binary => 0,
        Codec::Text => 71,
    }
}

pub open spec fn req_tag_put(c: Codec) -> u8 {
    match c {
        Codec::Binary => 1,
        Codec::Text => 83,
    }
}

pub open spec fn req_tag_stats(c: Codec) -> u8 {
    match c {
        Codec::Binary => 2,
        Codec::Text => 84,
    }
}

/// The payload bytes of a request under the codec.
pub open spec fn spec_enc_req(c: Codec, r: crate::dto::ReqModel) -> Seq<u8> {
    match r {
        crate::dto::ReqModel::Get { key } => seq![req_tag_get(c)] + enc_str_c(c, key),
        crate::dto::ReqModel::Put { key, val } => seq![req_tag_put(c)] + enc_str_c(c, key)
            + enc_str_c(c, val),
        crate::dto::ReqModel::Stats => seq![req_tag_stats(c)],
    }
}

/// The request a payload denotes under the codec, if well-formed.
pub open spec fn spec_dec_req(c: Codec, b: Seq<u8>) -> Option<crate::dto::ReqModel> {
    if b.len() == 0 {
        Option::None
    } else if b[0] == req_tag_get(c) {
        match parse_str_c(c, b, 1) {
            Option::Some((k, j)) => if j == b.len() {
                Option::Some(crate::dto::ReqModel::Get { key: k })
            } else {
                Option::None
            },
            Option::None => Option::None,
        }
    } else if b[0] == req_tag_put(c) {
        match parse_str_c(c, b, 1) {
            Option::Some((k, j)) => match parse_str_c(c, b, j) {
                Option::Some((v, j2)) => if j2 == b.len() {
                    Option::Some(crate::dto::ReqModel::Put { key: k, val: v })
                } else {
                    Option::None
                },
                Option::None => Option::None,
            },
            Option::None => Option::None,
        }
    } else if b[0] == req_tag_stats(c) {
        if b.len() == 1 {
            Option::Some(crate::dto::ReqModel::Stats)
        } else {
            Option::None
        }
    } else {
        Option::None
    }
}

/// Every string of the request fits its length field.
pub open spec fn req_fits(r: crate::dto::ReqModel) -> bool {
    match r {
        crate::dto::ReqModel::Get { key } => str_fits(key),
        crate::dto::ReqModel::Put { key, val } => str_fits(key) && str_fits(val),
        crate::dto::ReqModel::Stats => true,
    }
}

/// Round-trip: decoding an encoded request yields the request, under
/// either codec.
pub proof fn lemma_req_roundtrip(c: Codec, r: crate::dto::ReqModel)
    requires
        req_fits(r),
    ensures
        spec_dec_req(c, spec_enc_req(c, r)) == Option::Some(r),
{
    let b = spec_enc_req(c, r);
    match r {
        crate::dto::ReqModel::Get { key } => {
            let e = enc_str_c(c, key);
            let l = e.len() as int;
            assert(b[0] == req_tag_get(c));
            assert(b.subrange(1, 1 + l) =~= e);
            lemma_parse_str_c(c, b, 1, key);
        },
        crate::dto::ReqModel::Put { key, val } => {
            let e1 = enc_str_c(c, key);
            let e2 = enc_str_c(c, val);
            let l1 = e1.len() as int;
            let l2 = e2.len() as int;
            assert(b[0] == req_tag_put(c));
            assert(b.subrange(1, 1 + l1) =~= e1);
            lemma_parse_str_c(c, b, 1, key);
            assert(b.subrange(1 + l1, 1 + l1 + l2) =~= e2);
            lemma_parse_str_c(c, b, 1 + l1, val);
        },
        crate::dto::ReqModel::Stats => {
            assert(b[0] == req_tag_stats(c));
        },
    }
}

pub open spec fn res_tag_get(c: Codec) -> u8 {
    match c {
        Codec::Binary => 0,
        Codec::Text => 71,
    }
}

pub open spec fn res_tag_put(c: Codec) -> u8 {
    match c {
        Codec::Binary => 1,
        Codec::Text => 83,
    }
}

pub open spec fn res_tag_stats(c: Codec) -> u8 {
    match c {
        Codec::Binary => 2,
        Codec::Text => 84,
    }
}

pub open spec fn res_tag_empty(c: Codec) -> u8 {
    match c {
        Codec::Binary => 3,
        Codec::Text => 69,
    }
}

/// The payload bytes of a response under the codec.
pub open spec fn spec_enc_res(c: Codec, r: crate::dto::ResModel) -> Seq<u8> {
    match r {
        crate::dto::ResModel::Get { ok, val, err } => seq![res_tag_get(c)] + enc_bool_c(c, ok)
            + enc_opt_str_c(c, val) + enc_opt_str_c(c, err),
        crate::dto::ResModel::Put { ok, err } => seq![res_tag_put(c)] + enc_bool_c(c, ok)
            + enc_opt_str_c(c, err),
        crate::dto::ResModel::Stats { ok, total, good, bad } => seq![res_tag_stats(c)]
            + enc_bool_c(c, ok) + enc_opt_num_c(c, total) + enc_opt_num_c(c, good) + enc_opt_num_c(
            c,
            bad,
        ),
        crate::dto::ResModel::Empty => seq![res_tag_empty(c)],
    }
}

/// The response a payload denotes under the codec, if well-formed.
pub open spec fn spec_dec_res(c: Codec, b: Seq<u8>) -> Option<crate::dto::ResModel> {
    if b.len() == 0 {
        Option::None
    } else if b[0] == res_tag_get(c) {
        match parse_bool_c(c, b, 1) {
            Option::Some((ok, j)) => match parse_opt_str_c(c, b, j) {
                Option::Some((val, j2)) => match parse_opt_str_c(c, b, j2) {
                    Option::Some((err, j3)) => if j3 == b.len() {
                        Option::Some(crate::dto::ResModel::Get { ok, val, err })
                    } else {
                        Option::None
                    },
                    Option::None => Option::None,
                },
                Option::None => Option::None,
            },
            Option::None => Option::None,
        }
    } else if b[0] == res_tag_put(c) {
        match parse_bool_c(c, b, 1) {
            Option::Some((ok, j)) => match parse_opt_str_c(c, b, j) {
                Option::Some((err, j2)) => if j2 == b.len() {
                    Option::Some(crate::dto::ResModel::Put { ok, err })
                } else {
                    Option::None
                },
                Option::None => Option::None,
            },
            Option::None => Option::None,
        }
    } else if b[0] == res_tag_stats(c) {
        match parse_bool_c(c, b, 1) {
            Option::Some((ok, j)) => match parse_opt_num_c(c, b, j) {
                Option::Some((total, j2)) => match parse_opt_num_c(c, b, j2) {
                    Option::Some((good, j3)) => match parse_opt_num_c(c, b, j3) {
                        Option::Some((bad, j4)) => if j4 == b.len() {
                            Option::Some(crate::dto::ResModel::Stats { ok, total, good, bad })
                        } else {
                            Option::None
                        },
                        Option::None => Option::None,
                    },
                    Option::None => Option::None,
                },
                Option::None => Option::None,
            },
            Option::None => Option::None,
        }
    } else if b[0] == res_tag_empty(c) {
        if b.len() == 1 {
            Option::Some(crate::dto::ResModel::Empty)
        } else {
            Option::None
        }
    } else {
        Option::None
    }
}

/// Every string of the response fits its length field.
pub open spec fn res_fits(r: crate::dto::ResModel) -> bool {
    match r {
        crate::dto::ResModel::Get { ok, val, err } => (val matches Option::Some(s) ==> str_fits(s))
            && (err matches Option::Some(s) ==> str_fits(s)),
        crate::dto::ResModel::Put { ok, err } => err matches Option::Some(s) ==> str_fits(s),
        crate::dto::ResModel::Stats { .. } => true,
        crate::dto::ResModel::Empty => true,
    }
}

/// Round-trip: decoding an encoded response yields the response, under
/// either codec.
#[verifier::rlimit(30)]
pub proof fn lemma_res_roundtrip(c: Codec, r: crate::dto::ResModel)
    requires
        res_fits(r),
    ensures
        spec_dec_res(c, spec_enc_res(c, r)) == Option::Some(r),
{
    let b = spec_enc_res(c, r);
    match r {
        crate::dto::ResModel::Get { ok, val, err } => {
            let ev = enc_opt_str_c(c, val);
            let ee = enc_opt_str_c(c, err);
            let lv = ev.len() as int;
            let le = ee.len() as int;
            assert(b[0] == res_tag_get(c));
            assert(b.subrange(1, 2) =~= enc_bool_c(c, ok));
            lemma_parse_bool_c(c, b, 1, ok);
            assert(b.subrange(2, 2 + lv) =~= ev);
            lemma_parse_opt_str_c(c, b, 2, val);
            assert(b.subrange(2 + lv, 2 + lv + le) =~= ee);
            lemma_parse_opt_str_c(c, b, 2 + lv, err);
        },
        crate::dto::ResModel::Put { ok, err } => {
            let ee = enc_opt_str_c(c, err);
            let le = ee.len() as int;
            assert(b[0] == res_tag_put(c));
            assert(b.subrange(1, 2) =~= enc_bool_c(c, ok));
            lemma_parse_bool_c(c, b, 1, ok);
            assert(b.subrange(2, 2 + le) =~= ee);
            lemma_parse_opt_str_c(c, b, 2, err);
        },
        crate::dto::ResModel::Stats { ok, total, good, bad } => {
            let et = enc_opt_num_c(c, total);
            let eg = enc_opt_num_c(c, good);
            let eb = enc_opt_num_c(c, bad);
            let lt = et.len() as int;
            let lg = eg.len() as int;
            let lb = eb.len() as int;
            assert(b[0] == res_tag_stats(c));
            assert(b.subrange(1, 2) =~= enc_bool_c(c, ok));
            lemma_parse_bool_c(c, b, 1, ok);
            assert(b.subrange(2, 2 + lt) =~= et);
            lemma_parse_opt_num_c(c, b, 2, total);
            assert(b.subrange(2 + lt, 2 + lt + lg) =~= eg);
            lemma_parse_opt_num_c(c, b, 2 + lt, good);
            assert(b.subrange(2 + lt + lg, 2 + lt + lg + lb) =~= eb);
            lemma_parse_opt_num_c(c, b, 2 + lt + lg, bad);
        },
        crate::dto::ResModel::Empty => {
            assert(b[0] == res_tag_empty(c));
        },
    }
}

// ---------------------------------------------------------------------
// Executable encoders, proved to emit exactly the specified bytes.
// ---------------------------------------------------------------------
/// Relies on `String::from_utf8`: succeeds exactly on valid UTF-8 and
/// decodes those bytes, as vstd's UTF-8 theory states it.
#[verifier::external_body]
fn string_from_utf8(v: Vec<u8>) -> (r: Option<String>)
    ensures
        match r {
            Option::Some(s) => vstd::utf8::valid_utf8(v@) && s@ == vstd::utf8::decode_utf8(v@),
            Option::None => !vstd::utf8::valid_utf8(v@),
        },
{
    String::from_utf8(v).ok()
}

pub(crate) fn push_bytes(out: &mut Vec<u8>, b: &[u8])
    ensures
        final(out)@ == old(out)@ + b@,
{
    let n = b.len();
    let mut i: usize = 0;
    while i < n
        invariant
            n == b@.len(),
            0 <= i <= n,
            out@ == old(out)@ + b@.subrange(0, i as int),
        decreases n - i,
    {
        out.push(b[i]);
        proof {
            assert(old(out)@ + b@.subrange(0, i + 1) =~= (old(out)@ + b@.subrange(0, i as int)).push(
                b@[i as int],
            ));
        }
        i += 1;
    }
    proof {
        assert(b@.subrange(0, n as int) =~= b@);
    }
}

fn push_be(out: &mut Vec<u8>, n: u64)
    ensures
        final(out)@ == old(out)@ + be_bytes(n),
{
    out.push((n >> 56) as u8);
    out.push((n >> 48) as u8);
    out.push((n >> 40) as u8);
    out.push((n >> 32) as u8);
    out.push((n >> 24) as u8);
    out.push((n >> 16) as u8);
    out.push((n >> 8) as u8);
    out.push(n as u8);
    proof {
        assert(out@ =~= old(out)@ + be_bytes(n));
    }
}

fn push_dec(out: &mut Vec<u8>, n: u64)
    ensures
        final(out)@ == old(out)@ + dec_digits(n as int),
    decreases n,
{
    if n < 10 {
        out.push(48 + n as u8);
        proof {
            assert(out@ =~= old(out)@ + dec_digits(n as int));
        }
    } else {
        push_dec(out, n / 10);
        out.push(48 + (n % 10) as u8);
        proof {
            assert(out@ =~= old(out)@ + dec_digits(n as int));
        }
    }
}

fn push_str_item(c: Codec, out: &mut Vec<u8>, s: &String)
    ensures
        final(out)@ == old(out)@ + enc_str_c(c, s@),
{
    let bytes = s.as_str().as_bytes();
    match c {
        Codec::Binary => {
            push_be(out, bytes.len() as u64);
            push_bytes(out, bytes);
            proof {
                assert(out@ =~= old(out)@ + enc_str_bin(s@));
            }
        },
        Codec::Text => {
            push_dec(out, bytes.len() as u64);
            out.push(58);
            push_bytes(out, bytes);
            proof {
                assert(out@ =~= old(out)@ + enc_str_txt(s@));
            }
        },
    }
}

fn push_bool_item(c: Codec, out: &mut Vec<u8>, x: bool)
    ensures
        final(out)@ == old(out)@ + enc_bool_c(c, x),
{
    let flag: u8 = match c {
        Codec::Binary => if x {
            1
        } else {
            0
        },
        Codec::Text => if x {
            43
        } else {
            45
        },
    };
    out.push(flag);
    proof {
        assert(out@ =~= old(out)@ + enc_bool_c(c, x));
    }
}

fn push_num_item(c: Codec, out: &mut Vec<u8>, n: u64)
    ensures
        final(out)@ == old(out)@ + enc_num_c(c, n),
{
    match c {
        Codec::Binary => push_be(out, n),
        Codec::Text => {
            push_dec(out, n);
            out.push(59);
            proof {
                assert(out@ =~= old(out)@ + enc_num_txt(n));
            }
        },
    }
}

fn push_opt_str_item(c: Codec, out: &mut Vec<u8>, o: &Option<String>)
    ensures
        final(out)@ == old(out)@ + enc_opt_str_c(c, crate::dto::opt_view(*o)),
{
    match o {
        Option::None => {
            let flag: u8 = match c {
                Codec::Binary => 0,
                Codec::Text => 45,
            };
            out.push(flag);
            proof {
                assert(out@ =~= old(out)@ + enc_opt_str_c(c, crate::dto::opt_view(*o)));
            }
        },
        Option::Some(s) => {
            let flag: u8 = match c {
                Codec::Binary => 1,
                Codec::Text => 43,
            };
            out.push(flag);
            push_str_item(c, out, s);
            proof {
                assert(out@ =~= old(out)@ + enc_opt_str_c(c, crate::dto::opt_view(*o)));
            }
        },
    }
}

fn push_opt_num_item(c: Codec, out: &mut Vec<u8>, o: &Option<u64>)
    ensures
        final(out)@ == old(out)@ + enc_opt_num_c(c, *o),
{
    match o {
        Option::None => {
            let flag: u8 = match c {
                Codec::Binary => 0,
                Codec::Text => 45,
            };
            out.push(flag);
            proof {
                assert(out@ =~= old(out)@ + enc_opt_num_c(c, *o));
            }
        },
        Option::Some(n) => {
            let flag: u8 = match c {
                Codec::Binary => 1,
                Codec::Text => 43,
            };
            out.push(flag);
            push_num_item(c, out, *n);
            proof {
                assert(out@ =~= old(out)@ + enc_opt_num_c(c, *o));
            }
        },
    }
}

/// Serializes a request into one frame's payload bytes under the codec.
pub fn encode_request(c: Codec, r: &Request) -> (out: Vec<u8>)
    ensures
        out@ == spec_enc_req(c, r@),
{
    let mut out: Vec<u8> = Vec::new();
    match r {
        Request::Get { key } => {
            let tag: u8 = match c {
                Codec::Binary => 0,
                Codec::Text => 71,
            };
            out.push(tag);
            push_str_item(c, &mut out, key);
        },
        Request::Put { key, val } => {
            let tag: u8 = match c {
                Codec::Binary => 1,
                Codec::Text => 83,
            };
            out.push(tag);
            push_str_item(c, &mut out, key);
            push_str_item(c, &mut out, val);
        },
        Request::Stats => {
            let tag: u8 = match c {
                Codec::Binary => 2,
                Codec::Text => 84,
            };
            out.push(tag);
        },
    }
    proof {
        assert(out@ =~= spec_enc_req(c, r@));
    }
    out
}

/// Serializes a response into one frame's payload bytes under the codec.
pub fn encode_response(c: Codec, r: &Response) -> (out: Vec<u8>)
    ensures
        out@ == spec_enc_res(c, r@),
{
    let mut out: Vec<u8> = Vec::new();
    match r {
        Response::Get { ok, val, err } => {
            let tag: u8 = match c {
                Codec::Binary => 0,
                Codec::Text => 71,
            };
            out.push(tag);
            push_bool_item(c, &mut out, *ok);
            push_opt_str_item(c, &mut out, val);
            push_opt_str_item(c, &mut out, err);
        },
        Response::Put { ok, err } => {
            let tag: u8 = match c {
                Codec::Binary => 1,
                Codec::Text => 83,
            };
            out.push(tag);
            push_bool_item(c, &mut out, *ok);
            push_opt_str_item(c, &mut out, err);
        },
        Response::Stats { ok, total, good, bad } => {
            let tag: u8 = match c {
                Codec::Binary => 2,
                Codec::Text => 84,
            };
            out.push(tag);
            push_bool_item(c, &mut out, *ok);
            push_opt_num_item(c, &mut out, total);
            push_opt_num_item(c, &mut out, good);
            push_opt_num_item(c, &mut out, bad);
        },
        Response::Empty => {
            let tag: u8 = match c {
                Codec::Binary => 3,
                Codec::Text => 69,
            };
            out.push(tag);
        },
    }
    proof {
        assert(out@ =~= spec_enc_res(c, r@));
    }
    out
}

// ---------------------------------------------------------------------
// Executable decoders, proved to follow the specification parsers.
// ---------------------------------------------------------------------
fn read_be(b: &Vec<u8>, i: usize) -> (n: u64)
    requires
        i + 8 <= b@.len(),
    ensures
        n == be_value(b@.subrange(i as int, i as int + 8)),
{
    let end = b.len();
    assert(i + 8 <= end);
    let n = ((b[i] as u64) << 56) | ((b[i + 1] as u64) << 48) | ((b[i + 2] as u64) << 40) | ((b[i
        + 3] as u64) << 32) | ((b[i + 4] as u64) << 24) | ((b[i + 5] as u64) << 16) | ((b[i
        + 6] as u64) << 8) | (b[i + 7] as u64);
    proof {
        let s = b@.subrange(i as int, i as int + 8);
        assert(s[0] == b@[i as int]);
        assert(s[1] == b@[i as int + 1]);
        assert(s[2] == b@[i as int + 2]);
        assert(s[3] == b@[i as int + 3]);
        assert(s[4] == b@[i as int + 4]);
        assert(s[5] == b@[i as int + 5]);
        assert(s[6] == b@[i as int + 6]);
        assert(s[7] == b@[i as int + 7]);
    }
    n
}

pub(crate) fn copy_range(b: &Vec<u8>, i: usize, n: usize) -> (v: Vec<u8>)
    requires
        i + n <= b@.len(),
    ensures
        v@ == b@.subrange(i as int, i as int + n as int),
{
    let end = b.len();
    let mut v: Vec<u8> = Vec::new();
    let mut k: usize = 0;
    while k < n
        invariant
            i + n <= b@.len(),
            end == b@.len(),
            0 <= k <= n,
            v@ == b@.subrange(i as int, i as int + k as int),
        decreases n - k,
    {
        v.push(b[i + k]);
        proof {
            assert(b@.subrange(i as int, i as int + k + 1) =~= b@.subrange(
                i as int,
                i as int + k as int,
            ).push(b@[i as int + k as int]));
        }
        k += 1;
    }
    v
}

fn parse_dec_exec(b: &Vec<u8>, i: usize) -> (r: Option<(u64, usize)>)
    requires
        i <= b@.len(),
    ensures
        match r {
            Option::Some(p) => parse_dec(b@, i as int) == Option::Some((p.0 as int, p.1 as int))
                && i <= p.1 <= b@.len(),
            Option::None => parse_dec(b@, i as int) is None,
        },
{
    let n = b.len();
    let mut j: usize = i;
    while j < n && 48 <= b[j] && b[j] <= 57
        invariant
            i <= j <= n,
            n == b@.len(),
            all_digits(b@.subrange(i as int, j as int)),
        decreases n - j,
    {
        proof {
            assert(b@.subrange(i as int, j + 1) =~= b@.subrange(i as int, j as int).push(
                b@[j as int],
            ));
        }
        j += 1;
    }
    proof {
        lemma_digits_end(b@, i as int, j as int);
    }
    if j == i {
        return Option::None;
    }
    if b[i] == 48 && j != i + 1 {
        return Option::None;
    }
    let count = j - i;
    if count > 20 {
        proof {
            let s = b@.subrange(i as int, j as int);
            assert(s[0] == b@[i as int]);
            lemma_dec_value_lower(s);
            lemma_pow10_mono(20, count - 1);
            lemma_pow10_20();
        }
        return Option::None;
    }
    let mut acc: u128 = 0;
    let mut k: usize = i;
    while k < j
        invariant
            i <= k <= j <= n,
            n == b@.len(),
            j - i <= 20,
            all_digits(b@.subrange(i as int, j as int)),
            acc == dec_value(b@.subrange(i as int, k as int)),
            acc < pow10(k as int - i as int),
        decreases j - k,
    {
        let d = b[k];
        proof {
            assert(is_digit(b@[k as int])) by {
                assert(b@.subrange(i as int, j as int)[k - i] == b@[k as int]);
            }
            lemma_pow10_mono(k as int - i as int, 19);
            lemma_pow10_20();
            assert(b@.subrange(i as int, k + 1).drop_last() =~= b@.subrange(i as int, k as int));
            assert(b@.subrange(i as int, k + 1).last() == b@[k as int]);
            assert(all_digits(b@.subrange(i as int, k + 1))) by {
                assert(forall|m: int|
                    0 <= m < k + 1 - i ==> #[trigger] b@.subrange(i as int, k + 1)[m]
                        == b@.subrange(i as int, j as int)[m]);
            }
            lemma_dec_value_upper(b@.subrange(i as int, k + 1));
        }
        acc = acc * 10 + ((d - 48) as u128);
        k += 1;
    }
    proof {
        lemma_pow10_mono(j as int - i as int, 20);
        lemma_pow10_20();
    }
    if acc > (u64::MAX as u128) {
        return Option::None;
    }
    Option::Some((acc as u64, j))
}

fn read_str_item(c: Codec, b: &Vec<u8>, i: usize) -> (r: Option<(String, usize)>)
    requires
        i <= b@.len(),
    ensures
        match r {
            Option::Some(p) => parse_str_c(c, b@, i as int) == Option::Some((p.0@, p.1 as int))
                && i <= p.1 <= b@.len(),
            Option::None => parse_str_c(c, b@, i as int) is None,
        },
{
    let n = b.len();
    match c {
        Codec::Binary => {
            if n - i < 8 {
                return Option::None;
            }
            let len64 = read_be(b, i);
            let avail = n - i - 8;
            if len64 > avail as u64 {
                return Option::None;
            }
            let m = len64 as usize;
            let v = copy_range(b, i + 8, m);
            match string_from_utf8(v) {
                Option::Some(s) => Option::Some((s, i + 8 + m)),
                Option::None => Option::None,
            }
        },
        Codec::Text => {
            match parse_dec_exec(b, i) {
                Option::Some((len64, j)) => {
                    if j < n && b[j] == 58 {
                        let avail = n - j - 1;
                        if len64 > avail as u64 {
                            return Option::None;
                        }
                        let m = len64 as usize;
                        let v = copy_range(b, j + 1, m);
                        match string_from_utf8(v) {
                            Option::Some(s) => Option::Some((s, j + 1 + m)),
                            Option::None => Option::None,
                        }
                    } else {
                        Option::None
                    }
                },
                Option::None => Option::None,
            }
        },
    }
}

fn read_bool_item(c: Codec, b: &Vec<u8>, i: usize) -> (r: Option<(bool, usize)>)
    requires
        i <= b@.len(),
    ensures
        match r {
            Option::Some(p) => parse_bool_c(c, b@, i as int) == Option::Some((p.0, p.1 as int))
                && i < p.1 <= b@.len(),
            Option::None => parse_bool_c(c, b@, i as int) is None,
        },
{
    if i >= b.len() {
        return Option::None;
    }
    let d = b[i];
    match c {
        Codec::Binary => {
            if d == 1 {
                Option::Some((true, i + 1))
            } else if d == 0 {
                Option::Some((false, i + 1))
            } else {
                Option::None
            }
        },
        Codec::Text => {
            if d == 43 {
                Option::Some((true, i + 1))
            } else if d == 45 {
                Option::Some((false, i + 1))
            } else {
                Option::None
            }
        },
    }
}

fn read_num_item(c: Codec, b: &Vec<u8>, i: usize) -> (r: Option<(u64, usize)>)
    requires
        i <= b@.len(),
    ensures
        match r {
            Option::Some(p) => parse_num_c(c, b@, i as int) == Option::Some((p.0, p.1 as int))
                && i <= p.1 <= b@.len(),
            Option::None => parse_num_c(c, b@, i as int) is None,
        },
{
    let n = b.len();
    match c {
        Codec::Binary => {
            if n - i < 8 {
                return Option::None;
            }
            Option::Some((read_be(b, i), i + 8))
        },
        Codec::Text => {
            match parse_dec_exec(b, i) {
                Option::Some((v, j)) => {
                    if j < n && b[j] == 59 {
                        Option::Some((v, j + 1))
                    } else {
                        Option::None
                    }
                },
                Option::None => Option::None,
            }
        },
    }
}

fn read_opt_str_item(c: Codec, b: &Vec<u8>, i: usize) -> (r: Option<(Option<String>, usize)>)
    requires
        i <= b@.len(),
    ensures
        match r {
            Option::Some(p) => parse_opt_str_c(c, b@, i as int) == Option::Some(
                (crate::dto::opt_view(p.0), p.1 as int),
            ) && i <= p.1 <= b@.len(),
            Option::None => parse_opt_str_c(c, b@, i as int) is None,
        },
{
    if i >= b.len() {
        return Option::None;
    }
    let d = b[i];
    let yes: u8 = match c {
        Codec::Binary => 1,
        Codec::Text => 43,
    };
    let no: u8 = match c {
        Codec::Binary => 0,
        Codec::Text => 45,
    };
    if d == no {
        Option::Some((Option::None, i + 1))
    } else if d == yes {
        match read_str_item(c, b, i + 1) {
            Option::Some((s, j)) => Option::Some((Option::Some(s), j)),
            Option::None => Option::None,
        }
    } else {
        Option::None
    }
}

fn read_opt_num_item(c: Codec, b: &Vec<u8>, i: usize) -> (r: Option<(Option<u64>, usize)>)
    requires
        i <= b@.len(),
    ensures
        match r {
            Option::Some(p) => parse_opt_num_c(c, b@, i as int) == Option::Some(
                (p.0, p.1 as int),
            ) && i <= p.1 <= b@.len(),
            Option::None => parse_opt_num_c(c, b@, i as int) is None,
        },
{
    if i >= b.len() {
        return Option::None;
    }
    let d = b[i];
    let yes: u8 = match c {
        Codec::Binary => 1,
        Codec::Text => 43,
    };
    let no: u8 = match c {
        Codec::Binary => 0,
        Codec::Text => 45,
    };
    if d == no {
        Option::Some((Option::None, i + 1))
    } else if d == yes {
        match read_num_item(c, b, i + 1) {
            Option::Some((v, j)) => Option::Some((Option::Some(v), j)),
            Option::None => Option::None,
        }
    } else {
        Option::None
    }
}

/// Deserializes one frame's payload bytes into a request, rejecting a
/// payload exactly when the specification parser does.
pub fn decode_request(c: Codec, b: &Vec<u8>) -> (r: Option<Request>)
    ensures
        match r {
            Option::Some(req) => spec_dec_req(c, b@) == Option::Some(req@),
            Option::None => spec_dec_req(c, b@) is None,
        },
{
    if b.len() == 0 {
        return Option::None;
    }
    let t = b[0];
    let tag_get: u8 = match c {
        Codec::Binary => 0,
        Codec::Text => 71,
    };
    let tag_put: u8 = match c {
        Codec::Binary => 1,
        Codec::Text => 83,
    };
    let tag_stats: u8 = match c {
        Codec::Binary => 2,
        Codec::Text => 84,
    };
    if t == tag_get {
        match read_str_item(c, b, 1) {
            Option::Some((key, j)) => {
                if j == b.len() {
                    Option::Some(Request::Get { key })
                } else {
                    Option::None
                }
            },
            Option::None => Option::None,
        }
    } else if t == tag_put {
        match read_str_item(c, b, 1) {
            Option::Some((key, j)) => {
                match read_str_item(c, b, j) {
                    Option::Some((val, j2)) => {
                        if j2 == b.len() {
                            Option::Some(Request::Put { key, val })
                        } else {
                            Option::None
                        }
                    },
                    Option::None => Option::None,
                }
            },
            Option::None => Option::None,
        }
    } else if t == tag_stats {
        if b.len() == 1 {
            Option::Some(Request::Stats)
        } else {
            Option::None
        }
    } else {
        Option::None
    }
}

/// Deserializes one frame's payload bytes into a response, rejecting a
/// payload exactly when the specification parser does.
pub fn decode_response(c: Codec, b: &Vec<u8>) -> (r: Option<Response>)
    ensures
        match r {
            Option::Some(res) => spec_dec_res(c, b@) == Option::Some(res@),
            Option::None => spec_dec_res(c, b@) is None,
        },
{
    if b.len() == 0 {
        return Option::None;
    }
    let t = b[0];
    let tag_get: u8 = match c {
        Codec::Binary => 0,
        Codec::Text => 71,
    };
    let tag_put: u8 = match c {
        Codec::Binary => 1,
        Codec::Text => 83,
    };
    let tag_stats: u8 = match c {
        Codec::Binary => 2,
        Codec::Text => 84,
    };
    let tag_empty: u8 = match c {
        Codec::Binary => 3,
        Codec::Text => 69,
    };
    if t == tag_get {
        match read_bool_item(c, b, 1) {
            Option::Some((ok, j)) => {
                match read_opt_str_item(c, b, j) {
                    Option::Some((val, j2)) => {
                        match read_opt_str_item(c, b, j2) {
                            Option::Some((err, j3)) => {
                                if j3 == b.len() {
                                    Option::Some(Response::Get { ok, val, err })
                                } else {
                                    Option::None
                                }
                            },
                            Option::None => Option::None,
                        }
                    },
                    Option::None => Option::None,
                }
            },
            Option::None => Option::None,
        }
    } else if t == tag_put {
        match read_bool_item(c, b, 1) {
            Option::Some((ok, j)) => {
                match read_opt_str_item(c, b, j) {
                    Option::Some((err, j2)) => {
                        if j2 == b.len() {
                            Option::Some(Response::Put { ok, err })
                        } else {
                            Option::None
                        }
                    },
                    Option::None => Option::None,
                }
            },
            Option::None => Option::None,
        }
    } else if t == tag_stats {
        match read_bool_item(c, b, 1) {
            Option::Some((ok, j)) => {
                match read_opt_num_item(c, b, j) {
                    Option::Some((total, j2)) => {
                        match read_opt_num_item(c, b, j2) {
                            Option::Some((good, j3)) => {
                                match read_opt_num_item(c, b, j3) {
                                    Option::Some((bad, j4)) => {
                                        if j4 == b.len() {
                                            Option::Some(
                                                Response::Stats { ok, total, good, bad },
                                            )
                                        } else {
                                            Option::None
                                        }
                                    },
                                    Option::None => Option::None,
                                }
                            },
                            Option::None => Option::None,
                        }
                    },
                    Option::None => Option::None,
                }
            },
            Option::None => Option::None,
        }
    } else if t == tag_empty {
        if b.len() == 1 {
            Option::Some(Response::Empty)
        } else {
            Option::None
        }
    } else {
        Option::None
    }
}

} // verus!
