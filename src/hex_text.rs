//! Hexadecimal text: the `0x` prefix, hex strings of bytes, and hex numbers.
use vstd::prelude::*;
use vstd::string::*;
use vstd::utf8::*;

verus! {

broadcast use vstd::utf8::group_utf8_lib;

/// The value of one hex digit, in either case.
pub open spec fn hex_digit_value(c: u8) -> Option<nat> {
    if 48 <= c <= 57 {
        Some((c - 48) as nat)
    } else if 97 <= c <= 102 {
        Some((c - 87) as nat)
    } else if 65 <= c <= 70 {
        Some((c - 55) as nat)
    } else {
        None
    }
}

/// Text that decodes to bytes: an even number of hex digits.
pub open spec fn is_hex_text(s: Seq<u8>) -> bool {
    &&& s.len() % 2 == 0
    &&& forall|i: int| 0 <= i < s.len() ==> (#[trigger] hex_digit_value(s[i])) is Some
}

/// The bytes that hex text stands for, two digits a byte, high digit first.
pub open spec fn hex_decoded(s: Seq<u8>) -> Seq<u8> {
    Seq::new(
        s.len() / 2,
        |i: int|
            (16 * hex_digit_value(s[2 * i]).unwrap() + hex_digit_value(s[2 * i + 1]).unwrap()) as u8,
    )
}

/// The lower-case digit for a value below 16.
pub open spec fn hex_char(d: nat) -> char {
    if d < 10 {
        ((48 + d) as u8) as char
    } else {
        ((87 + d) as u8) as char
    }
}

/// Bytes written as lower-case hex, two digits a byte.
pub open spec fn hex_encoded(b: Seq<u8>) -> Seq<char> {
    Seq::new(
        2 * b.len(),
        |i: int|
            if i % 2 == 0 {
                hex_char((b[i / 2] / 16) as nat)
            } else {
                hex_char((b[i / 2] % 16) as nat)
            },
    )
}

/// A number in lower-case hex, without leading zeros ("0" for zero).
pub open spec fn lower_hex_digits(n: nat) -> Seq<char>
    decreases n,
{
    if n < 16 {
        seq![hex_char(n)]
    } else {
        lower_hex_digits(n / 16).push(hex_char(n % 16))
    }
}

/// The value of a string of hex digits, most significant first.
pub open spec fn hex_value(s: Seq<u8>) -> nat
    decreases s.len(),
{
    if s.len() == 0 {
        0
    } else {
        16 * hex_value(s.drop_last()) + hex_digit_value(s.last()).unwrap_or(0)
    }
}

/// What `u64::from_str_radix(_, 16)` accepts: an optional `+`, then at least one
/// hex digit, and a value that fits.
pub open spec fn is_u64_hex(s: Seq<u8>) -> bool {
    let digits = if s.len() > 0 && s[0] == 43 { s.drop_first() } else { s };
    &&& digits.len() > 0
    &&& forall|i: int| 0 <= i < digits.len() ==> (#[trigger] hex_digit_value(digits[i])) is Some
    &&& hex_value(digits) <= u64::MAX
}

/// The value that `is_u64_hex` text stands for.
pub open spec fn u64_hex_value(s: Seq<u8>) -> nat {
    if s.len() > 0 && s[0] == 43 {
        hex_value(s.drop_first())
    } else {
        hex_value(s)
    }
}

/// Whether bytes start with `0x` or `0X`.
pub open spec fn has_0x_prefix(b: Seq<u8>) -> bool {
    b.len() >= 2 && b[0] == 48 && (b[1] == 120 || b[1] == 88)
}

/// Whether bytes start with a lower-case `0x`.
pub open spec fn has_lower_0x_prefix(b: Seq<u8>) -> bool {
    b.len() >= 2 && b[0] == 48 && b[1] == 120
}

/// Bytes with every leading lower-case `0x` taken off.
pub open spec fn without_lower_0x(b: Seq<u8>) -> Seq<u8>
    decreases b.len(),
{
    if has_lower_0x_prefix(b) {
        without_lower_0x(b.subrange(2, b.len() as int))
    } else {
        b
    }
}

/// Relies on hex::decode: even length and hex digits of either case, each pair one byte.
#[verifier::external_body]
pub(crate) fn decode_hex(text: &[u8]) -> (r: Result<Vec<u8>, hex::FromHexError>)
    ensures
        r is Ok <==> is_hex_text(text@),
        r is Ok ==> r->Ok_0@ == hex_decoded(text@),
{
    hex::decode(text)
}

/// Relies on hex::encode: two lower-case digits for each byte.
#[verifier::external_body]
pub(crate) fn encode_hex(bytes: &[u8]) -> (r: String)
    ensures
        r@ == hex_encoded(bytes@),
{
    hex::encode(bytes)
}

/// Relies on std's `{:x}` formatting of a `u64`: lower-case digits, no leading zeros.
#[verifier::external_body]
fn format_lower_hex(n: u64) -> (r: String)
    ensures
        r@ == lower_hex_digits(n as nat),
{
    format!("{:x}", n)
}

/// Relies on `u64::from_str_radix` in base 16, whose documentation gives the
/// accepted text: an optional `+` and digits, no whitespace, a value that fits.
#[verifier::external_body]
fn u64_from_hex(text: &str) -> (r: Result<u64, core::num::ParseIntError>)
    ensures
        r is Ok <==> is_u64_hex(text.spec_bytes()),
        r is Ok ==> r->Ok_0 as nat == u64_hex_value(text.spec_bytes()),
{
    u64::from_str_radix(text, 16)
}

proof fn lemma_boundary_after_two_ascii(b: Seq<u8>)
    requires
        valid_utf8(b),
        b.len() >= 2,
        b[0] < 128,
        b[1] < 128,
    ensures
        is_char_boundary(b, 2),
{
    let t1 = pop_first_scalar(b);
    assert(length_of_first_scalar(b) == 1);
    assert(valid_utf8(t1));
    assert(t1[0] == b[1]);
    assert(length_of_first_scalar(t1) == 1);
    let t2 = pop_first_scalar(t1);
    assert(valid_utf8(t2));
    assert(is_char_boundary(t2, 0));
    assert(is_char_boundary(t1, 1));
}

/// A position after ASCII bytes only is a character boundary.
pub proof fn lemma_boundary_after_ascii(b: Seq<u8>, i: int)
    requires
        valid_utf8(b),
        0 <= i <= b.len(),
        forall|k: int| 0 <= k < i ==> b[k] < 128,
    ensures
        is_char_boundary(b, i),
    decreases i,
{
    if i > 0 {
        let t = pop_first_scalar(b);
        assert(length_of_first_scalar(b) == 1);
        assert(valid_utf8(t));
        assert forall|k: int| 0 <= k < i - 1 implies t[k] < 128 by {
            assert(t[k] == b[k + 1]);
        }
        lemma_boundary_after_ascii(t, i - 1);
    }
}

/// The text after its first two bytes, where those are ASCII.
fn drop_two_ascii(s: &str) -> (r: &str)
    requires
        s.spec_bytes().len() >= 2,
        s.spec_bytes()[0] < 128,
        s.spec_bytes()[1] < 128,
    ensures
        r.spec_bytes() == s.spec_bytes().subrange(2, s.spec_bytes().len() as int),
{
    let b = s.as_bytes();
    proof {
        let sb = s.spec_bytes();
        assert(valid_utf8(sb));
        lemma_boundary_after_two_ascii(sb);
    }
    let (_head, tail) = s.split_at(2);
    tail
}

/// Takes a leading `0x` or `0X` off, where there is one.
pub fn remove_0x_prefix(hex_string: &str) -> (r: &str)
    ensures
        has_0x_prefix(hex_string.spec_bytes()) ==> r.spec_bytes() == hex_string.spec_bytes().subrange(
            2,
            hex_string.spec_bytes().len() as int,
        ),
        !has_0x_prefix(hex_string.spec_bytes()) ==> r == hex_string,
{
    let b = hex_string.as_bytes();
    if b.len() >= 2 && b[0] == 48u8 && (b[1] == 120u8 || b[1] == 88u8) {
        drop_two_ascii(hex_string)
    } else {
        hex_string
    }
}

/// Reads a hex number, after taking off every leading `0x`.
pub fn hex_to_decimal(hex: &str) -> (r: Result<u64, core::num::ParseIntError>)
    ensures
        r is Ok <==> is_u64_hex(without_lower_0x(hex.spec_bytes())),
        r is Ok ==> r->Ok_0 as nat == u64_hex_value(without_lower_0x(hex.spec_bytes())),
{
    let mut rest = hex;
    while rest.as_bytes().len() >= 2 && rest.as_bytes()[0] == 48u8 && rest.as_bytes()[1] == 120u8
        invariant
            without_lower_0x(rest.spec_bytes()) == without_lower_0x(hex.spec_bytes()),
        decreases rest.spec_bytes().len(),
    {
        rest = drop_two_ascii(rest);
    }
    u64_from_hex(rest)
}

/// Writes a number as `0x` and lower-case hex digits.
pub fn decimal_to_hex(decimal: u64) -> (r: String)
    ensures
        r@ == "0x"@ + lower_hex_digits(decimal as nat),
{
    let mut out = String::from_str("0x");
    let digits = format_lower_hex(decimal);
    out.append(digits.as_str());
    out
}

} // verus!
