//! Encoding of typed parameters given as text: each type string and literal is
//! parsed, and the values are ABI-encoded.
use vstd::prelude::*;
use vstd::string::*;
use vstd::utf8::*;
use ethabi::{ParamType, Token};
use ethereum_types::{H160, U256};
use crate::codec::{abi_encoding, encode_tokens, u256_value};
use vstd::arithmetic::power2::{pow2, lemma2_to64, lemma_pow2_adds, lemma_pow2_strictly_increases};
use crate::text_case::{lower_of, lowercase};
use crate::hex_text::{lemma_boundary_after_ascii, decode_hex, encode_hex, has_lower_0x_prefix, hex_decoded, hex_encoded, hex_value, is_hex_text, hex_digit_value};
use crate::signature::{AbiType, abi_type, decimal_value, is_digit, primitive_of, trim, word_int, word_uint};

verus! {

broadcast use vstd::utf8::group_utf8_lib;

/// 2 to the power 256.
pub open spec fn pow2_256() -> nat {
    0x1_0000_0000_0000_0000 * 0x1_0000_0000_0000_0000 * 0x1_0000_0000_0000_0000
        * 0x1_0000_0000_0000_0000
}

/// Decimal digits only, with a value below 2^256; no digits at all read as zero.
pub open spec fn decimal_fits(b: Seq<u8>) -> bool {
    (forall|i: int| 0 <= i < b.len() ==> #[trigger] is_digit(b[i])) && decimal_value(b) < pow2_256()
}

/// Text after an optional lower-case `0x`.
pub open spec fn after_0x(b: Seq<u8>) -> Seq<u8> {
    if has_lower_0x_prefix(b) {
        b.subrange(2, b.len() as int)
    } else {
        b
    }
}

/// At most 64 hex digits; no digits at all read as zero.
pub open spec fn hex_fits(body: Seq<u8>) -> bool {
    body.len() <= 64 && (forall|i: int| 0 <= i < body.len() ==> (#[trigger] hex_digit_value(body[i])) is Some)
}

/// Relies on uint's `U256::from_dec_str`: decimal digits only (none reads as
/// zero), with a value below 2^256.
#[verifier::external_body]
fn u256_from_decimal(text: &str) -> (r: Option<U256>)
    ensures
        r is Some <==> decimal_fits(text.spec_bytes()),
        r is Some ==> u256_value(r->Some_0) == decimal_value(text.spec_bytes()),
{
    U256::from_dec_str(text).ok()
}

/// Relies on uint's `FromStr` for `U256`: an optional `0x`, then at most 64 hex
/// digits of either case (none reads as zero).
#[verifier::external_body]
fn u256_from_hex(text: &str) -> (r: Option<U256>)
    ensures
        r is Some <==> hex_fits(after_0x(text.spec_bytes())),
        r is Some ==> u256_value(r->Some_0) == hex_value(after_0x(text.spec_bytes())),
{
    text.parse::<U256>().ok()
}

/// Relies on fixed-hash's `FromStr` for `H160`: text of `0x` and forty
/// characters reads when they are all hex digits, two a byte.
#[verifier::external_body]
fn h160_from_hex(text: &str) -> (r: Option<H160>)
    requires
        text.spec_bytes().len() == 42,
        has_lower_0x_prefix(text.spec_bytes()),
    ensures
        r is Some <==> is_hex_text(text.spec_bytes().subrange(2, 42)),
        r is Some ==> r->Some_0.0@ == hex_decoded(text.spec_bytes().subrange(2, 42)),
{
    text.parse::<H160>().ok()
}

/// Why encoding failed.
#[derive(Debug)]
pub enum EncodingError {
    /// A type string that names no supported type.
    TypeParseError(String),
    /// A literal that does not read as a value of its type.
    ParameterParseError(String),
    /// Type and value lists of different lengths.
    LengthMismatch,
    /// A numeric literal whose value does not fit in 256 bits.
    ValueOutOfRange,
}

impl EncodingError {
    /// The error as a sentence.
    pub fn message(&self) -> (r: String)
        ensures
            self is TypeParseError ==> r@ == "Type parsing error: "@ + self->TypeParseError_0@,
            self is ParameterParseError ==> r@ == "Parameter parsing error: "@
                + self->ParameterParseError_0@,
            self is LengthMismatch ==> r@ == "Number of types and parameters must match"@,
            self is ValueOutOfRange ==> r@ == "Value out of range"@,
    {
        match self {
            EncodingError::TypeParseError(msg) => {
                let mut out = String::from_str("Type parsing error: ");
                out.append(msg.as_str());
                out
            },
            EncodingError::ParameterParseError(msg) => {
                let mut out = String::from_str("Parameter parsing error: ");
                out.append(msg.as_str());
                out
            },
            EncodingError::LengthMismatch => String::from_str(
                "Number of types and parameters must match",
            ),
            EncodingError::ValueOutOfRange => String::from_str("Value out of range"),
        }
    }
}

/// The value of a numeric literal: `0x` and at most 64 hex digits, or decimal
/// digits; below 2^256 either way.
pub open spec fn number_of(p: Seq<u8>) -> Option<nat> {
    if has_lower_0x_prefix(p) {
        let body = p.subrange(2, p.len() as int);
        if hex_fits(body) {
            Some(hex_value(body))
        } else {
            None
        }
    } else if decimal_fits(p) {
        Some(decimal_value(p))
    } else {
        None
    }
}

/// A numeric literal that is well written but too large: more than 64 hex
/// digits, or decimal digits with a value of 2^256 or more.
pub open spec fn out_of_range(p: Seq<u8>) -> bool {
    if has_lower_0x_prefix(p) {
        let body = p.subrange(2, p.len() as int);
        &&& body.len() > 64
        &&& forall|i: int| 0 <= i < body.len() ==> (#[trigger] hex_digit_value(body[i])) is Some
    } else {
        &&& p.len() > 0
        &&& forall|i: int| 0 <= i < p.len() ==> #[trigger] is_digit(p[i])
        &&& decimal_value(p) >= pow2_256()
    }
}

fn all_hex_digits(b: &[u8]) -> (r: bool)
    ensures
        r == forall|i: int| 0 <= i < b@.len() ==> (#[trigger] hex_digit_value(b@[i])) is Some,
{
    let mut i: usize = 0;
    while i < b.len()
        invariant
            0 <= i <= b@.len(),
            forall|k: int| 0 <= k < i ==> (#[trigger] hex_digit_value(b@[k])) is Some,
        decreases b@.len() - i,
    {
        let c = b[i];
        if !((48u8 <= c && c <= 57u8) || (97u8 <= c && c <= 102u8) || (65u8 <= c && c <= 70u8)) {
            assert(hex_digit_value(b@[i as int]) is None);
            return false;
        }
        i = i + 1;
    }
    true
}

fn all_decimal_digits(b: &[u8]) -> (r: bool)
    ensures
        r == forall|i: int| 0 <= i < b@.len() ==> #[trigger] is_digit(b@[i]),
{
    let mut i: usize = 0;
    while i < b.len()
        invariant
            0 <= i <= b@.len(),
            forall|k: int| 0 <= k < i ==> #[trigger] is_digit(b@[k]),
        decreases b@.len() - i,
    {
        if !(48u8 <= b[i] && b[i] <= 57u8) {
            assert(!is_digit(b@[i as int]));
            return false;
        }
        i = i + 1;
    }
    true
}

/// Whether a literal, once trimmed, is a number too large for 256 bits.
pub fn literal_out_of_range(param: &str) -> (r: bool)
    ensures
        r == out_of_range(trim(param.spec_bytes())),
{
    let p = trim_str(param);
    let b = p.as_bytes();
    if b.len() >= 2 && b[0] == 48u8 && b[1] == 120u8 {
        b.len() - 2 > 64 && all_hex_digits(&b[2..b.len()])
    } else {
        b.len() > 0 && all_decimal_digits(b) && u256_from_decimal(p).is_none()
    }
}

/// Reads a numeric literal.
pub fn parse_number(param: &str) -> (r: Result<U256, String>)
    ensures
        r is Ok <==> number_of(param.spec_bytes()) is Some,
        r is Ok ==> u256_value(r->Ok_0) == number_of(param.spec_bytes())->Some_0,
{
    let b = param.as_bytes();
    if b.len() >= 2 && b[0] == 48u8 && b[1] == 120u8 {
        match u256_from_hex(param) {
            Some(v) => Ok(v),
            None => Err(String::from_str("Invalid hex number format")),
        }
    } else {
        match u256_from_decimal(param) {
            Some(v) => Ok(v),
            None => Err(String::from_str("Invalid decimal number format")),
        }
    }
}

/// The type that the encoder reads from lower-case text: a primitive keyword,
/// or `uint` and `int` for their 256-bit forms.
pub open spec fn encoder_type_of(t: Seq<u8>) -> Option<AbiType> {
    if t == word_uint() {
        Some(AbiType::Uint(256))
    } else if t == word_int() {
        Some(AbiType::Int(256))
    } else {
        primitive_of(t)
    }
}


/// Relies on `str::trim`: leading and trailing Unicode White_Space taken off,
/// as `trim` states over the UTF-8 bytes.
#[verifier::external_body]
fn trim_str(s: &str) -> (r: &str)
    ensures
        r.spec_bytes() == trim(s.spec_bytes()),
{
    s.trim()
}

/// Reads an encoder type string, in any case and with surrounding white space.
pub fn parse_type(type_str: &str) -> (r: Result<ParamType, String>)
    ensures
        ({
            let t = trim(encode_utf8(lower_of(type_str@)));
            &&& r is Ok <==> encoder_type_of(t) is Some
            &&& r is Ok ==> abi_type(r->Ok_0) == encoder_type_of(t)->Some_0
        }),
{
    let lowered = lowercase(type_str);
    let t = trim_str(lowered.as_str());
    let tb = t.as_bytes();
    let unsigned: Vec<u8> = vec![117u8, 105, 110, 116];
    let signed: Vec<u8> = vec![105u8, 110, 116];
    assert(unsigned@ == word_uint());
    assert(signed@ == word_int());
    if tb.len() == 4 && tb[0] == 117u8 && tb[1] == 105u8 && tb[2] == 110u8 && tb[3] == 116u8 {
        assert(tb@ == word_uint());
        return Ok(ParamType::Uint(256));
    }
    if tb.len() == 3 && tb[0] == 105u8 && tb[1] == 110u8 && tb[2] == 116u8 {
        assert(tb@ == word_int());
        return Ok(ParamType::Int(256));
    }
    assert(tb@ != word_uint());
    assert(tb@ != word_int());
    match crate::signature::parse_primitive_type(tb) {
        Some(p) => Ok(p),
        None => {
            let mut msg = String::from_str("Unsupported type: ");
            msg.append(type_str);
            Err(msg)
        },
    }
}

/// The first index from `i` on that does not hold the byte `c`.
pub open spec fn lead_end_of(s: Seq<u8>, i: int, c: u8) -> int
    decreases s.len() - i,
{
    if 0 <= i < s.len() && s[i] == c {
        lead_end_of(s, i + 1, c)
    } else {
        i
    }
}

/// The end of `s[a..j]` once trailing bytes `c` are taken off.
pub open spec fn trail_end_of(s: Seq<u8>, a: int, j: int, c: u8) -> int
    decreases j - a,
{
    if a < j && j <= s.len() && s[j - 1] == c {
        trail_end_of(s, a, j - 1, c)
    } else {
        j
    }
}

/// Text with every leading and trailing byte `c` taken off.
pub open spec fn strip_byte(s: Seq<u8>, c: u8) -> Seq<u8> {
    let a = lead_end_of(s, 0, c);
    s.subrange(a, trail_end_of(s, a, s.len() as int, c))
}

/// A string literal without its surrounding double, then single, quotes.
pub open spec fn unquoted(p: Seq<u8>) -> Seq<u8> {
    strip_byte(strip_byte(p, 34), 39)
}

/// The truth value of lower-case text: `true` or `1`, `false` or `0`.
pub open spec fn bool_of(l: Seq<u8>) -> Option<bool> {
    if l == seq![116u8, 114, 117, 101] || l == seq![49u8] {
        Some(true)
    } else if l == seq![102u8, 97, 108, 115, 101] || l == seq![48u8] {
        Some(false)
    } else {
        None
    }
}

/// The bytes of a literal `0x` and hex digits.
pub open spec fn hex_literal(p: Seq<u8>) -> Option<Seq<u8>> {
    if has_lower_0x_prefix(p) && is_hex_text(p.subrange(2, p.len() as int)) {
        Some(hex_decoded(p.subrange(2, p.len() as int)))
    } else {
        None
    }
}

/// The bits that a non-negative literal of an integer type may use: all `n`
/// of `uintN`, and the `n - 1` below the sign bit of `intN`.
pub open spec fn width_bits(ty: AbiType) -> nat {
    match ty {
        AbiType::Uint(n) => n as nat,
        AbiType::Int(n) => if n > 0 {
            (n - 1) as nat
        } else {
            0
        },
        _ => 0,
    }
}

/// Whether a 256-bit word is a value of an integer type: below 2^N for
/// `uintN`; for `intN`, a non-negative value below 2^(N-1) or a negative one in
/// two's complement, 2^256 - 2^(N-1) or more.
pub open spec fn int_fits(v: nat, ty: AbiType) -> bool {
    if ty is Int {
        v < pow2(width_bits(ty)) || v >= pow2(256) - pow2(width_bits(ty))
    } else {
        v < pow2(width_bits(ty))
    }
}

proof fn lemma_pow2_256()
    ensures
        pow2(256) == pow2_256(),
{
    lemma2_to64();
    lemma_pow2_adds(64, 64);
    lemma_pow2_adds(128, 128);
    let p64 = pow2(64);
    let p128 = pow2(128);
    let p256 = pow2(256);
    assert(p256 == pow2_256()) by (nonlinear_arith)
        requires
            p64 == 0x1_0000_0000_0000_0000,
            p128 == p64 * p64,
            p256 == p128 * p128,
            pow2_256() == 0x1_0000_0000_0000_0000 * 0x1_0000_0000_0000_0000 * 0x1_0000_0000_0000_0000
                * 0x1_0000_0000_0000_0000,
    ;
}

/// The bitwise complement of a word: 2^256 - 1 minus its value.
fn complement(v: &U256) -> (r: U256)
    ensures
        u256_value(r) == pow2(256) - 1 - u256_value(*v),
{
    let w0: u64 = v.0[0];
    let w1: u64 = v.0[1];
    let w2: u64 = v.0[2];
    let w3: u64 = v.0[3];
    let r = U256([!w0, !w1, !w2, !w3]);
    assert(!w0 == 0xffff_ffff_ffff_ffffu64 - w0) by (bit_vector);
    assert(!w1 == 0xffff_ffff_ffff_ffffu64 - w1) by (bit_vector);
    assert(!w2 == 0xffff_ffff_ffff_ffffu64 - w2) by (bit_vector);
    assert(!w3 == 0xffff_ffff_ffff_ffffu64 - w3) by (bit_vector);
    proof {
        lemma_pow2_256();
    }
    assert(pow2(256) == pow2_256());
    assert(r.0[0] == !w0 && r.0[1] == !w1 && r.0[2] == !w2 && r.0[3] == !w3);
    assert(v.0[0] == w0 && v.0[1] == w1 && v.0[2] == w2 && v.0[3] == w3);
    let ghost a0 = w0 as int;
    let ghost a1 = w1 as int;
    let ghost a2 = w2 as int;
    let ghost a3 = w3 as int;
    assert(u256_value(r) == (0xffff_ffff_ffff_ffff - a0) + (0xffff_ffff_ffff_ffff - a1)
        * 0x1_0000_0000_0000_0000 + (0xffff_ffff_ffff_ffff - a2) * 0x1_0000_0000_0000_0000_0000_0000_0000_0000
        + (0xffff_ffff_ffff_ffff - a3) * 0x1_0000_0000_0000_0000_0000_0000_0000_0000_0000_0000_0000_0000);
    assert(u256_value(*v) == a0 + a1 * 0x1_0000_0000_0000_0000 + a2
        * 0x1_0000_0000_0000_0000_0000_0000_0000_0000 + a3
        * 0x1_0000_0000_0000_0000_0000_0000_0000_0000_0000_0000_0000_0000);
    assert(pow2_256() == 0x1_0000_0000_0000_0000_0000_0000_0000_0000_0000_0000_0000_0000
        * 0x1_0000_0000_0000_0000);
    let ghost x = u256_value(r) as int;
    let ghost y = u256_value(*v) as int;
    let ghost c = pow2_256() as int;
    assert(x == c - 1 - y) by (nonlinear_arith)
        requires
            x == (0xffff_ffff_ffff_ffff - a0) + (0xffff_ffff_ffff_ffff - a1) * 0x1_0000_0000_0000_0000
                + (0xffff_ffff_ffff_ffff - a2) * 0x1_0000_0000_0000_0000_0000_0000_0000_0000 + (
            0xffff_ffff_ffff_ffff - a3) * 0x1_0000_0000_0000_0000_0000_0000_0000_0000_0000_0000_0000_0000,
            y == a0 + a1 * 0x1_0000_0000_0000_0000 + a2 * 0x1_0000_0000_0000_0000_0000_0000_0000_0000
                + a3 * 0x1_0000_0000_0000_0000_0000_0000_0000_0000_0000_0000_0000_0000,
            c == 0x1_0000_0000_0000_0000_0000_0000_0000_0000_0000_0000_0000_0000 * 0x1_0000_0000_0000_0000,
    ;
    r
}

/// Checks that a word is a value of an integer type.
fn value_fits(v: &U256, ty: &ParamType) -> (r: bool)
    requires
        *ty is Uint || *ty is Int,
    ensures
        r == int_fits(u256_value(*v), abi_type(*ty)),
{
    match ty {
        ParamType::Uint(n) => fits_bits(v, *n),
        ParamType::Int(n) => {
            let bits: usize = if *n > 0 {
                *n - 1
            } else {
                0
            };
            if fits_bits(v, bits) {
                true
            } else {
                fits_bits(&complement(v), bits)
            }
        },
        _ => false,
    }
}

/// Relies on uint's `U256::bits`: the position of the highest set bit plus one
/// (zero for zero), so the value lies below 2 to that power.
#[verifier::external_body]
fn bit_length(u: &U256) -> (r: usize)
    ensures
        r <= 256,
        u256_value(*u) < pow2(r as nat),
        r > 0 ==> pow2((r - 1) as nat) <= u256_value(*u),
{
    u.bits()
}

/// Whether a value lies below 2 to the power `n`.
fn fits_bits(u: &U256, n: usize) -> (r: bool)
    ensures
        r == (u256_value(*u) < pow2(n as nat)),
{
    let b = bit_length(u);
    if b <= n {
        if b < n {
            proof {
                lemma_pow2_strictly_increases(b as nat, n as nat);
            }
        }
        true
    } else {
        proof {
            if n < b - 1 {
                lemma_pow2_strictly_increases(n as nat, (b - 1) as nat);
            }
        }
        false
    }
}

/// Whether a trimmed literal reads as a value of a type.
pub open spec fn parameter_readable(p: Seq<u8>, ty: AbiType) -> bool {
    match ty {
        AbiType::Address => p.len() == 42 && hex_literal(p) is Some,
        AbiType::Uint(_) => number_of(p) is Some && int_fits(number_of(p)->Some_0, ty),
        AbiType::Int(_) => number_of(p) is Some && int_fits(number_of(p)->Some_0, ty),
        AbiType::Bool => bool_of(encode_utf8(lower_of(decode_utf8(p)))) is Some,
        AbiType::Str => true,
        AbiType::Bytes => hex_literal(p) is Some,
        AbiType::FixedBytes(n) => hex_literal(p) is Some && hex_literal(p)->Some_0.len() == n,
        _ => false,
    }
}

/// Whether `t` is the value that a trimmed literal reads as.
pub open spec fn parameter_read(p: Seq<u8>, ty: AbiType, t: Token) -> bool {
    match (ty, t) {
        (AbiType::Address, Token::Address(a)) => hex_literal(p) == Some(a.0@),
        (AbiType::Uint(_), Token::Uint(u)) => number_of(p) == Some(u256_value(u)),
        (AbiType::Int(_), Token::Int(u)) => number_of(p) == Some(u256_value(u)),
        (AbiType::Bool, Token::Bool(b)) => bool_of(encode_utf8(lower_of(decode_utf8(p)))) == Some(b),
        (AbiType::Str, Token::String(s)) => encode_utf8(s@) == unquoted(p),
        (AbiType::Bytes, Token::Bytes(v)) => hex_literal(p) == Some(v@),
        (AbiType::FixedBytes(_), Token::FixedBytes(v)) => hex_literal(p) == Some(v@),
        _ => false,
    }
}

/// Text with every leading and trailing ASCII byte `c` taken off.
fn strip_str(s: &str, c: u8) -> (r: &str)
    requires
        c < 128,
    ensures
        r.spec_bytes() == strip_byte(s.spec_bytes(), c),
{
    let b = s.as_bytes();
    let ghost sb = b@;
    let mut a: usize = 0;
    while a < b.len() && b[a] == c
        invariant
            0 <= a <= b@.len(),
            sb == b@,
            c < 128,
            lead_end_of(sb, a as int, c) == lead_end_of(sb, 0, c),
            forall|k: int| 0 <= k < a ==> sb[k] < 128,
        decreases b@.len() - a,
    {
        a = a + 1;
    }
    let mut e: usize = b.len();
    while e > a && b[e - 1] == c
        invariant
            a <= e <= b@.len(),
            sb == b@,
            c < 128,
            lead_end_of(sb, 0, c) == a,
            trail_end_of(sb, a as int, e as int, c) == trail_end_of(sb, a as int, sb.len() as int, c),
            forall|k: int| e <= k < sb.len() ==> sb[k] < 128,
        decreases e,
    {
        e = e - 1;
    }
    proof {
        lemma_boundary_after_ascii(sb, a as int);
        if e < sb.len() {
            assert(sb[e as int] < 128);
            assert(!is_continuation_byte(sb[e as int]));
        }
    }
    let (head, _tail) = s.split_at(e);
    proof {
        let hb = head.spec_bytes();
        assert(hb == sb.subrange(0, e as int));
        assert forall|k: int| 0 <= k < a implies hb[k] < 128 by {
            assert(hb[k] == sb[k]);
        }
        lemma_boundary_after_ascii(hb, a as int);
    }
    let (_lead, body) = head.split_at(a);
    body
}

/// Reads `0x` and hex digits as bytes.
fn read_hex_literal(p: &[u8]) -> (r: Option<Vec<u8>>)
    ensures
        match r {
            Some(v) => hex_literal(p@) == Some(v@),
            None => hex_literal(p@) is None,
        },
{
    if p.len() >= 2 && p[0] == 48u8 && p[1] == 120u8 {
        match decode_hex(&p[2..p.len()]) {
            Ok(v) => Some(v),
            Err(_) => None,
        }
    } else {
        None
    }
}

/// Reads a literal as a value of a type.
pub fn parse_parameter(param: &str, param_type: &ParamType) -> (r: Result<Token, String>)
    ensures
        r is Ok <==> parameter_readable(trim(param.spec_bytes()), abi_type(*param_type)),
        r is Ok ==> parameter_read(trim(param.spec_bytes()), abi_type(*param_type), r->Ok_0),
{
    let p = trim_str(param);
    let pb = p.as_bytes();
    proof {
        assert(p@ == decode_utf8(p.spec_bytes()));
    }
    match param_type {
        ParamType::Address => {
            if !(pb.len() == 42 && pb[0] == 48u8 && pb[1] == 120u8) {
                return Err(
                    String::from_str(
                        "Invalid address format - must be 0x followed by 40 hex characters",
                    ),
                );
            }
            let ghost body = pb@.subrange(2, 42);
            assert(pb@.subrange(2, pb@.len() as int) == body);
            match h160_from_hex(p) {
                Some(a) => Ok(Token::Address(a)),
                None => Err(String::from_str("Invalid address hex format")),
            }
        },
        ParamType::Uint(n) => match parse_number(p) {
            Ok(v) => if value_fits(&v, param_type) {
                Ok(Token::Uint(v))
            } else {
                Err(String::from_str("Value out of range"))
            },
            Err(e) => Err(e),
        },
        ParamType::Int(n) => match parse_number(p) {
            Ok(v) => if value_fits(&v, param_type) {
                Ok(Token::Int(v))
            } else {
                Err(String::from_str("Value out of range"))
            },
            Err(e) => Err(e),
        },
        ParamType::Bool => {
            let lowered = lowercase(p);
            let l = lowered.as_str().as_bytes();
            if (l.len() == 4 && l[0] == 116u8 && l[1] == 114u8 && l[2] == 117u8 && l[3] == 101u8)
                || (l.len() == 1 && l[0] == 49u8) {
                assert(l@ == seq![116u8, 114, 117, 101] || l@ == seq![49u8]);
                Ok(Token::Bool(true))
            } else if (l.len() == 5 && l[0] == 102u8 && l[1] == 97u8 && l[2] == 108u8 && l[3]
                == 115u8 && l[4] == 101u8) || (l.len() == 1 && l[0] == 48u8) {
                assert(l@ == seq![102u8, 97, 108, 115, 101] || l@ == seq![48u8]);
                Ok(Token::Bool(false))
            } else {
                assert(l@ != seq![116u8, 114, 117, 101] && l@ != seq![49u8]);
                assert(l@ != seq![102u8, 97, 108, 115, 101] && l@ != seq![48u8]);
                Err(String::from_str("Invalid boolean value - use true/false or 1/0"))
            }
        },
        ParamType::String => {
            let cleaned = strip_str(strip_str(p, 34u8), 39u8);
            Ok(Token::String(String::from_str(cleaned)))
        },
        ParamType::Bytes => match read_hex_literal(pb) {
            Some(bytes) => Ok(Token::Bytes(bytes)),
            None => Err(String::from_str("Bytes must be 0x followed by hex digits")),
        },
        ParamType::FixedBytes(size) => match read_hex_literal(pb) {
            Some(bytes) => {
                if bytes.len() != *size {
                    return Err(String::from_str("Fixed bytes have the wrong length"));
                }
                Ok(Token::FixedBytes(bytes))
            },
            None => Err(String::from_str("Fixed bytes must be 0x followed by hex digits")),
        },
        _ => Err(String::from_str("Unsupported parameter type")),
    }
}

/// How `ethabi`'s derived `Debug` writes a type.
pub uninterp spec fn param_type_debug(p: ParamType) -> Seq<char>;

/// How `ethabi`'s derived `Debug` writes a value.
pub uninterp spec fn token_debug(t: Token) -> Seq<char>;

/// Relies on the `Debug` that `ethabi` derives for `ParamType`.
#[verifier::external_body]
fn debug_type(p: &ParamType) -> (r: String)
    ensures
        r@ == param_type_debug(*p),
{
    format!("{:?}", p)
}

/// Relies on the `Debug` that `ethabi` derives for `Token`.
#[verifier::external_body]
fn debug_token(t: &Token) -> (r: String)
    ensures
        r@ == token_debug(*t),
{
    format!("{:?}", t)
}

/// Types and literals to encode, in matching order.
pub struct AbiEncodingRequest {
    pub abi_types: Vec<String>,
    pub parameters: Vec<String>,
}

/// What was parsed on the way to an encoding.
pub struct EncodingDebugInfo {
    pub parsed_types: Vec<String>,
    pub parsed_values: Vec<String>,
    pub hex_length: usize,
}

/// An encoding, as `0x` and hex digits.
pub struct AbiEncodingResponse {
    pub encoded_output: String,
    pub debug_info: Option<EncodingDebugInfo>,
}

/// The type that a type string names for the encoder.
pub open spec fn encoder_type_of_text(s: Seq<char>) -> Option<AbiType> {
    encoder_type_of(trim(encode_utf8(lower_of(s))))
}

/// Whether every type string names a type.
pub open spec fn all_types_read(types: Seq<String>) -> bool {
    forall|i: int| 0 <= i < types.len() ==> (#[trigger] encoder_type_of_text(types[i]@)) is Some
}

/// The first literal from `i` on that does not read as a value of its type;
/// the length where all do.
pub open spec fn first_unreadable(types: Seq<String>, params: Seq<String>, i: int) -> int
    decreases params.len() - i,
{
    if i < 0 || i >= params.len() {
        params.len() as int
    } else if !parameter_readable(
        trim(encode_utf8(params[i]@)),
        encoder_type_of_text(types[i]@)->Some_0,
    ) {
        i
    } else {
        first_unreadable(types, params, i + 1)
    }
}

/// Whether the literal at `k` is a number too large for its integer type.
pub open spec fn number_too_large(types: Seq<String>, params: Seq<String>, k: int) -> bool {
    literal_too_large(trim(encode_utf8(params[k]@)), encoder_type_of_text(types[k]@)->Some_0)
}

/// Whether a trimmed literal of an integer type is a number that does not fit
/// its width.
pub open spec fn literal_too_large(p: Seq<u8>, ty: AbiType) -> bool {
    &&& (ty is Uint || ty is Int)
    &&& (out_of_range(p) || (number_of(p) is Some && !int_fits(number_of(p)->Some_0, ty)))
}

/// Whether a literal, once trimmed, is a number too large for an integer type.
pub fn value_out_of_range(param: &str, ty: &ParamType) -> (r: bool)
    ensures
        r == literal_too_large(trim(param.spec_bytes()), abi_type(*ty)),
{
    match ty {
        ParamType::Uint(_) => {},
        ParamType::Int(_) => {},
        _ => {
            return false;
        },
    }
    if literal_out_of_range(param) {
        return true;
    }
    let p = trim_str(param);
    match parse_number(p) {
        Ok(v) => !value_fits(&v, ty),
        Err(_) => false,
    }
}

/// Whether `tokens` are the values that the literals read as.
pub open spec fn values_read(types: Seq<String>, params: Seq<String>, tokens: Seq<Token>) -> bool {
    &&& tokens.len() == params.len()
    &&& forall|i: int|
        0 <= i < params.len() ==> parameter_read(
            trim(encode_utf8((#[trigger] params[i])@)),
            encoder_type_of_text(types[i]@)->Some_0,
            tokens[i],
        )
}

/// Whether a response is the encoding of `tokens`, read from the literals as
/// values of the `parsed` types, with what was parsed written out.
pub open spec fn encoded_as(
    types: Seq<String>,
    params: Seq<String>,
    tokens: Seq<Token>,
    parsed: Seq<ParamType>,
    out: AbiEncodingResponse,
) -> bool {
    &&& values_read(types, params, tokens)
    &&& parsed.len() == types.len()
    &&& forall|i: int| 0 <= i < types.len() ==> (#[trigger] encoder_type_of_text(types[i]@)) == Some(
        abi_type(parsed[i]),
    )
    &&& out.encoded_output@ == "0x"@ + hex_encoded(abi_encoding(tokens))
    &&& out.debug_info is Some
    &&& out.debug_info->Some_0.hex_length == abi_encoding(tokens).len()
    &&& out.debug_info->Some_0.parsed_types@.len() == parsed.len()
    &&& forall|i: int|
        0 <= i < parsed.len() ==> (#[trigger] out.debug_info->Some_0.parsed_types@[i])@
            == param_type_debug(parsed[i])
    &&& out.debug_info->Some_0.parsed_values@.len() == tokens.len()
    &&& forall|i: int|
        0 <= i < tokens.len() ==> (#[trigger] out.debug_info->Some_0.parsed_values@[i])@
            == token_debug(tokens[i])
}

/// Whether a response is the encoding of the values that the literals read as.
pub open spec fn encoding_of(types: Seq<String>, params: Seq<String>, out: AbiEncodingResponse) -> bool {
    exists|tokens: Seq<Token>, parsed: Seq<ParamType>| #[trigger] encoded_as(types, params, tokens, parsed, out)
}

/// Parses each type and literal and ABI-encodes the values.
pub fn encode_parameters(request: AbiEncodingRequest) -> (r: Result<AbiEncodingResponse, EncodingError>)
    ensures
        ({
            let types = request.abi_types@;
            let params = request.parameters@;
            &&& (r is Err && r->Err_0 is LengthMismatch) <==> types.len() != params.len()
            &&& (r is Err && r->Err_0 is TypeParseError) <==> (types.len() == params.len()
                && !all_types_read(types))
            &&& (r is Err && r->Err_0 is ParameterParseError) <==> (types.len() == params.len()
                && all_types_read(types) && first_unreadable(types, params, 0) < params.len()
                && !number_too_large(types, params, first_unreadable(types, params, 0)))
            &&& (r is Err && r->Err_0 is ValueOutOfRange) <==> (types.len() == params.len()
                && all_types_read(types) && first_unreadable(types, params, 0) < params.len()
                && number_too_large(types, params, first_unreadable(types, params, 0)))
            &&& r is Ok ==> encoding_of(types, params, r->Ok_0)
        }),
{
    let types = &request.abi_types;
    let params = &request.parameters;
    if types.len() != params.len() {
        return Err(EncodingError::LengthMismatch);
    }
    let mut param_types: Vec<ParamType> = Vec::new();
    let mut i: usize = 0;
    while i < types.len()
        invariant
            0 <= i <= types@.len(),
            types@.len() == params@.len(),
            types@ == request.abi_types@,
            params@ == request.parameters@,
            param_types@.len() == i,
            forall|k: int|
                0 <= k < i ==> (#[trigger] encoder_type_of_text(types@[k]@)) == Some(
                    abi_type(param_types@[k]),
                ),
        decreases types@.len() - i,
    {
        match parse_type(types[i].as_str()) {
            Ok(p) => {
                param_types.push(p);
            },
            Err(msg) => {
                assert(encoder_type_of_text(types@[i as int]@) is None);
                assert(!all_types_read(types@));
                return Err(EncodingError::TypeParseError(msg));
            },
        }
        i = i + 1;
    }
    assert(all_types_read(types@));
    let mut tokens: Vec<Token> = Vec::new();
    let mut j: usize = 0;
    while j < params.len()
        invariant
            0 <= j <= params@.len(),
            params@.len() == types@.len(),
            types@ == request.abi_types@,
            params@ == request.parameters@,
            param_types@.len() == types@.len(),
            forall|k: int|
                0 <= k < types@.len() ==> (#[trigger] encoder_type_of_text(types@[k]@)) == Some(
                    abi_type(param_types@[k]),
                ),
            tokens@.len() == j,
            forall|k: int|
                0 <= k < j ==> parameter_read(
                    trim(encode_utf8((#[trigger] params@[k])@)),
                    encoder_type_of_text(types@[k]@)->Some_0,
                    tokens@[k],
                ),
            forall|k: int|
                0 <= k < j ==> parameter_readable(
                    trim(encode_utf8((#[trigger] params@[k])@)),
                    encoder_type_of_text(types@[k]@)->Some_0,
                ),
            first_unreadable(types@, params@, 0) == first_unreadable(types@, params@, j as int),
        decreases params@.len() - j,
    {
        assert(encoder_type_of_text(types@[j as int]@) == Some(abi_type(param_types@[j as int])));
        match parse_parameter(params[j].as_str(), &param_types[j]) {
            Ok(t) => {
                tokens.push(t);
                assert(first_unreadable(types@, params@, j as int) == first_unreadable(
                    types@,
                    params@,
                    j + 1,
                ));
            },
            Err(msg) => {
                assert(!parameter_readable(
                    trim(encode_utf8(params@[j as int]@)),
                    encoder_type_of_text(types@[j as int]@)->Some_0,
                ));
                assert(all_types_read(types@));
                assert(first_unreadable(types@, params@, j as int) == j);
                if value_out_of_range(params[j].as_str(), &param_types[j]) {
                    return Err(EncodingError::ValueOutOfRange);
                }
                return Err(EncodingError::ParameterParseError(msg));
            },
        }
        j = j + 1;
    }
    let encoded = encode_tokens(tokens.as_slice());
    let mut hex_output = String::from_str("0x");
    let digits = encode_hex(encoded.as_slice());
    hex_output.append(digits.as_str());
    let mut parsed_types: Vec<String> = Vec::new();
    let mut k: usize = 0;
    while k < param_types.len()
        invariant
            0 <= k <= param_types@.len(),
            parsed_types@.len() == k,
            forall|i: int| 0 <= i < k ==> (#[trigger] parsed_types@[i])@ == param_type_debug(param_types@[i]),
        decreases param_types@.len() - k,
    {
        parsed_types.push(debug_type(&param_types[k]));
        k = k + 1;
    }
    let mut parsed_values: Vec<String> = Vec::new();
    let mut m: usize = 0;
    while m < tokens.len()
        invariant
            0 <= m <= tokens@.len(),
            parsed_values@.len() == m,
            forall|i: int| 0 <= i < m ==> (#[trigger] parsed_values@[i])@ == token_debug(tokens@[i]),
        decreases tokens@.len() - m,
    {
        parsed_values.push(debug_token(&tokens[m]));
        m = m + 1;
    }
    let hex_length = encoded.len();
    assert(values_read(types@, params@, tokens@));
    assert(first_unreadable(types@, params@, j as int) == params@.len());
    let response = AbiEncodingResponse {
        encoded_output: hex_output,
        debug_info: Some(EncodingDebugInfo { parsed_types, parsed_values, hex_length }),
    };
    assert(encoded_as(types@, params@, tokens@, param_types@, response));
    assert(encoding_of(request.abi_types@, request.parameters@, response));
    Ok(response)
}

} // verus!
