//! The ABI value codec of `ethabi`, and the text that each decoded value is
//! shown as.
use vstd::prelude::*;
use vstd::string::*;
use ethabi::{ParamType, Token};
use ethereum_types::U256;
use crate::hex_text::{encode_hex, hex_encoded};

verus! {

/// The head/tail ABI encoding of a list of values.
pub uninterp spec fn abi_encoding(tokens: Seq<Token>) -> Seq<u8>;

/// The values that ABI-encoded bytes hold for a list of types, where they can be read.
pub uninterp spec fn abi_decoding(types: Seq<ParamType>, data: Seq<u8>) -> Option<Seq<Token>>;

/// Relies on ethabi::encode: the head/tail encoding of the values; no values
/// encode to no bytes.
#[verifier::external_body]
pub(crate) fn encode_tokens(tokens: &[Token]) -> (r: Vec<u8>)
    ensures
        r@ == abi_encoding(tokens@),
        tokens@.len() == 0 ==> r@.len() == 0,
{
    ethabi::encode(tokens)
}

/// Whether every `bytesN` inside a type has N at most 32.
pub open spec fn sizes_bounded(p: ParamType) -> bool
    decreases p,
{
    match p {
        ParamType::FixedBytes(n) => n <= 32,
        ParamType::Array(inner) => sizes_bounded(*inner),
        ParamType::FixedArray(inner, _) => sizes_bounded(*inner),
        ParamType::Tuple(members) => all_sizes_bounded(members@),
        _ => true,
    }
}

/// Whether every type of a list has its `bytesN` sizes at most 32.
pub open spec fn all_sizes_bounded(ps: Seq<ParamType>) -> bool
    decreases ps,
{
    if ps.len() == 0 {
        true
    } else {
        sizes_bounded(ps[0]) && all_sizes_bounded(ps.drop_first())
    }
}

/// Checks that every `bytesN` inside a type has N at most 32.
pub fn type_sizes_bounded(p: &ParamType) -> (r: bool)
    ensures
        r == sizes_bounded(*p),
    decreases p,
{
    match p {
        ParamType::FixedBytes(n) => *n <= 32,
        ParamType::Array(inner) => type_sizes_bounded(inner),
        ParamType::FixedArray(inner, _) => type_sizes_bounded(inner),
        ParamType::Tuple(members) => types_sizes_bounded(members),
        _ => true,
    }
}

/// Checks that every `bytesN` inside a list of types has N at most 32.
pub fn types_sizes_bounded(ps: &Vec<ParamType>) -> (r: bool)
    ensures
        r == all_sizes_bounded(ps@),
    decreases ps,
{
    let mut k: usize = ps.len();
    let mut ok = true;
    assert(ps@.subrange(k as int, ps@.len() as int).len() == 0);
    while k > 0
        invariant
            0 <= k <= ps@.len(),
            ok == all_sizes_bounded(ps@.subrange(k as int, ps@.len() as int)),
        decreases k,
    {
        let here = type_sizes_bounded(&ps[k - 1]);
        let ghost tail = ps@.subrange(k as int, ps@.len() as int);
        let ghost longer = ps@.subrange(k - 1, ps@.len() as int);
        assert(longer.drop_first() == tail);
        assert(longer[0] == ps@[k - 1]);
        ok = here && ok;
        k = k - 1;
    }
    assert(ps@.subrange(0, ps@.len() as int) == ps@);
    ok
}

/// Relies on ethabi::decode: one value for each type, read from the start of
/// the data; bytes after the last value are ignored. Its reading of `bytesN`
/// adds N to an offset unchecked, so N is admitted up to 32 only.
#[verifier::external_body]
pub(crate) fn decode_tokens(types: &[ParamType], data: &[u8]) -> (r: Result<Vec<Token>, ethabi::Error>)
    requires
        all_sizes_bounded(types@),
    ensures
        r is Ok <==> abi_decoding(types@, data@) is Some,
        r is Ok ==> r->Ok_0@ == abi_decoding(types@, data@)->Some_0,
        r is Ok ==> r->Ok_0@.len() == types@.len(),
{
    ethabi::decode(types, data)
}

/// The value of a 256-bit integer, whose words are least significant first.
pub open spec fn u256_value(u: U256) -> nat {
    (u.0[0] as nat) + (u.0[1] as nat) * 0x1_0000_0000_0000_0000 + (u.0[2] as nat)
        * 0x1_0000_0000_0000_0000_0000_0000_0000_0000 + (u.0[3] as nat)
        * 0x1_0000_0000_0000_0000_0000_0000_0000_0000_0000_0000_0000_0000
}

/// A number in decimal digits, without leading zeros.
pub open spec fn decimal_chars(n: nat) -> Seq<char>
    decreases n,
{
    if n < 10 {
        seq![((48 + n) as u8) as char]
    } else {
        decimal_chars(n / 10).push(((48 + n % 10) as u8) as char)
    }
}

/// Relies on the `Display` of uint's `U256`: the value in decimal, no leading zeros.
#[verifier::external_body]
fn uint_text(u: &U256) -> (r: String)
    ensures
        r@ == decimal_chars(u256_value(*u)),
{
    u.to_string()
}

/// How a value is shown: its kind, a colon, and the value; arrays and tuples
/// show their members separated by commas.
pub open spec fn token_text(t: Token) -> Seq<char>
    decreases t,
{
    match t {
        Token::Address(a) => "Address: 0x"@ + hex_encoded(a.0@),
        Token::FixedBytes(b) => "FixedBytes: 0x"@ + hex_encoded(b@),
        Token::Bytes(b) => "Bytes: 0x"@ + hex_encoded(b@),
        Token::Int(u) => "Int: "@ + decimal_chars(u256_value(u)),
        Token::Uint(u) => "Uint: "@ + decimal_chars(u256_value(u)),
        Token::Bool(b) => "Bool: "@ + if b {
            "true"@
        } else {
            "false"@
        },
        Token::String(s) => "String: "@ + s@,
        Token::FixedArray(ts) => "FixedArray: ["@ + tokens_text(ts@) + "]"@,
        Token::Array(ts) => "Array: ["@ + tokens_text(ts@) + "]"@,
        Token::Tuple(ts) => "Tuple: ("@ + tokens_text(ts@) + ")"@,
    }
}

/// Values shown one after another, separated by `, `.
pub open spec fn tokens_text(ts: Seq<Token>) -> Seq<char>
    decreases ts,
{
    if ts.len() == 0 {
        Seq::empty()
    } else if ts.len() == 1 {
        token_text(ts[0])
    } else {
        tokens_text(ts.drop_last()) + ", "@ + token_text(ts.last())
    }
}

/// Shows the members of an array or tuple, separated by commas.
fn append_members(ts: &Vec<Token>, out: &mut String)
    ensures
        final(out)@ == old(out)@ + tokens_text(ts@),
    decreases ts,
{
    let ghost start = out@;
    let mut k: usize = 0;
    assert(ts@.subrange(0, 0) == Seq::<Token>::empty());
    while k < ts.len()
        invariant
            0 <= k <= ts@.len(),
            out@ == start + tokens_text(ts@.subrange(0, k as int)),
        decreases ts@.len() - k,
    {
        let ghost prefix = ts@.subrange(0, k + 1);
        assert(prefix.drop_last() == ts@.subrange(0, k as int));
        assert(prefix.last() == ts@[k as int]);
        if k > 0 {
            out.append(", ");
        }
        let member = token_to_string(&ts[k]);
        out.append(member.as_str());
        k = k + 1;
    }
    assert(ts@.subrange(0, ts@.len() as int) == ts@);
}

/// Shows a decoded value, such as `Uint: 123` or `Array: [Bool: true]`.
pub fn token_to_string(token: &Token) -> (r: String)
    ensures
        r@ == token_text(*token),
    decreases token,
{
    match token {
        Token::Address(a) => {
            let mut out = String::from_str("Address: 0x");
            let digits = encode_hex(vstd::array::array_as_slice(&a.0));
            out.append(digits.as_str());
            out
        },
        Token::FixedBytes(b) => {
            let mut out = String::from_str("FixedBytes: 0x");
            let digits = encode_hex(b.as_slice());
            out.append(digits.as_str());
            out
        },
        Token::Bytes(b) => {
            let mut out = String::from_str("Bytes: 0x");
            let digits = encode_hex(b.as_slice());
            out.append(digits.as_str());
            out
        },
        Token::Int(u) => {
            let mut out = String::from_str("Int: ");
            let digits = uint_text(u);
            out.append(digits.as_str());
            out
        },
        Token::Uint(u) => {
            let mut out = String::from_str("Uint: ");
            let digits = uint_text(u);
            out.append(digits.as_str());
            out
        },
        Token::Bool(b) => {
            let mut out = String::from_str("Bool: ");
            if *b {
                out.append("true");
            } else {
                out.append("false");
            }
            out
        },
        Token::String(s) => {
            let mut out = String::from_str("String: ");
            out.append(s.as_str());
            out
        },
        Token::FixedArray(ts) => {
            let mut out = String::from_str("FixedArray: [");
            append_members(ts, &mut out);
            out.append("]");
            out
        },
        Token::Array(ts) => {
            let mut out = String::from_str("Array: [");
            append_members(ts, &mut out);
            out.append("]");
            out
        },
        Token::Tuple(ts) => {
            let mut out = String::from_str("Tuple: (");
            append_members(ts, &mut out);
            out.append(")");
            out
        },
    }
}

/// Shows each decoded value, in order.
pub fn tokens_to_strings(tokens: &Vec<Token>) -> (r: Vec<String>)
    ensures
        r@.len() == tokens@.len(),
        forall|k: int| 0 <= k < r@.len() ==> (#[trigger] r@[k])@ == token_text(tokens@[k]),
{
    let mut out: Vec<String> = Vec::new();
    let mut k: usize = 0;
    while k < tokens.len()
        invariant
            0 <= k <= tokens@.len(),
            out@.len() == k,
            forall|j: int| 0 <= j < k ==> (#[trigger] out@[j])@ == token_text(tokens@[j]),
        decreases tokens@.len() - k,
    {
        out.push(token_to_string(&tokens[k]));
        k = k + 1;
    }
    out
}

} // verus!
