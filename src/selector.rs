//! Canonical signature text and the 4-byte selector hashed from it.
use vstd::prelude::*;
use vstd::string::*;
use ethabi::ParamType;
use tiny_keccak::Hasher;
use crate::signature::{
    AbiType, abi_types, word_address, word_bool, word_string, word_bytes, word_uint,
    word_int,
};

verus! {

/// The Keccak-256 digest of some bytes.
pub uninterp spec fn keccak256(data: Seq<u8>) -> Seq<u8>;

/// Relies on tiny_keccak's Keccak-256 hasher: the 32-byte digest of the input.
#[verifier::external_body]
fn keccak_digest(data: &[u8]) -> (r: [u8; 32])
    ensures
        r@ == keccak256(data@),
{
    let mut hasher = tiny_keccak::Keccak::v256();
    hasher.update(data);
    let mut digest = [0u8; 32];
    hasher.finalize(&mut digest);
    digest
}

/// The selector of a signature text: the first four bytes of its digest.
pub open spec fn selector_of(text: Seq<u8>) -> Seq<u8> {
    keccak256(text).subrange(0, 4)
}

/// Hashes a signature text to its selector.
pub fn compute_function_selector(signature: &[u8]) -> (r: [u8; 4])
    ensures
        r@ == selector_of(signature@),
{
    let digest = keccak_digest(signature);
    let r = [digest[0], digest[1], digest[2], digest[3]];
    assert(r@ == selector_of(signature@));
    r
}

/// A number in decimal digits, without leading zeros.
pub open spec fn decimal_text(n: nat) -> Seq<u8>
    decreases n,
{
    if n < 10 {
        seq![(48 + n) as u8]
    } else {
        decimal_text(n / 10).push((48 + n % 10) as u8)
    }
}

/// A type as the canonical signature writes it.
pub open spec fn type_text(t: AbiType) -> Seq<u8>
    decreases t,
{
    match t {
        AbiType::Address => word_address(),
        AbiType::Bool => word_bool(),
        AbiType::Str => word_string(),
        AbiType::Bytes => word_bytes(),
        AbiType::FixedBytes(n) => word_bytes() + decimal_text(n as nat),
        AbiType::Uint(n) => word_uint() + decimal_text(n as nat),
        AbiType::Int(n) => word_int() + decimal_text(n as nat),
        AbiType::Array(inner) => type_text(*inner) + seq![91u8, 93],
        AbiType::FixedArray(inner, n) => type_text(*inner) + seq![91u8] + decimal_text(n as nat)
            + seq![93u8],
        AbiType::Tuple(members) => seq![40u8] + list_text(members) + seq![41u8],
    }
}

/// Types written one after another, separated by commas.
pub open spec fn list_text(ts: Seq<AbiType>) -> Seq<u8>
    decreases ts,
{
    if ts.len() == 0 {
        Seq::empty()
    } else if ts.len() == 1 {
        type_text(ts[0])
    } else {
        list_text(ts.drop_last()) + seq![44u8] + type_text(ts.last())
    }
}

/// The canonical signature: the name, then the parameter types in parentheses,
/// with no spaces and no parameter names.
pub open spec fn signature_text(name: Seq<u8>, inputs: Seq<AbiType>) -> Seq<u8> {
    name + seq![40u8] + list_text(inputs) + seq![41u8]
}

/// Relies on ethabi's `short_signature`: the first four bytes of the
/// Keccak-256 digest of `name(type,...)`, each type written by ethabi's `Writer`
/// as `type_text` states it.
#[verifier::external_body]
pub(crate) fn short_signature(name: &str, params: &[ParamType]) -> (r: [u8; 4])
    ensures
        r@ == selector_of(signature_text(name.spec_bytes(), abi_types(params@))),
{
    ethabi::short_signature(name, params)
}

} // verus!
