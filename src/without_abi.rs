//! Call data decoding without an interface: a signature found for the selector
//! (in a public registry, looked up by the caller) is parsed, checked against
//! the selector, and gives the parameter types.
use vstd::prelude::*;
use vstd::string::*;
use ethabi::{ParamType, Token};
use crate::codec::{
    abi_decoding, all_sizes_bounded, decode_tokens, token_text, tokens_to_strings, types_sizes_bounded,
};
use crate::error::DecodeError;
use crate::hex_text::{
    decode_hex, hex_decoded, hex_digit_value, is_hex_text, lemma_boundary_after_ascii, remove_0x_prefix,
};
use vstd::utf8::*;
use crate::selector::{short_signature, selector_of, signature_text};
use crate::signature::{abi_types, fault_of, parse_signature, signature_of};
use crate::transaction::hex_body;

pub use crate::codec::token_to_string;

verus! {

broadcast use vstd::utf8::group_utf8_lib;

/// What decoding call data against a parsed signature gives.
pub open spec fn checked_call_decoded(
    name: Seq<u8>,
    types: Seq<ParamType>,
    data: Seq<u8>,
    r: Result<Vec<Token>, DecodeError>,
) -> bool {
    if data.len() < 4 {
        r == Err::<Vec<Token>, DecodeError>(DecodeError::CalldataTooShort)
    } else if selector_of(signature_text(name, abi_types(types))) != data.subrange(0, 4) {
        r == Err::<Vec<Token>, DecodeError>(DecodeError::SelectorMismatch)
    } else if !all_sizes_bounded(types) {
        r is Err && r->Err_0 is UnsupportedType
    } else {
        match abi_decoding(types, data.subrange(4, data.len() as int)) {
            None => r == Err::<Vec<Token>, DecodeError>(DecodeError::Truncated),
            Some(tokens) => r is Ok && r->Ok_0@ == tokens,
        }
    }
}

/// Decodes call data against one signature.
pub struct CalldataDecoder {
    /// The signature as it was given.
    pub function_signature: String,
    /// The function's name.
    pub name: String,
    /// The function's parameter types.
    pub param_types: Vec<ParamType>,
}

impl CalldataDecoder {
    /// Parses a signature such as `approve(address,uint256)`.
    pub fn new(function_signature: &str) -> (r: Result<Self, DecodeError>)
        ensures
            match r {
                Ok(d) => {
                    let g = signature_of(function_signature.spec_bytes());
                    &&& g is Ok
                    &&& d.function_signature@ == function_signature@
                    &&& encode_utf8(d.name@) == function_signature.spec_bytes().subrange(
                        g->Ok_0.0,
                        g->Ok_0.1,
                    )
                    &&& abi_types(d.param_types@) == g->Ok_0.2
                },
                Err(e) => signature_of(function_signature.spec_bytes()) == Err::<
                    (int, int, Seq<crate::signature::AbiType>),
                    crate::signature::TypeFault,
                >(fault_of(e)),
            },
    {
        match parse_signature(function_signature) {
            Ok((name, param_types)) => Ok(
                CalldataDecoder {
                    function_signature: String::from_str(function_signature),
                    name,
                    param_types,
                },
            ),
            Err(e) => Err(e),
        }
    }

    /// Hashes a signature text to its selector.
    pub fn compute_function_selector(&self, signature: &str) -> (r: [u8; 4])
        ensures
            r@ == selector_of(signature.spec_bytes()),
    {
        crate::selector::compute_function_selector(signature.as_bytes())
    }

    /// Decodes call data bytes, after checking that the selector is the one of
    /// the canonical form of the signature.
    pub fn decode_call(&self, data: &[u8]) -> (r: Result<Vec<Token>, DecodeError>)
        ensures
            checked_call_decoded(encode_utf8(self.name@), self.param_types@, data@, r),
    {
        if data.len() < 4 {
            return Err(DecodeError::CalldataTooShort);
        }
        let expected = short_signature(self.name.as_str(), self.param_types.as_slice());
        if !(expected[0] == data[0] && expected[1] == data[1] && expected[2] == data[2]
            && expected[3] == data[3]) {
            assert(expected@[0] != data@[0] || expected@[1] != data@[1] || expected@[2]
                != data@[2] || expected@[3] != data@[3]);
            assert(expected@ != data@.subrange(0, 4));
            return Err(DecodeError::SelectorMismatch);
        }
        assert(expected@ == data@.subrange(0, 4));
        if !types_sizes_bounded(&self.param_types) {
            return Err(DecodeError::UnsupportedType(vstd::slice::slice_to_vec(self.name.as_str().as_bytes())));
        }
        match decode_tokens(self.param_types.as_slice(), &data[4..data.len()]) {
            Ok(tokens) => Ok(tokens),
            Err(_) => Err(DecodeError::Truncated),
        }
    }

    /// Decodes call data written in hex, with or without a `0x` prefix.
    pub fn decode_calldata(&self, calldata: &str) -> (r: Result<Vec<Token>, DecodeError>)
        ensures
            is_hex_text(hex_body(calldata.spec_bytes())) ==> checked_call_decoded(
                encode_utf8(self.name@),
                self.param_types@,
                hex_decoded(hex_body(calldata.spec_bytes())),
                r,
            ),
            !is_hex_text(hex_body(calldata.spec_bytes())) ==> r is Err && r->Err_0 is MalformedInput,
    {
        let body = remove_0x_prefix(calldata);
        match decode_hex(body.as_bytes()) {
            Ok(data) => self.decode_call(data.as_slice()),
            Err(_) => Err(DecodeError::MalformedInput),
        }
    }
}

/// What reading the selector of hex call data gives: `0x` and the first eight
/// hex digits after any `0x` prefix, as they are written.
pub open spec fn selector_key_read(text: Seq<u8>, r: Result<String, DecodeError>) -> bool {
    let body = hex_body(text);
    if body.len() < 8 {
        r == Err::<String, DecodeError>(DecodeError::CalldataTooShort)
    } else if !is_hex_text(body.subrange(0, 8)) {
        r == Err::<String, DecodeError>(DecodeError::MalformedInput)
    } else {
        &&& r is Ok
        &&& r->Ok_0@.len() >= 2
        &&& r->Ok_0@.subrange(0, 2) == "0x"@
        &&& encode_utf8(r->Ok_0@.subrange(2, r->Ok_0@.len() as int)) == body.subrange(0, 8)
    }
}

/// The selector of hex call data, as `0x` and eight hex digits: the key under
/// which a registry lists signatures.
pub fn get_selector_from_call_data(call_data: &str) -> (r: Result<String, DecodeError>)
    ensures
        selector_key_read(call_data.spec_bytes(), r),
{
    let rest = remove_0x_prefix(call_data);
    let body = rest.as_bytes();
    if body.len() < 8 {
        return Err(DecodeError::CalldataTooShort);
    }
    if decode_hex(&body[0..8]).is_err() {
        return Err(DecodeError::MalformedInput);
    }
    proof {
        let b = body@;
        assert forall|k: int| 0 <= k < 8 implies b[k] < 128 by {
            assert(b.subrange(0, 8)[k] == b[k]);
            assert(hex_digit_value(b.subrange(0, 8)[k]) is Some);
        }
        lemma_boundary_after_ascii(b, 8);
    }
    let (head, _tail) = rest.split_at(8);
    proof {
        reveal_strlit("0x");
    }
    let mut out = String::from_str("0x");
    out.append(head);
    assert(out@.subrange(2, out@.len() as int) == head@);
    assert(encode_utf8(head@) == body@.subrange(0, 8));
    assert(out@.subrange(0, 2) == "0x"@);
    assert(body@ == hex_body(call_data.spec_bytes()));
    Ok(out)
}

/// The signature that a registry answer gives: the first of its candidates.
pub fn signature_from_registry(count: usize, results: &Vec<String>) -> (r: Result<String, DecodeError>)
    ensures
        count == 0 || results@.len() == 0 ==> r == Err::<String, DecodeError>(
            DecodeError::NoSignatureFound,
        ),
        count > 0 && results@.len() > 0 ==> r is Ok && r->Ok_0@ == results@[0]@,
{
    if count == 0 || results.len() == 0 {
        Err(DecodeError::NoSignatureFound)
    } else {
        Ok(results[0].clone())
    }
}

/// Whether a decoder holds the name and types that a signature text parses to.
pub open spec fn parsed_from(text: Seq<u8>, d: CalldataDecoder) -> bool {
    let g = signature_of(text);
    &&& g is Ok
    &&& encode_utf8(d.name@) == text.subrange(g->Ok_0.0, g->Ok_0.1)
    &&& abi_types(d.param_types@) == g->Ok_0.2
}

/// What decoding hex call data against a signature text comes to.
pub open spec fn decoded_without_abi(
    signature: Seq<u8>,
    calldata: Seq<u8>,
    r: Result<Seq<Token>, DecodeError>,
) -> bool {
    let body = hex_body(calldata);
    if signature_of(signature) is Err {
        r is Err && signature_of(signature) == Err::<
            (int, int, Seq<crate::signature::AbiType>),
            crate::signature::TypeFault,
        >(fault_of(r->Err_0))
    } else if !is_hex_text(body) {
        r == Err::<Seq<Token>, DecodeError>(DecodeError::MalformedInput)
    } else {
        exists|d: CalldataDecoder|
            {
                &&& #[trigger] parsed_from(signature, d)
                &&& match r {
                    Ok(tokens) => exists|v: Vec<Token>|
                        v@ == tokens && #[trigger] checked_call_decoded(
                            encode_utf8(d.name@),
                            d.param_types@,
                            hex_decoded(body),
                            Ok(v),
                        ),
                    Err(e) => checked_call_decoded(
                        encode_utf8(d.name@),
                        d.param_types@,
                        hex_decoded(body),
                        Err(e),
                    ),
                }
            }
    }
}

/// Parses a signature and decodes hex call data against it; the parameters are
/// shown as text.
pub fn decode_without_abi(function_signature: &str, calldata: &str) -> (r: (
    Result<(), DecodeError>,
    Vec<String>,
))
    ensures
        r.0 is Err ==> r.1@.len() == 0 && decoded_without_abi(
            function_signature.spec_bytes(),
            calldata.spec_bytes(),
            Err(r.0->Err_0),
        ),
        r.0 is Ok ==> exists|tokens: Seq<Token>|
            {
                &&& #[trigger] decoded_without_abi(
                    function_signature.spec_bytes(),
                    calldata.spec_bytes(),
                    Ok(tokens),
                )
                &&& r.1@.len() == tokens.len()
                &&& forall|k: int| 0 <= k < r.1@.len() ==> (#[trigger] r.1@[k])@ == token_text(tokens[k])
            },
{
    let decoder = match CalldataDecoder::new(function_signature) {
        Ok(d) => d,
        Err(e) => {
            return (Err(e), Vec::new());
        },
    };
    assert(parsed_from(function_signature.spec_bytes(), decoder));
    let tokens = match decoder.decode_calldata(calldata) {
        Ok(tokens) => tokens,
        Err(e) => {
            return (Err(e), Vec::new());
        },
    };
    let shown = tokens_to_strings(&tokens);
    assert(decoded_without_abi(function_signature.spec_bytes(), calldata.spec_bytes(), Ok(tokens@)));
    (Ok(()), shown)
}

} // verus!
