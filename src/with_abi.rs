//! Call data decoding against a known interface: the function whose selector
//! matches the call's first four bytes gives the parameter types.
use vstd::prelude::*;
use vstd::string::*;
use vstd::utf8::encode_utf8;
use ethabi::{ParamType, Token};
use crate::codec::{abi_decoding, all_sizes_bounded, decode_tokens, types_sizes_bounded};
use crate::error::DecodeError;
use crate::hex_text::{decode_hex, hex_decoded, is_hex_text, remove_0x_prefix};
use crate::selector::{short_signature, selector_of, signature_text};
use crate::signature::{abi_types, digits_start};
use crate::transaction::hex_body;

pub use crate::codec::token_to_string;

verus! {

/// A function of an interface: its name and its input types.
pub struct FunctionSignature {
    pub name: String,
    pub inputs: Vec<ParamType>,
}

/// A function as a name and input types.
pub type FunctionView = (Seq<char>, Seq<ParamType>);

/// The functions that an interface description in JSON declares, in the order
/// in which the description is read, where it can be read.
pub uninterp spec fn interface_functions(json: Seq<u8>) -> Option<Seq<FunctionView>>;

/// The name and input types of each function.
pub open spec fn functions_view(fs: Seq<FunctionSignature>) -> Seq<FunctionView> {
    Seq::new(fs.len(), |i: int| (fs[i].name@, fs[i].inputs@))
}

/// The string state after one more byte of JSON text: whether inside a
/// string, and whether a backslash escapes the next byte.
pub open spec fn step_state(st: (bool, bool), c: u8) -> (bool, bool) {
    let (inside, escaped) = st;
    if !inside {
        (c == 34, false)
    } else if escaped {
        (true, false)
    } else if c == 92 {
        (true, true)
    } else if c == 34 {
        (false, false)
    } else {
        (true, false)
    }
}

/// The string state at a position of JSON text.
pub open spec fn string_state(b: Seq<u8>, i: int) -> (bool, bool)
    decreases i,
{
    if i <= 0 || i > b.len() {
        (false, false)
    } else {
        step_state(string_state(b, i - 1), b[i - 1])
    }
}

/// The first position from `i` on that holds the closing quote of a string;
/// the length where none does.
pub open spec fn string_end(b: Seq<u8>, i: int) -> int
    decreases b.len() - i,
{
    if i < 0 || i >= b.len() {
        b.len() as int
    } else if b[i] == 34 && string_state(b, i) == (true, false) {
        i
    } else {
        string_end(b, i + 1)
    }
}

/// Whether the `]` at a position closes a `[` followed by digits only.
pub open spec fn closes_bracket(b: Seq<u8>, i: int) -> bool {
    let d = digits_start(b, i);
    d >= 1 && b[d - 1] == 91
}

/// Whether one byte of interface text is admitted: no `\u` escape; a
/// non-ASCII byte only in a string that does not end in `)` or `]`; and inside
/// a string a `]` only as the end of `[` and digits.
pub open spec fn admitted_at(b: Seq<u8>, i: int) -> bool {
    &&& !(b[i] == 92 && i + 1 < b.len() && b[i + 1] == 117)
    &&& (b[i] >= 128 ==> {
        let q = string_end(b, i);
        q < b.len() && b[q - 1] != 41 && b[q - 1] != 93
    })
    &&& (b[i] == 93 && string_state(b, i).0 ==> closes_bracket(b, i))
}

/// Interface text that the reader is given. ethabi's type reader slices a type
/// that ends in `)` or `]` at character counts taken as byte positions, and
/// takes a type ending in `]` to hold a `[` before it. So a string with a
/// non-ASCII character may not end in `)` or `]`, no `\u` escape is admitted,
/// and every `]` inside a string closes a `[` that only digits follow.
pub open spec fn interface_text_admitted(b: Seq<u8>) -> bool {
    forall|i: int| 0 <= i < b.len() ==> #[trigger] admitted_at(b, i)
}

fn next_state(inside: bool, escaped: bool, c: u8) -> (r: (bool, bool))
    ensures
        r == step_state((inside, escaped), c),
{
    if !inside {
        (c == 34u8, false)
    } else if escaped {
        (true, false)
    } else if c == 92u8 {
        (true, true)
    } else if c == 34u8 {
        (false, false)
    } else {
        (true, false)
    }
}

/// Whether the string that holds position `i` ends with a closing quote not
/// preceded by `)` or `]`.
fn string_ends_plainly(b: &[u8], i: usize, inside: bool, escaped: bool) -> (r: bool)
    requires
        i < b@.len(),
        b@[i as int] != 34,
        string_state(b@, i as int) == (inside, escaped),
    ensures
        r == {
            let q = string_end(b@, i as int);
            q < b@.len() && b@[q - 1] != 41 && b@[q - 1] != 93
        },
{
    let (mut ins, mut esc) = next_state(inside, escaped, b[i]);
    let mut q: usize = i + 1;
    while q < b.len() && !(b[q] == 34u8 && ins && !esc)
        invariant
            i < q <= b@.len(),
            string_state(b@, q as int) == (ins, esc),
            string_end(b@, q as int) == string_end(b@, i as int),
        decreases b@.len() - q,
    {
        let (n_ins, n_esc) = next_state(ins, esc, b[q]);
        ins = n_ins;
        esc = n_esc;
        q = q + 1;
    }
    q < b.len() && b[q - 1] != 41u8 && b[q - 1] != 93u8
}

/// Relies on ethabi's `Contract::load`, which reads an interface description
/// from JSON (its functions kept in a `BTreeMap`, so the result depends on the
/// text alone); each function is handed out as its name and input types.
/// Text is admitted only where its type reader cannot panic (see
/// `interface_text_admitted`).
#[verifier::external_body]
fn load_functions(abi_json: &str) -> (r: Result<Vec<FunctionSignature>, ethabi::Error>)
    requires
        interface_text_admitted(abi_json.spec_bytes()),
    ensures
        r is Ok <==> interface_functions(abi_json.spec_bytes()) is Some,
        r is Ok ==> functions_view(r->Ok_0@) == interface_functions(abi_json.spec_bytes())->Some_0,
{
    ethabi::Contract::load(abi_json.as_bytes()).map(
        |c|
            c.functions().map(
                |f|
                    FunctionSignature {
                        name: f.name.clone(),
                        inputs: f.inputs.iter().map(|p| p.kind.clone()).collect(),
                    },
            ).collect(),
    )
}

/// Checks that interface text is admitted to the reader.
fn admitted_text(b: &[u8]) -> (r: bool)
    ensures
        r == interface_text_admitted(b@),
{
    let mut inside = false;
    let mut escaped = false;
    let mut i: usize = 0;
    while i < b.len()
        invariant
            0 <= i <= b@.len(),
            string_state(b@, i as int) == (inside, escaped),
            forall|k: int| 0 <= k < i ==> #[trigger] admitted_at(b@, k),
        decreases b@.len() - i,
    {
        let c = b[i];
        let mut ok = !(c == 92u8 && i + 1 < b.len() && b[i + 1] == 117u8);
        if ok && c >= 128u8 {
            ok = string_ends_plainly(b, i, inside, escaped);
        }
        if ok && c == 93u8 && inside {
            let mut d: usize = i;
            while d > 0 && 48u8 <= b[d - 1] && b[d - 1] <= 57u8
                invariant
                    d <= i < b@.len(),
                    digits_start(b@, d as int) == digits_start(b@, i as int),
                decreases d,
            {
                d = d - 1;
            }
            ok = d >= 1 && b[d - 1] == 91u8;
        }
        if !ok {
            assert(!admitted_at(b@, i as int));
            return false;
        }
        assert(admitted_at(b@, i as int));
        let (n_inside, n_escaped) = next_state(inside, escaped, c);
        inside = n_inside;
        escaped = n_escaped;
        i = i + 1;
    }
    true
}

/// The selector of a function of an interface.
pub open spec fn selector_of_function(f: FunctionView) -> Seq<u8> {
    selector_of(signature_text(encode_utf8(f.0), abi_types(f.1)))
}

/// The first function from `i` on whose selector is `sel`; the length where none is.
pub open spec fn first_match(fs: Seq<FunctionView>, sel: Seq<u8>, i: int) -> int
    decreases fs.len() - i,
{
    if i < 0 || i >= fs.len() {
        fs.len() as int
    } else if selector_of_function(fs[i]) == sel {
        i
    } else {
        first_match(fs, sel, i + 1)
    }
}

/// What decoding call data against functions gives.
pub open spec fn call_decoded(
    fs: Seq<FunctionView>,
    data: Seq<u8>,
    r: Result<(String, Vec<Token>), DecodeError>,
) -> bool {
    if data.len() < 4 {
        r == Err::<(String, Vec<Token>), DecodeError>(DecodeError::CalldataTooShort)
    } else {
        let k = first_match(fs, data.subrange(0, 4), 0);
        if k >= fs.len() {
            r == Err::<(String, Vec<Token>), DecodeError>(DecodeError::FunctionNotFound)
        } else {
            if !all_sizes_bounded(fs[k].1) {
                r is Err && r->Err_0 is UnsupportedType
            } else {
            match abi_decoding(fs[k].1, data.subrange(4, data.len() as int)) {
                None => r == Err::<(String, Vec<Token>), DecodeError>(DecodeError::Truncated),
                Some(tokens) => {
                    &&& r is Ok
                    &&& r->Ok_0.0@ == fs[k].0
                    &&& r->Ok_0.1@ == tokens
                },
            }
            }
        }
    }
}

/// Decodes call data against the functions of an interface description.
pub struct CalldataDecoder {
    pub functions: Vec<FunctionSignature>,
}

impl CalldataDecoder {
    /// Reads an interface description in JSON.
    pub fn new(abi_json: &str) -> (r: Result<Self, DecodeError>)
        ensures
            r is Ok <==> interface_text_admitted(abi_json.spec_bytes()) && interface_functions(
                abi_json.spec_bytes(),
            ) is Some,
            r is Ok ==> functions_view(r->Ok_0.functions@) == interface_functions(
                abi_json.spec_bytes(),
            )->Some_0,
            r is Err ==> r->Err_0 is MalformedInput,
    {
        if !admitted_text(abi_json.as_bytes()) {
            return Err(DecodeError::MalformedInput);
        }
        match load_functions(abi_json) {
            Ok(functions) => Ok(CalldataDecoder { functions }),
            Err(_) => Err(DecodeError::MalformedInput),
        }
    }

    /// A decoder for functions given directly.
    pub fn from_functions(functions: Vec<FunctionSignature>) -> (r: Self)
        ensures
            r.functions@ == functions@,
    {
        CalldataDecoder { functions }
    }

    /// Decodes call data bytes: the function named by the selector, and its
    /// parameters.
    pub fn decode_call(&self, data: &[u8]) -> (r: Result<(String, Vec<Token>), DecodeError>)
        ensures
            call_decoded(functions_view(self.functions@), data@, r),
    {
        if data.len() < 4 {
            return Err(DecodeError::CalldataTooShort);
        }
        let ghost sel = data@.subrange(0, 4);
        let mut k: usize = 0;
        while k < self.functions.len()
            invariant
                0 <= k <= self.functions@.len(),
                data@.len() >= 4,
                sel == data@.subrange(0, 4),
                first_match(functions_view(self.functions@), sel, k as int) == first_match(
                    functions_view(self.functions@),
                    sel,
                    0,
                ),
            decreases self.functions@.len() - k,
        {
            let f = &self.functions[k];
            let s = short_signature(f.name.as_str(), f.inputs.as_slice());
            if s[0] == data[0] && s[1] == data[1] && s[2] == data[2] && s[3] == data[3] {
                assert(s@ == sel);
                if !types_sizes_bounded(&f.inputs) {
                    return Err(DecodeError::UnsupportedType(vstd::slice::slice_to_vec(f.name.as_str().as_bytes())));
                }
                return match decode_tokens(f.inputs.as_slice(), &data[4..data.len()]) {
                    Ok(tokens) => Ok((f.name.clone(), tokens)),
                    Err(_) => Err(DecodeError::Truncated),
                };
            }
            assert(s@[0] != sel[0] || s@[1] != sel[1] || s@[2] != sel[2] || s@[3] != sel[3]);
            k = k + 1;
        }
        Err(DecodeError::FunctionNotFound)
    }

    /// Decodes call data written in hex, with or without a `0x` prefix.
    pub fn decode_calldata(&self, calldata: &str) -> (r: Result<(String, Vec<Token>), DecodeError>)
        ensures
            is_hex_text(hex_body(calldata.spec_bytes())) ==> call_decoded(
                functions_view(self.functions@),
                hex_decoded(hex_body(calldata.spec_bytes())),
                r,
            ),
            !is_hex_text(hex_body(calldata.spec_bytes())) ==> r is Err && r->Err_0 is MalformedInput,
    {
        let body = remove_0x_prefix(calldata);
        match decode_hex(body.as_bytes()) {
            Ok(data) => self.decode_call(data.as_slice()),
            Err(_) => Err(DecodeError::MalformedInput),
        }
    }
}

} // verus!
