//! From a transaction request to a decoded call: the transaction is decoded,
//! then its call data is read against the given interface, or handed back for
//! a signature lookup under its selector.
use vstd::prelude::*;
use vstd::string::*;
use ethabi::Token;
use crate::codec::{token_text, tokens_to_strings};
use crate::error::DecodeError;
use crate::hex_text::{encode_hex, hex_encoded};
use crate::transaction::{decode_transaction, text_decoded, Transaction};
use crate::with_abi::{
    call_decoded, interface_functions, interface_text_admitted, CalldataDecoder, FunctionView,
};
use crate::without_abi::{
    decode_without_abi, decoded_without_abi,
};
use vstd::utf8::encode_utf8;

verus! {

/// What a transaction request comes to: the decoded parts, or an error alone.
pub enum CallDecoding {
    /// The transaction itself could not be decoded.
    TransactionFailed(DecodeError),
    /// The interface description could not be read.
    InterfaceFailed(DecodeError),
    /// The call, read against the interface: the function's name and its
    /// parameters as text.
    Decoded(Transaction, String, Vec<String>),
    /// The call could not be read against the interface.
    CallFailed(DecodeError),
    /// No interface was given: the call data, in hex, is to be read against a
    /// signature looked up under its selector.
    NeedsLookup(Transaction, String),
}

/// Whether shown parameters are the text of values.
pub open spec fn shown_as(shown: Seq<String>, tokens: Seq<Token>) -> bool {
    &&& shown.len() == tokens.len()
    &&& forall|k: int| 0 <= k < shown.len() ==> (#[trigger] shown[k])@ == token_text(tokens[k])
}

/// Whether interface text can be read, and the functions it declares.
pub open spec fn interface_read(json: Seq<u8>) -> bool {
    interface_text_admitted(json) && interface_functions(json) is Some
}

/// Whether call data reads, against functions, as a call of `name` whose
/// parameters are shown as `shown`.
pub open spec fn decoded_against(
    fs: Seq<FunctionView>,
    data: Seq<u8>,
    name: String,
    shown: Seq<String>,
) -> bool {
    exists|ts: Vec<Token>| #[trigger] call_decoded(fs, data, Ok((name, ts))) && shown_as(shown, ts@)
}

/// Whether hex transaction text decodes to some transaction.
pub open spec fn transaction_decodes(text: Seq<u8>) -> bool {
    exists|tx: Transaction| #[trigger] text_decoded(text, Ok(tx))
}

/// Whether the call data of the transaction that hex text decodes to fails
/// with `e` against functions.
pub open spec fn call_fails(text: Seq<u8>, fs: Seq<FunctionView>, e: DecodeError) -> bool {
    exists|tx: Transaction| #[trigger] text_decoded(text, Ok(tx)) && call_decoded(fs, tx.data@, Err(e))
}

/// Decodes a transaction in hex and, where an interface description is given,
/// the call that it carries against the functions that the description declares.
pub fn decode_request(txn: &str, abi_json: Option<&str>) -> (r: CallDecoding)
    ensures
        r is TransactionFailed ==> text_decoded(txn.spec_bytes(), Err(r->TransactionFailed_0)),
        r is InterfaceFailed ==> {
            &&& abi_json is Some
            &&& transaction_decodes(txn.spec_bytes())
            &&& !interface_read(abi_json->Some_0.spec_bytes())
            &&& r->InterfaceFailed_0 is MalformedInput
        },
        r is Decoded ==> {
            &&& abi_json is Some
            &&& text_decoded(txn.spec_bytes(), Ok(r->Decoded_0))
            &&& interface_read(abi_json->Some_0.spec_bytes())
            &&& decoded_against(
                interface_functions(abi_json->Some_0.spec_bytes())->Some_0,
                r->Decoded_0.data@,
                r->Decoded_1,
                r->Decoded_2@,
            )
        },
        r is CallFailed ==> {
            &&& abi_json is Some
            &&& interface_read(abi_json->Some_0.spec_bytes())
            &&& call_fails(
                txn.spec_bytes(),
                interface_functions(abi_json->Some_0.spec_bytes())->Some_0,
                r->CallFailed_0,
            )
        },
        r is NeedsLookup ==> abi_json is None && text_decoded(txn.spec_bytes(), Ok(r->NeedsLookup_0))
            && r->NeedsLookup_1@ == hex_encoded(r->NeedsLookup_0.data@),
        abi_json is Some && interface_read(abi_json->Some_0.spec_bytes()) ==> !(r is InterfaceFailed),
{
    let tx = match decode_transaction(txn) {
        Ok(tx) => tx,
        Err(e) => {
            return CallDecoding::TransactionFailed(e);
        },
    };
    match abi_json {
        Some(json) => {
            let decoder = match CalldataDecoder::new(json) {
                Ok(d) => d,
                Err(e) => {
                    assert(text_decoded(txn.spec_bytes(), Ok(tx)));
                    return CallDecoding::InterfaceFailed(e);
                },
            };
            match decoder.decode_call(tx.data.as_slice()) {
                Ok((name, tokens)) => {
                    let shown = tokens_to_strings(&tokens);
                    assert(call_decoded(
                        interface_functions(json.spec_bytes())->Some_0,
                        tx.data@,
                        Ok((name, tokens)),
                    ) && shown_as(shown@, tokens@));
                    assert(decoded_against(
                        interface_functions(json.spec_bytes())->Some_0,
                        tx.data@,
                        name,
                        shown@,
                    ));
                    CallDecoding::Decoded(tx, name, shown)
                },
                Err(e) => {
                    assert(text_decoded(txn.spec_bytes(), Ok(tx)) && call_decoded(
                        interface_functions(json.spec_bytes())->Some_0,
                        tx.data@,
                        Err(e),
                    ));
                    CallDecoding::CallFailed(e)
                },
            }
        },
        None => {
            let calldata = encode_hex(tx.data.as_slice());
            CallDecoding::NeedsLookup(tx, calldata)
        },
    }
}

/// Finishes decoding without an interface, once the signature lookup has
/// answered: gives the signature and the parameters as text, or the failure.
pub fn finish_lookup(call_data: &str, signature: Result<String, DecodeError>) -> (r: (
    Result<(), DecodeError>,
    Option<String>,
    Option<Vec<String>>,
))
    ensures
        signature is Err ==> r.0 == Err::<(), DecodeError>(signature->Err_0) && r.1 is None
            && r.2 is None,
        signature is Ok && signature->Ok_0@.len() == 0 ==> r.0 == Err::<(), DecodeError>(
            DecodeError::NoSignatureFound,
        ) && r.1 is None && r.2 is None,
        r.0 is Err ==> r.1 is None && r.2 is None,
        r.0 is Ok ==> r.1 is Some && r.2 is Some,
        signature is Ok && signature->Ok_0@.len() > 0 ==> {
            &&& r.0 is Ok ==> r.1->Some_0@ == signature->Ok_0@
            &&& r.0 is Err ==> decoded_without_abi(
                encode_utf8(signature->Ok_0@),
                call_data.spec_bytes(),
                Err(r.0->Err_0),
            )
            &&& r.0 is Ok ==> exists|tokens: Seq<Token>|
                {
                    &&& #[trigger] decoded_without_abi(
                        encode_utf8(signature->Ok_0@),
                        call_data.spec_bytes(),
                        Ok(tokens),
                    )
                    &&& shown_as(r.2->Some_0@, tokens)
                }
        },
{
    let signature = match signature {
        Ok(s) => s,
        Err(e) => {
            return (Err(e), None, None);
        },
    };
    if signature.as_str().is_empty() {
        return (Err(DecodeError::NoSignatureFound), None, None);
    }
    let (outcome, params) = decode_without_abi(signature.as_str(), call_data);
    match outcome {
        Ok(()) => (Ok(()), Some(signature), Some(params)),
        Err(e) => (Err(e), None, None),
    }
}

} // verus!
