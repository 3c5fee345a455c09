//! The types of outside crates that the library holds or passes on.
use vstd::prelude::*;

verus! {

/// A hex decoding error; the library only passes it on.
#[verifier::external_type_specification]
#[verifier::external_body]
pub struct ExFromHexError(hex::FromHexError);

/// std's integer parsing error; the library only passes it on.
#[verifier::external_type_specification]
#[verifier::external_body]
pub struct ExParseIntError(core::num::ParseIntError);

/// An ABI type as `ethabi` writes it: the library builds and reads these.
#[verifier::external_type_specification]
pub struct ExParamType(ethabi::ParamType);

/// An ABI value as `ethabi` holds it: the library builds and reads these.
#[verifier::external_type_specification]
pub struct ExToken(ethabi::Token);

/// A 20-byte address, its bytes in order.
#[verifier::external_type_specification]
pub struct ExH160(ethereum_types::H160);

/// A 32-byte hash, its bytes in order.
#[verifier::external_type_specification]
pub struct ExH256(ethereum_types::H256);

/// A 256-bit unsigned integer, as four 64-bit words, least significant first.
#[verifier::external_type_specification]
pub struct ExU256(ethereum_types::U256);

/// Why `rlp` refused an item.
#[verifier::external_type_specification]
pub struct ExDecoderError(rlp::DecoderError);

/// An `ethabi` error; the library only passes it on.
#[verifier::external_type_specification]
#[verifier::external_body]
pub struct ExAbiError(ethabi::Error);

} // verus!
