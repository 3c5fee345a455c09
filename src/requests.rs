//! The plain data that requests carry in and responses carry out.
use vstd::prelude::*;
use crate::transaction::Transaction;

verus! {

/// A transaction to decode, in hex, and an optional interface description in JSON.
pub struct TransactionRequest {
    pub txn: String,
    pub abi_json: Option<String>,
}

/// The outcome of a transaction request: either the decoded parts or an error.
pub struct TransactionDecodeResult {
    pub txn: Option<Transaction>,
    pub function_called: Option<String>,
    pub parameters: Option<Vec<String>>,
    pub err: Option<String>,
}

/// An interface description in JSON, to be laid out as a contract outline.
pub struct AbiRequest {
    pub abi: String,
}

/// Contract source to be read back into an interface description.
pub struct SolidityRequest {
    pub solidity_code: String,
}

/// A function of an interface, laid out for display.
pub struct FormattedContractFunction {
    pub name: String,
    pub inputs: Vec<FormattedParameter>,
    pub outputs: Vec<FormattedParameter>,
    pub state_mutability: String,
    pub function_type: String,
}

/// A parameter of a function, with the members of a tuple type.
pub struct FormattedParameter {
    pub name: String,
    pub parameter_type: String,
    pub components: Option<Vec<FormattedParameter>>,
}

/// An interface laid out as a contract outline.
pub struct FormattedResponse {
    pub contract_name: String,
    pub version: String,
    pub functions: Vec<FormattedContractFunction>,
    pub events: Vec<FormattedEvent>,
    pub constructor: Option<FormattedContractFunction>,
}

/// An event of an interface.
pub struct FormattedEvent {
    pub name: String,
    pub inputs: Vec<FormattedEventParameter>,
    pub anonymous: bool,
}

/// A parameter of an event.
pub struct FormattedEventParameter {
    pub name: String,
    pub parameter_type: String,
    pub indexed: bool,
}

/// A block whose timestamp is asked for, on a chain.
pub struct BlockRequest {
    pub block_number: u64,
    pub chain_id: u64,
}

/// A block's timestamp.
pub struct BlockResponse {
    pub timestamp: u64,
}

/// A string and the case to convert it to.
pub struct StringRequest {
    pub input_string: String,
    pub conversion_type: String,
}

/// A converted string.
pub struct StringResponse {
    pub output_string: String,
}

/// An amount and the unit it is given in.
pub struct ConversionRequest {
    pub value: String,
    pub from_unit: String,
}

/// An amount in each unit.
pub struct ConversionResponse {
    pub wei: String,
    pub gwei: String,
    pub eth: String,
}

} // verus!
