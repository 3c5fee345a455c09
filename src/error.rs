//! The ways in which decoding and encoding fail.
use vstd::prelude::*;

verus! {

/// A field of a transaction, named in a field decoding error.
#[derive(Debug, Clone, Copy, PartialEq, Eq)]
pub enum TxField {
    ChainId,
    Nonce,
    GasPrice,
    MaxPriorityFeePerGas,
    MaxFeePerGas,
    GasLimit,
    To,
    Value,
    Data,
    AccessList,
    V,
    R,
    S,
}

/// A failure of decoding or encoding; every path reports one of these rather
/// than stopping the process.
#[derive(Debug)]
pub enum DecodeError {
    /// Text that should be hex or JSON is not.
    MalformedInput,
    /// The transaction holds no bytes at all.
    EmptyInput,
    /// The leading byte names no known transaction layout.
    UnsupportedTransactionType(u8),
    /// The transaction is not an RLP list.
    NotAList(rlp::DecoderError),
    /// The RLP list has the wrong number of items for its layout.
    StructuralMismatch { expected: usize, found: usize },
    /// One field of the transaction could not be read.
    FieldDecodeError(TxField, rlp::DecoderError),
    /// The call data is shorter than a selector.
    CalldataTooShort,
    /// No function of the interface has the call's selector.
    FunctionNotFound,
    /// The signature found for a selector hashes to another selector.
    SelectorMismatch,
    /// A type word that the grammar does not know, as written.
    UnsupportedType(Vec<u8>),
    /// A tuple type whose parentheses do not pair up.
    MismatchedParentheses,
    /// A signature without a name and a parenthesised parameter list.
    InvalidSignature,
    /// The parameters could not be read from the call data: a read ran past its
    /// end, or a word held no valid offset or length.
    Truncated,
    /// The registry knows no signature for the selector.
    NoSignatureFound,
}

} // verus!
