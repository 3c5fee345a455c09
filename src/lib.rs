//! Decoding of raw transactions and of the call data they carry, and encoding of
//! typed call parameters.
//!
//! The byte formats are read through the `rlp` and `ethabi` crates; everything
//! that decides what those reads mean (which layout a transaction has, which
//! field sits where, which function a selector names, how a type is written) is
//! verified here.
pub mod foreign;
pub mod codec;
pub mod encoder;
pub mod error;
pub mod hex_text;
pub mod laws;
pub mod requests;
pub mod resolution;
pub mod selector;
pub mod signature;
pub mod text_case;
pub mod transaction;
pub mod with_abi;
pub mod without_abi;
