//! Raw transactions: the layout is picked from the leading byte, then each field
//! is read from its position in the RLP list.
use vstd::prelude::*;
use vstd::string::StringSliceAdditionalSpecFns;
use ethereum_types::{H160, H256, U256};
use rlp::DecoderError;
use crate::error::{DecodeError, TxField};
use crate::hex_text::{decode_hex, has_0x_prefix, hex_decoded, is_hex_text, remove_0x_prefix};

verus! {

/// The item count of an RLP list.
pub uninterp spec fn rlp_count(buf: Seq<u8>) -> Result<usize, DecoderError>;

/// The encoded bytes of one item of an RLP list.
pub uninterp spec fn rlp_item(buf: Seq<u8>, index: usize) -> Result<Seq<u8>, DecoderError>;

/// An RLP item read as a 256-bit integer.
pub uninterp spec fn rlp_uint(item: Seq<u8>) -> Result<U256, DecoderError>;

/// An RLP item read as a 64-bit integer.
pub uninterp spec fn rlp_u64(item: Seq<u8>) -> Result<u64, DecoderError>;

/// An RLP item read as a 20-byte address.
pub uninterp spec fn rlp_address(item: Seq<u8>) -> Result<H160, DecoderError>;

/// An RLP item read as a byte string.
pub uninterp spec fn rlp_data(item: Seq<u8>) -> Result<Seq<u8>, DecoderError>;

/// An RLP item read as a list of 32-byte hashes, in order.
pub uninterp spec fn rlp_hash_list(item: Seq<u8>) -> Result<Seq<H256>, DecoderError>;

/// A byte result seen as a sequence.
pub open spec fn bytes_result(r: Result<Vec<u8>, DecoderError>) -> Result<Seq<u8>, DecoderError> {
    match r {
        Ok(v) => Ok(v@),
        Err(e) => Err(e),
    }
}

/// Relies on rlp's `Rlp::item_count`: the number of items of a list.
#[verifier::external_body]
fn item_count(buf: &[u8]) -> (r: Result<usize, DecoderError>)
    ensures
        r == rlp_count(buf@),
{
    rlp::Rlp::new(buf).item_count()
}

/// Relies on rlp's `Rlp::at`: the encoded bytes of the item at an index.
#[verifier::external_body]
fn item_at(buf: &[u8], index: usize) -> (r: Result<Vec<u8>, DecoderError>)
    ensures
        bytes_result(r) == rlp_item(buf@, index),
{
    rlp::Rlp::new(buf).at(index).map(|item| item.as_raw().to_vec())
}

/// Relies on rlp's decoding of a `U256`.
#[verifier::external_body]
fn read_uint(item: &[u8]) -> (r: Result<U256, DecoderError>)
    ensures
        r == rlp_uint(item@),
{
    rlp::Rlp::new(item).as_val()
}

/// Relies on rlp's decoding of a `u64`.
#[verifier::external_body]
fn read_u64(item: &[u8]) -> (r: Result<u64, DecoderError>)
    ensures
        r == rlp_u64(item@),
{
    rlp::Rlp::new(item).as_val()
}

/// Relies on rlp's decoding of an `H160`.
#[verifier::external_body]
fn read_address(item: &[u8]) -> (r: Result<H160, DecoderError>)
    ensures
        r == rlp_address(item@),
{
    rlp::Rlp::new(item).as_val()
}

/// Relies on rlp's `Rlp::as_list` for `H256`: each item of a list read as a
/// hash, in order.
#[verifier::external_body]
fn read_hash_list(item: &[u8]) -> (r: Result<Vec<H256>, DecoderError>)
    ensures
        match r {
            Ok(v) => rlp_hash_list(item@) == Ok::<Seq<H256>, DecoderError>(v@),
            Err(e) => rlp_hash_list(item@) == Err::<Seq<H256>, DecoderError>(e),
        },
{
    rlp::Rlp::new(item).as_list()
}

/// Relies on rlp's decoding of a `Vec<u8>` byte string.
#[verifier::external_body]
fn read_data(item: &[u8]) -> (r: Result<Vec<u8>, DecoderError>)
    ensures
        bytes_result(r) == rlp_data(item@),
{
    rlp::Rlp::new(item).as_val()
}

/// The wire layout of a transaction.
#[derive(Debug, Clone, Copy, PartialEq, Eq)]
pub enum TransactionType {
    Legacy,
    EIP2930,
    EIP1559,
}

/// One entry of an access list: an address and the storage keys it touches.
#[derive(Debug)]
pub struct AccessListItem(pub H160, pub Vec<H256>);

/// The access list of a typed transaction.
#[derive(Debug)]
pub struct AccessList(pub Vec<AccessListItem>);

/// A decoded transaction. Fields that its layout lacks are `None`.
#[derive(Debug)]
pub struct Transaction {
    pub transaction_type: TransactionType,
    pub chain_id: Option<u64>,
    pub nonce: U256,
    pub gas_price: Option<U256>,
    pub max_priority_fee_per_gas: Option<U256>,
    pub max_fee_per_gas: Option<U256>,
    pub gas_limit: U256,
    /// `None` for a contract creation, whose recipient is the empty string.
    pub to: Option<H160>,
    pub value: U256,
    pub data: Vec<u8>,
    pub access_list: Option<AccessList>,
    pub v: U256,
    pub r: U256,
    pub s: U256,
}

/// The item count that each layout has.
pub open spec fn expected_items(kind: TransactionType) -> usize {
    match kind {
        TransactionType::Legacy => 9,
        TransactionType::EIP2930 => 11,
        TransactionType::EIP1559 => 12,
    }
}

/// Whether encoded RLP is a list: it starts with a byte from `0xc0` on.
pub open spec fn is_rlp_list(item: Seq<u8>) -> bool {
    item.len() > 0 && item[0] >= 0xc0
}

pub open spec fn uint_at(buf: Seq<u8>, i: usize) -> Result<U256, DecoderError> {
    match rlp_item(buf, i) {
        Ok(item) => rlp_uint(item),
        Err(e) => Err(e),
    }
}

pub open spec fn u64_at(buf: Seq<u8>, i: usize) -> Result<u64, DecoderError> {
    match rlp_item(buf, i) {
        Ok(item) => rlp_u64(item),
        Err(e) => Err(e),
    }
}

pub open spec fn address_at(buf: Seq<u8>, i: usize) -> Result<H160, DecoderError> {
    match rlp_item(buf, i) {
        Ok(item) => rlp_address(item),
        Err(e) => Err(e),
    }
}

pub open spec fn data_at(buf: Seq<u8>, i: usize) -> Result<Seq<u8>, DecoderError> {
    match rlp_item(buf, i) {
        Ok(item) => rlp_data(item),
        Err(e) => Err(e),
    }
}

/// The recipient: absent exactly when its item is the empty byte string `0x80`.
pub open spec fn to_at(buf: Seq<u8>, i: usize) -> Result<Option<H160>, DecoderError> {
    match rlp_item(buf, i) {
        Ok(item) => if item == seq![0x80u8] {
            Ok(None)
        } else {
            match rlp_address(item) {
                Ok(a) => Ok(Some(a)),
                Err(e) => Err(e),
            }
        },
        Err(e) => Err(e),
    }
}

/// Whether a list of hashes can be read from an item.
pub open spec fn hashes_readable(item: Seq<u8>) -> bool {
    rlp_hash_list(item) is Ok
}

/// Whether `keys` are the hashes that an item holds.
pub open spec fn hashes_read(item: Seq<u8>, keys: Seq<H256>) -> bool {
    rlp_hash_list(item) == Ok::<Seq<H256>, DecoderError>(keys)
}

/// Whether an access list entry can be read: a list of an address and a list of keys.
pub open spec fn entry_readable(item: Seq<u8>) -> bool {
    &&& rlp_count(item) == Ok::<usize, DecoderError>(2)
    &&& address_at(item, 0) is Ok
    &&& rlp_item(item, 1) is Ok
    &&& hashes_readable(rlp_item(item, 1)->Ok_0)
}

/// Whether `e` is the access list entry that an item holds.
pub open spec fn entry_read(item: Seq<u8>, e: AccessListItem) -> bool {
    &&& rlp_count(item) == Ok::<usize, DecoderError>(2)
    &&& address_at(item, 0) == Ok::<H160, DecoderError>(e.0)
    &&& rlp_item(item, 1) is Ok
    &&& hashes_read(rlp_item(item, 1)->Ok_0, e.1@)
}

/// Whether an access list can be read from an item; an item that is no list
/// reads as an empty list.
pub open spec fn access_list_readable(item: Seq<u8>) -> bool {
    is_rlp_list(item) ==> {
        &&& rlp_count(item) is Ok
        &&& forall|j: usize|
            j < rlp_count(item)->Ok_0 ==> {
                &&& (#[trigger] rlp_item(item, j)) is Ok
                &&& entry_readable(rlp_item(item, j)->Ok_0)
            }
    }
}

/// Whether `l` is the access list that an item holds.
pub open spec fn access_list_read(item: Seq<u8>, l: AccessList) -> bool {
    if is_rlp_list(item) {
        &&& rlp_count(item) == Ok::<usize, DecoderError>(l.0.len() as usize)
        &&& forall|j: usize|
            j < l.0.len() ==> {
                &&& (#[trigger] rlp_item(item, j)) is Ok
                &&& entry_read(rlp_item(item, j)->Ok_0, l.0@[j as int])
            }
    } else {
        l.0.len() == 0
    }
}

fn is_list_item(item: &[u8]) -> (r: bool)
    ensures
        r == is_rlp_list(item@),
{
    item.len() > 0 && item[0] >= 0xc0u8
}

/// Reads one access list entry: a list of an address and a list of storage keys.
fn read_entry(item: &[u8]) -> (r: Result<AccessListItem, DecoderError>)
    ensures
        rlp_count(item@) is Err ==> r == Err::<AccessListItem, DecoderError>(rlp_count(item@)->Err_0),
        rlp_count(item@) is Ok && rlp_count(item@)->Ok_0 != 2 ==> r == Err::<
            AccessListItem,
            DecoderError,
        >(DecoderError::RlpIncorrectListLen),
        r is Ok <==> entry_readable(item@),
        r is Ok ==> entry_read(item@, r->Ok_0),
{
    match item_count(item) {
        Ok(n) => {
            if n != 2 {
                return Err(DecoderError::RlpIncorrectListLen);
            }
        },
        Err(e) => {
            return Err(e);
        },
    }
    let first = match item_at(item, 0) {
        Ok(first) => first,
        Err(e) => {
            return Err(e);
        },
    };
    let address = match read_address(first.as_slice()) {
        Ok(a) => a,
        Err(e) => {
            return Err(e);
        },
    };
    let second = match item_at(item, 1) {
        Ok(second) => second,
        Err(e) => {
            return Err(e);
        },
    };
    let keys = match read_hash_list(second.as_slice()) {
        Ok(keys) => keys,
        Err(e) => {
            return Err(e);
        },
    };
    Ok(AccessListItem(address, keys))
}

/// Reads an access list; an item that is no list reads as an empty one.
fn read_access_list(item: &[u8]) -> (r: Result<AccessList, DecoderError>)
    ensures
        r is Ok <==> access_list_readable(item@),
        r is Ok ==> access_list_read(item@, r->Ok_0),
{
    let mut entries: Vec<AccessListItem> = Vec::new();
    if !is_list_item(item) {
        return Ok(AccessList(entries));
    }
    let n = match item_count(item) {
        Ok(n) => n,
        Err(e) => {
            return Err(e);
        },
    };
    let mut j: usize = 0;
    while j < n
        invariant
            is_rlp_list(item@),
            rlp_count(item@) == Ok::<usize, DecoderError>(n),
            0 <= j <= n,
            entries@.len() == j,
            forall|m: usize|
                m < j ==> {
                    &&& (#[trigger] rlp_item(item@, m)) is Ok
                    &&& entry_read(rlp_item(item@, m)->Ok_0, entries@[m as int])
                    &&& entry_readable(rlp_item(item@, m)->Ok_0)
                },
        decreases n - j,
    {
        let sub = match item_at(item, j) {
            Ok(sub) => sub,
            Err(e) => {
                return Err(e);
            },
        };
        let entry = match read_entry(sub.as_slice()) {
            Ok(entry) => entry,
            Err(e) => {
                return Err(e);
            },
        };
        entries.push(entry);
        j = j + 1;
    }
    Ok(AccessList(entries))
}

/// Where the gas limit sits; the recipient, value, data and (for typed
/// layouts) access list follow it.
pub open spec fn gas_limit_index(kind: TransactionType) -> usize {
    match kind {
        TransactionType::Legacy => 2,
        TransactionType::EIP2930 => 3,
        TransactionType::EIP1559 => 4,
    }
}

/// Where the signature triple starts: the last three items.
pub open spec fn signature_index(kind: TransactionType) -> usize {
    (expected_items(kind) - 3) as usize
}

/// Where the nonce sits: after the chain id of a typed layout.
pub open spec fn nonce_index(kind: TransactionType) -> usize {
    if kind is Legacy {
        0
    } else {
        1
    }
}

/// The field at a position of a layout.
pub open spec fn field_at(kind: TransactionType, i: int) -> TxField {
    let g = gas_limit_index(kind) as int;
    let sig = signature_index(kind) as int;
    if !(kind is Legacy) && i == 0 {
        TxField::ChainId
    } else if i == nonce_index(kind) {
        TxField::Nonce
    } else if kind is EIP1559 && i == 2 {
        TxField::MaxPriorityFeePerGas
    } else if kind is EIP1559 && i == 3 {
        TxField::MaxFeePerGas
    } else if i == g - 1 {
        TxField::GasPrice
    } else if i == g {
        TxField::GasLimit
    } else if i == g + 1 {
        TxField::To
    } else if i == g + 2 {
        TxField::Value
    } else if i == g + 3 {
        TxField::Data
    } else if i == sig {
        TxField::V
    } else if i == sig + 1 {
        TxField::R
    } else if i == sig + 2 {
        TxField::S
    } else {
        TxField::AccessList
    }
}

/// Whether the item at a position reads as its field.
pub open spec fn field_ok(buf: Seq<u8>, kind: TransactionType, i: int) -> bool {
    match field_at(kind, i) {
        TxField::ChainId => u64_at(buf, i as usize) is Ok,
        TxField::To => to_at(buf, i as usize) is Ok,
        TxField::Data => data_at(buf, i as usize) is Ok,
        TxField::AccessList => rlp_item(buf, i as usize) is Ok && access_list_readable(
            rlp_item(buf, i as usize)->Ok_0,
        ),
        _ => uint_at(buf, i as usize) is Ok,
    }
}

/// The first position from `i` on whose item does not read as its field; the
/// item count where all do.
pub open spec fn first_bad_field(buf: Seq<u8>, kind: TransactionType, i: int) -> int
    decreases expected_items(kind) - i,
{
    if i < 0 || i >= expected_items(kind) {
        expected_items(kind) as int
    } else if !field_ok(buf, kind, i) {
        i
    } else {
        first_bad_field(buf, kind, i + 1)
    }
}

proof fn lemma_first_bad_field(buf: Seq<u8>, kind: TransactionType, i: int, k: int)
    requires
        0 <= i <= k < expected_items(kind),
        forall|j: int| i <= j < k ==> #[trigger] field_ok(buf, kind, j),
        !field_ok(buf, kind, k),
    ensures
        first_bad_field(buf, kind, i) == k,
    decreases k - i,
{
    if i < k {
        lemma_first_bad_field(buf, kind, i + 1, k);
    }
}

/// Whether every field of a layout can be read from a list of the right length.
pub open spec fn fields_readable(buf: Seq<u8>, kind: TransactionType) -> bool {
    forall|i: int| 0 <= i < expected_items(kind) ==> #[trigger] field_ok(buf, kind, i)
}

/// Whether `tx` holds the fields of a layout, each read from its position.
pub open spec fn fields_read(buf: Seq<u8>, kind: TransactionType, tx: Transaction) -> bool {
    let g = gas_limit_index(kind);
    let sig = signature_index(kind);
    &&& tx.transaction_type == kind
    &&& if kind is Legacy {
        tx.chain_id is None
    } else {
        tx.chain_id is Some && u64_at(buf, 0) == Ok::<u64, DecoderError>(tx.chain_id->Some_0)
    }
    &&& uint_at(buf, nonce_index(kind)) == Ok::<U256, DecoderError>(tx.nonce)
    &&& if kind is EIP1559 {
        &&& tx.gas_price is None
        &&& tx.max_priority_fee_per_gas is Some
        &&& uint_at(buf, 2) == Ok::<U256, DecoderError>(tx.max_priority_fee_per_gas->Some_0)
        &&& tx.max_fee_per_gas is Some
        &&& uint_at(buf, 3) == Ok::<U256, DecoderError>(tx.max_fee_per_gas->Some_0)
    } else {
        &&& tx.gas_price is Some
        &&& uint_at(buf, (g - 1) as usize) == Ok::<U256, DecoderError>(tx.gas_price->Some_0)
        &&& tx.max_priority_fee_per_gas is None
        &&& tx.max_fee_per_gas is None
    }
    &&& uint_at(buf, g) == Ok::<U256, DecoderError>(tx.gas_limit)
    &&& to_at(buf, (g + 1) as usize) == Ok::<Option<H160>, DecoderError>(tx.to)
    &&& uint_at(buf, (g + 2) as usize) == Ok::<U256, DecoderError>(tx.value)
    &&& data_at(buf, (g + 3) as usize) == Ok::<Seq<u8>, DecoderError>(tx.data@)
    &&& if kind is Legacy {
        tx.access_list is None
    } else {
        &&& tx.access_list is Some
        &&& rlp_item(buf, (g + 4) as usize) is Ok
        &&& access_list_read(rlp_item(buf, (g + 4) as usize)->Ok_0, tx.access_list->Some_0)
    }
    &&& uint_at(buf, sig) == Ok::<U256, DecoderError>(tx.v)
    &&& uint_at(buf, (sig + 1) as usize) == Ok::<U256, DecoderError>(tx.r)
    &&& uint_at(buf, (sig + 2) as usize) == Ok::<U256, DecoderError>(tx.s)
}

/// What decoding a layout gives: a list of its exact length whose fields all
/// read, or the reason why not.
pub open spec fn layout_decoded(
    buf: Seq<u8>,
    kind: TransactionType,
    r: Result<Transaction, DecodeError>,
) -> bool {
    match rlp_count(buf) {
        Err(e) => r == Err::<Transaction, DecodeError>(DecodeError::NotAList(e)),
        Ok(n) => if n != expected_items(kind) {
            r == Err::<Transaction, DecodeError>(
                DecodeError::StructuralMismatch { expected: expected_items(kind), found: n },
            )
        } else {
            &&& (r is Ok <==> fields_readable(buf, kind))
            &&& (r is Ok ==> fields_read(buf, kind, r->Ok_0))
            &&& (r is Err ==> r->Err_0 is FieldDecodeError && r->Err_0->FieldDecodeError_0
                == field_at(kind, first_bad_field(buf, kind, 0)))
        },
    }
}

fn uint_field(buf: &[u8], i: usize, field: TxField) -> (r: Result<U256, DecodeError>)
    ensures
        match r {
            Ok(v) => uint_at(buf@, i) == Ok::<U256, DecoderError>(v),
            Err(e) => uint_at(buf@, i) is Err && e is FieldDecodeError && e->FieldDecodeError_0
                == field,
        },
{
    match item_at(buf, i) {
        Ok(item) => match read_uint(item.as_slice()) {
            Ok(v) => Ok(v),
            Err(e) => Err(DecodeError::FieldDecodeError(field, e)),
        },
        Err(e) => Err(DecodeError::FieldDecodeError(field, e)),
    }
}

fn chain_id_field(buf: &[u8]) -> (r: Result<u64, DecodeError>)
    ensures
        match r {
            Ok(v) => u64_at(buf@, 0) == Ok::<u64, DecoderError>(v),
            Err(e) => u64_at(buf@, 0) is Err && e is FieldDecodeError && e->FieldDecodeError_0
                == TxField::ChainId,
        },
{
    match item_at(buf, 0) {
        Ok(item) => match read_u64(item.as_slice()) {
            Ok(v) => Ok(v),
            Err(e) => Err(DecodeError::FieldDecodeError(TxField::ChainId, e)),
        },
        Err(e) => Err(DecodeError::FieldDecodeError(TxField::ChainId, e)),
    }
}

fn data_field(buf: &[u8], i: usize) -> (r: Result<Vec<u8>, DecodeError>)
    ensures
        match r {
            Ok(v) => data_at(buf@, i) == Ok::<Seq<u8>, DecoderError>(v@),
            Err(e) => data_at(buf@, i) is Err && e is FieldDecodeError && e->FieldDecodeError_0
                == TxField::Data,
        },
{
    match item_at(buf, i) {
        Ok(item) => match read_data(item.as_slice()) {
            Ok(v) => Ok(v),
            Err(e) => Err(DecodeError::FieldDecodeError(TxField::Data, e)),
        },
        Err(e) => Err(DecodeError::FieldDecodeError(TxField::Data, e)),
    }
}

/// The recipient: `None` exactly when its item is the empty byte string.
fn to_field(buf: &[u8], i: usize) -> (r: Result<Option<H160>, DecodeError>)
    ensures
        match r {
            Ok(v) => to_at(buf@, i) == Ok::<Option<H160>, DecoderError>(v),
            Err(e) => to_at(buf@, i) is Err && e is FieldDecodeError && e->FieldDecodeError_0
                == TxField::To,
        },
{
    match item_at(buf, i) {
        Ok(item) => {
            if item.len() == 1 && item[0] == 0x80u8 {
                assert(item@ == seq![0x80u8]);
                Ok(None)
            } else {
                assert(item@ != seq![0x80u8]);
                match read_address(item.as_slice()) {
                    Ok(a) => Ok(Some(a)),
                    Err(e) => Err(DecodeError::FieldDecodeError(TxField::To, e)),
                }
            }
        },
        Err(e) => Err(DecodeError::FieldDecodeError(TxField::To, e)),
    }
}

fn access_list_field(buf: &[u8], i: usize) -> (r: Result<AccessList, DecodeError>)
    ensures
        match r {
            Ok(l) => rlp_item(buf@, i) is Ok && access_list_read(rlp_item(buf@, i)->Ok_0, l),
            Err(e) => !(rlp_item(buf@, i) is Ok && access_list_readable(rlp_item(buf@, i)->Ok_0))
                && e is FieldDecodeError && e->FieldDecodeError_0 == TxField::AccessList,
        },
{
    match item_at(buf, i) {
        Ok(item) => match read_access_list(item.as_slice()) {
            Ok(l) => Ok(l),
            Err(e) => Err(DecodeError::FieldDecodeError(TxField::AccessList, e)),
        },
        Err(e) => Err(DecodeError::FieldDecodeError(TxField::AccessList, e)),
    }
}

/// Reads the integer field at a position, all earlier positions having read.
fn uint_step(buf: &[u8], kind: TransactionType, idx: usize, field: TxField) -> (r: Result<
    U256,
    DecodeError,
>)
    requires
        idx < expected_items(kind),
        field_at(kind, idx as int) == field,
        !(field is ChainId || field is To || field is Data || field is AccessList),
        forall|i: int| 0 <= i < idx ==> #[trigger] field_ok(buf@, kind, i),
    ensures
        match r {
            Ok(v) => {
                &&& uint_at(buf@, idx) == Ok::<U256, DecoderError>(v)
                &&& forall|i: int| 0 <= i < idx + 1 ==> #[trigger] field_ok(buf@, kind, i)
            },
            Err(e) => {
                &&& e is FieldDecodeError
                &&& e->FieldDecodeError_0 == field_at(kind, first_bad_field(buf@, kind, 0))
                &&& !fields_readable(buf@, kind)
            },
        },
{
    match uint_field(buf, idx, field) {
        Ok(v) => {
            assert(field_ok(buf@, kind, idx as int));
            Ok(v)
        },
        Err(e) => {
            proof {
                assert(!field_ok(buf@, kind, idx as int));
                lemma_first_bad_field(buf@, kind, 0, idx as int);
            }
            Err(e)
        },
    }
}

/// Decodes an RLP list in one of the three layouts.
fn decode_layout(buf: &[u8], kind: TransactionType) -> (r: Result<Transaction, DecodeError>)
    ensures
        layout_decoded(buf@, kind, r),
{
    let expected: usize = match kind {
        TransactionType::Legacy => 9,
        TransactionType::EIP2930 => 11,
        TransactionType::EIP1559 => 12,
    };
    match item_count(buf) {
        Ok(n) => {
            if n != expected {
                return Err(DecodeError::StructuralMismatch { expected, found: n });
            }
        },
        Err(e) => {
            return Err(DecodeError::NotAList(e));
        },
    }
    let typed = match kind {
        TransactionType::Legacy => false,
        _ => true,
    };
    let dynamic_fee = match kind {
        TransactionType::EIP1559 => true,
        _ => false,
    };
    let g: usize = match kind {
        TransactionType::Legacy => 2,
        TransactionType::EIP2930 => 3,
        TransactionType::EIP1559 => 4,
    };
    let sig: usize = expected - 3;
    assert(expected == expected_items(kind) && g == gas_limit_index(kind) && sig == signature_index(kind));
    let n0: usize = if typed { 1 } else { 0 };
    assert(n0 == nonce_index(kind));
    let chain_id = if typed {
        match chain_id_field(buf) {
            Ok(c) => {
                assert(field_ok(buf@, kind, 0));
                Some(c)
            },
            Err(e) => {
                proof {
                    assert(!field_ok(buf@, kind, 0));
                    lemma_first_bad_field(buf@, kind, 0, 0);
                    assert(!fields_readable(buf@, kind));
                }
                return Err(e);
            },
        }
    } else {
        None
    };
    assert(forall|i: int| 0 <= i < n0 ==> #[trigger] field_ok(buf@, kind, i));
    let nonce = match uint_step(buf, kind, n0, TxField::Nonce) {
        Ok(v) => v,
        Err(e) => {
            return Err(e);
        },
    };
    let mut gas_price: Option<U256> = None;
    let mut max_priority_fee_per_gas: Option<U256> = None;
    let mut max_fee_per_gas: Option<U256> = None;
    if dynamic_fee {
        let prio = match uint_step(buf, kind, 2, TxField::MaxPriorityFeePerGas) {
            Ok(v) => v,
            Err(e) => {
                return Err(e);
            },
        };
        let max = match uint_step(buf, kind, 3, TxField::MaxFeePerGas) {
            Ok(v) => v,
            Err(e) => {
                return Err(e);
            },
        };
        max_priority_fee_per_gas = Some(prio);
        max_fee_per_gas = Some(max);
    } else {
        let price = match uint_step(buf, kind, g - 1, TxField::GasPrice) {
            Ok(v) => v,
            Err(e) => {
                return Err(e);
            },
        };
        gas_price = Some(price);
    }
    assert(forall|i: int| 0 <= i < g ==> #[trigger] field_ok(buf@, kind, i));
    let gas_limit = match uint_step(buf, kind, g, TxField::GasLimit) {
        Ok(v) => v,
        Err(e) => {
            return Err(e);
        },
    };
    let to = match to_field(buf, g + 1) {
        Ok(v) => v,
        Err(e) => {
            proof {
                assert(!field_ok(buf@, kind, (g + 1) as int));
                lemma_first_bad_field(buf@, kind, 0, (g + 1) as int);
                assert(!fields_readable(buf@, kind));
            }
            return Err(e);
        },
    };
    assert(forall|i: int| 0 <= i < (g + 1) + 1 ==> #[trigger] field_ok(buf@, kind, i)) by {
        assert(field_ok(buf@, kind, (g + 1) as int));
    }
    let value = match uint_step(buf, kind, g + 2, TxField::Value) {
        Ok(v) => v,
        Err(e) => {
            return Err(e);
        },
    };
    let data = match data_field(buf, g + 3) {
        Ok(v) => v,
        Err(e) => {
            proof {
                assert(!field_ok(buf@, kind, (g + 3) as int));
                lemma_first_bad_field(buf@, kind, 0, (g + 3) as int);
                assert(!fields_readable(buf@, kind));
            }
            return Err(e);
        },
    };
    assert(forall|i: int| 0 <= i < (g + 3) + 1 ==> #[trigger] field_ok(buf@, kind, i)) by {
        assert(field_ok(buf@, kind, (g + 3) as int));
    }
    let access_list = if typed {
        match access_list_field(buf, g + 4) {
            Ok(l) => {
                assert(field_ok(buf@, kind, (g + 4) as int));
                Some(l)
            },
            Err(e) => {
                proof {
                    assert(!field_ok(buf@, kind, (g + 4) as int));
                    lemma_first_bad_field(buf@, kind, 0, (g + 4) as int);
                    assert(!fields_readable(buf@, kind));
                }
                return Err(e);
            },
        }
    } else {
        None
    };
    assert(forall|i: int| 0 <= i < sig ==> #[trigger] field_ok(buf@, kind, i));
    let v = match uint_step(buf, kind, sig, TxField::V) {
        Ok(v) => v,
        Err(e) => {
            return Err(e);
        },
    };
    let r = match uint_step(buf, kind, sig + 1, TxField::R) {
        Ok(v) => v,
        Err(e) => {
            return Err(e);
        },
    };
    let s = match uint_step(buf, kind, sig + 2, TxField::S) {
        Ok(v) => v,
        Err(e) => {
            return Err(e);
        },
    };
    Ok(Transaction {
        transaction_type: kind,
        chain_id,
        nonce,
        gas_price,
        max_priority_fee_per_gas,
        max_fee_per_gas,
        gas_limit,
        to,
        value,
        data,
        access_list,
        v,
        r,
        s,
    })
}

/// Decodes a legacy transaction: the whole buffer is a list of nine items.
pub fn decode_legacy_transaction(raw_tx: &[u8]) -> (r: Result<Transaction, DecodeError>)
    ensures
        layout_decoded(raw_tx@, TransactionType::Legacy, r),
{
    decode_layout(raw_tx, TransactionType::Legacy)
}

/// Decodes an access-list transaction, its type byte taken off: eleven items.
pub fn decode_eip2930_transaction(raw_tx: &[u8]) -> (r: Result<Transaction, DecodeError>)
    ensures
        layout_decoded(raw_tx@, TransactionType::EIP2930, r),
{
    decode_layout(raw_tx, TransactionType::EIP2930)
}

/// Decodes a dynamic-fee transaction, its type byte taken off: twelve items.
pub fn decode_eip1559_transaction(raw_tx: &[u8]) -> (r: Result<Transaction, DecodeError>)
    ensures
        layout_decoded(raw_tx@, TransactionType::EIP1559, r),
{
    decode_layout(raw_tx, TransactionType::EIP1559)
}

/// Hex text without its `0x` or `0X` prefix.
pub open spec fn hex_body(b: Seq<u8>) -> Seq<u8> {
    if has_0x_prefix(b) {
        b.subrange(2, b.len() as int)
    } else {
        b
    }
}

/// What decoding raw transaction bytes gives: the leading byte picks the layout.
pub open spec fn transaction_decoded(raw: Seq<u8>, r: Result<Transaction, DecodeError>) -> bool {
    if raw.len() == 0 {
        r == Err::<Transaction, DecodeError>(DecodeError::EmptyInput)
    } else if raw[0] == 1 {
        layout_decoded(raw.drop_first(), TransactionType::EIP2930, r)
    } else if raw[0] == 2 {
        layout_decoded(raw.drop_first(), TransactionType::EIP1559, r)
    } else if raw[0] >= 0x80 {
        layout_decoded(raw, TransactionType::Legacy, r)
    } else {
        r == Err::<Transaction, DecodeError>(DecodeError::UnsupportedTransactionType(raw[0]))
    }
}

/// What decoding a hex transaction gives.
pub open spec fn text_decoded(text: Seq<u8>, r: Result<Transaction, DecodeError>) -> bool {
    let body = hex_body(text);
    if is_hex_text(body) {
        transaction_decoded(hex_decoded(body), r)
    } else {
        r == Err::<Transaction, DecodeError>(DecodeError::MalformedInput)
    }
}

/// Decodes raw transaction bytes.
pub fn decode_raw_transaction(raw: &[u8]) -> (r: Result<Transaction, DecodeError>)
    ensures
        transaction_decoded(raw@, r),
{
    if raw.len() == 0 {
        return Err(DecodeError::EmptyInput);
    }
    let first = raw[0];
    if first == 1u8 {
        assert(raw@.subrange(1, raw@.len() as int) == raw@.drop_first());
        decode_eip2930_transaction(&raw[1..raw.len()])
    } else if first == 2u8 {
        assert(raw@.subrange(1, raw@.len() as int) == raw@.drop_first());
        decode_eip1559_transaction(&raw[1..raw.len()])
    } else if first >= 0x80u8 {
        decode_legacy_transaction(raw)
    } else {
        Err(DecodeError::UnsupportedTransactionType(first))
    }
}

/// Decodes a transaction written in hex, with or without a `0x` prefix.
pub fn decode_transaction(hex_tx: &str) -> (r: Result<Transaction, DecodeError>)
    ensures
        text_decoded(hex_tx.spec_bytes(), r),
{
    let body = remove_0x_prefix(hex_tx);
    let raw = match decode_hex(body.as_bytes()) {
        Ok(raw) => raw,
        Err(_) => {
            return Err(DecodeError::MalformedInput);
        },
    };
    decode_raw_transaction(raw.as_slice())
}

/// Decodes a transaction and hands back its call data beside it.
pub fn txn_decoder(tx: &str) -> (r: (Result<Vec<u8>, DecodeError>, Option<Transaction>))
    ensures
        r.0 is Ok <==> r.1 is Some,
        r.1 is Some ==> text_decoded(tx.spec_bytes(), Ok(r.1->Some_0)) && r.0->Ok_0@
            == r.1->Some_0.data@,
        r.1 is None ==> text_decoded(tx.spec_bytes(), Err(r.0->Err_0)),
{
    match decode_transaction(tx) {
        Ok(decoded) => {
            let data = decoded.data.clone();
            (Ok(data), Some(decoded))
        },
        Err(e) => (Err(e), None),
    }
}

} // verus!
