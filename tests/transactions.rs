use ethereum_types::{H160, U256};
use rlp::RlpStream;
use txn_decoder::error::{DecodeError, TxField};
use txn_decoder::transaction::{decode_transaction, txn_decoder, TransactionType};

fn address(byte: u8) -> H160 {
    H160([byte; 20])
}

fn legacy_fields(to: Option<H160>, zero_to: bool, items: usize) -> String {
    let mut s = RlpStream::new_list(items);
    s.append(&U256::from(9u64));
    s.append(&U256::from(20_000_000_000u64));
    s.append(&U256::from(21_000u64));
    match to {
        Some(a) => {
            s.append(&a);
        }
        None => {
            if zero_to {
                s.append(&H160::zero());
            } else {
                s.append_empty_data();
            }
        }
    }
    s.append(&U256::from(1_000_000_000_000_000_000u64));
    s.append(&vec![0xa9u8, 0x05, 0x9c, 0xbb]);
    s.append(&U256::from(37u64));
    s.append(&U256::from(0x1234u64));
    s.append(&U256::from(0x5678u64));
    for _ in 9..items {
        s.append(&U256::from(1u64));
    }
    format!("0x{}", hex::encode(s.out()))
}

#[test]
fn legacy_fields_round_trip() {
    let hex_tx = legacy_fields(Some(address(0x35)), false, 9);
    let tx = decode_transaction(&hex_tx).unwrap();
    assert_eq!(tx.transaction_type, TransactionType::Legacy);
    assert_eq!(tx.chain_id, None);
    assert_eq!(tx.nonce, U256::from(9u64));
    assert_eq!(tx.gas_price, Some(U256::from(20_000_000_000u64)));
    assert_eq!(tx.max_priority_fee_per_gas, None);
    assert_eq!(tx.max_fee_per_gas, None);
    assert_eq!(tx.gas_limit, U256::from(21_000u64));
    assert_eq!(tx.to, Some(address(0x35)));
    assert_eq!(tx.value, U256::from(1_000_000_000_000_000_000u64));
    assert_eq!(tx.data, vec![0xa9u8, 0x05, 0x9c, 0xbb]);
    assert!(tx.access_list.is_none());
    assert_eq!(tx.v, U256::from(37u64));
    assert_eq!(tx.r, U256::from(0x1234u64));
    assert_eq!(tx.s, U256::from(0x5678u64));
}

#[test]
fn legacy_without_prefix_decodes_the_same() {
    let hex_tx = legacy_fields(Some(address(0x35)), false, 9);
    let bare = hex_tx.trim_start_matches("0x").to_string();
    let tx = decode_transaction(&bare).unwrap();
    assert_eq!(tx.nonce, U256::from(9u64));
}

#[test]
fn contract_creation_has_no_recipient() {
    let hex_tx = legacy_fields(None, false, 9);
    let tx = decode_transaction(&hex_tx).unwrap();
    assert_eq!(tx.to, None);
}

#[test]
fn zero_address_is_still_a_recipient() {
    let hex_tx = legacy_fields(None, true, 9);
    let tx = decode_transaction(&hex_tx).unwrap();
    assert_eq!(tx.to, Some(H160::zero()));
}

#[test]
fn legacy_with_ten_items_is_a_structural_mismatch() {
    let hex_tx = legacy_fields(Some(address(1)), false, 10);
    match decode_transaction(&hex_tx) {
        Err(DecodeError::StructuralMismatch { expected, found }) => {
            assert_eq!(expected, 9);
            assert_eq!(found, 10);
        }
        other => panic!("unexpected: {:?}", other),
    }
}

#[test]
fn legacy_with_eight_items_is_a_structural_mismatch() {
    let mut s = RlpStream::new_list(8);
    for _ in 0..8 {
        s.append(&U256::from(1u64));
    }
    let hex_tx = hex::encode(s.out());
    match decode_transaction(&hex_tx) {
        Err(DecodeError::StructuralMismatch { expected, found }) => {
            assert_eq!(expected, 9);
            assert_eq!(found, 8);
        }
        other => panic!("unexpected: {:?}", other),
    }
}

fn typed(kind: u8, items: usize) -> String {
    let full = if kind == 2 { 12 } else { 11 };
    let mut s = RlpStream::new_list(items);
    s.append(&5u64);
    s.append(&U256::from(7u64));
    if kind == 2 {
        s.append(&U256::from(2u64));
        s.append(&U256::from(100u64));
    } else {
        s.append(&U256::from(50u64));
    }
    s.append(&U256::from(30_000u64));
    s.append(&address(0x11));
    s.append(&U256::from(0u64));
    s.append(&vec![1u8, 2, 3, 4, 5]);
    s.begin_list(1);
    s.begin_list(2);
    s.append(&address(0x22));
    s.begin_list(1);
    s.append(&ethereum_types::H256([0x33; 32]));
    s.append(&U256::from(1u64));
    s.append(&U256::from(2u64));
    if items >= full {
        s.append(&U256::from(3u64));
    }
    for _ in full..items {
        s.append(&U256::from(4u64));
    }
    let mut raw = vec![kind];
    raw.extend_from_slice(&s.out());
    hex::encode(raw)
}

#[test]
fn access_list_transaction_round_trip() {
    let tx = decode_transaction(&typed(1, 11)).unwrap();
    assert_eq!(tx.transaction_type, TransactionType::EIP2930);
    assert_eq!(tx.chain_id, Some(5));
    assert_eq!(tx.nonce, U256::from(7u64));
    assert_eq!(tx.gas_price, Some(U256::from(50u64)));
    assert_eq!(tx.max_fee_per_gas, None);
    assert_eq!(tx.gas_limit, U256::from(30_000u64));
    assert_eq!(tx.to, Some(address(0x11)));
    assert_eq!(tx.value, U256::zero());
    assert_eq!(tx.data, vec![1u8, 2, 3, 4, 5]);
    let list = tx.access_list.unwrap();
    assert_eq!(list.0.len(), 1);
    assert_eq!(list.0[0].0, address(0x22));
    assert_eq!(list.0[0].1, vec![ethereum_types::H256([0x33; 32])]);
    assert_eq!(tx.v, U256::from(1u64));
    assert_eq!(tx.r, U256::from(2u64));
    assert_eq!(tx.s, U256::from(3u64));
}

#[test]
fn dynamic_fee_transaction_round_trip() {
    let tx = decode_transaction(&typed(2, 12)).unwrap();
    assert_eq!(tx.transaction_type, TransactionType::EIP1559);
    assert_eq!(tx.chain_id, Some(5));
    assert_eq!(tx.gas_price, None);
    assert_eq!(tx.max_priority_fee_per_gas, Some(U256::from(2u64)));
    assert_eq!(tx.max_fee_per_gas, Some(U256::from(100u64)));
    assert_eq!(tx.gas_limit, U256::from(30_000u64));
    assert_eq!(tx.data, vec![1u8, 2, 3, 4, 5]);
    assert_eq!(tx.access_list.unwrap().0.len(), 1);
    assert_eq!(tx.s, U256::from(3u64));
}

#[test]
fn access_list_layout_with_twelve_items_is_a_structural_mismatch() {
    match decode_transaction(&typed(1, 12)) {
        Err(DecodeError::StructuralMismatch { expected, found }) => {
            assert_eq!(expected, 11);
            assert_eq!(found, 12);
        }
        other => panic!("unexpected: {:?}", other),
    }
}

#[test]
fn dynamic_fee_layout_with_eleven_items_is_a_structural_mismatch() {
    match decode_transaction(&typed(2, 11)) {
        Err(DecodeError::StructuralMismatch { expected, found }) => {
            assert_eq!(expected, 12);
            assert_eq!(found, 11);
        }
        other => panic!("unexpected: {:?}", other),
    }
}

#[test]
fn real_dynamic_fee_transaction() {
    let txn = "0x02f8ea05827cc5425a830162e894758502f01b613287731c0788f1fe4d5c4c19b79b80b8849aaab648094e2b6c42ee984bdaf54f32cda9628d8b345f6d02d05b7ec922999ad5f1eafb000000000000000000000000000000000000000000000000000000000020d3489b3732e86fde103e1bf5efd4a317e2aa93c7deb97b8bae232c7e957064370f7c00000000000000000000000000000000000000000000000000000000009fb68bc080a08e6eb39efd60bb1bc18c137071b7cd2b41ea5f58316984f15e4e4d1100c7b5d1a0523dc6b210cdd705478293de03aabebc8e788caa13de5a3293b5651f88b80a22";
    let tx = decode_transaction(txn).unwrap();
    assert_eq!(tx.transaction_type, TransactionType::EIP1559);
    assert_eq!(tx.chain_id, Some(5));
    assert_eq!(tx.nonce, U256::from(0x7cc5u64));
    assert_eq!(tx.max_priority_fee_per_gas, Some(U256::from(0x42u64)));
    assert_eq!(tx.max_fee_per_gas, Some(U256::from(0x5au64)));
    assert_eq!(tx.gas_limit, U256::from(0x0162e8u64));
    assert_eq!(hex::encode(tx.to.unwrap().0), "758502f01b613287731c0788f1fe4d5c4c19b79b");
    assert_eq!(tx.value, U256::zero());
    assert_eq!(tx.data.len(), 132);
    assert_eq!(&tx.data[0..4], &[0x9au8, 0xaa, 0xb6, 0x48]);
    assert_eq!(tx.access_list.unwrap().0.len(), 0);
    assert_eq!(tx.v, U256::zero());
}

#[test]
fn empty_input_is_refused() {
    assert!(matches!(decode_transaction("0x"), Err(DecodeError::EmptyInput)));
    assert!(matches!(decode_transaction(""), Err(DecodeError::EmptyInput)));
}

#[test]
fn unknown_leading_byte_is_refused() {
    assert!(matches!(
        decode_transaction("0x03c0"),
        Err(DecodeError::UnsupportedTransactionType(3))
    ));
    assert!(matches!(
        decode_transaction("0x7f"),
        Err(DecodeError::UnsupportedTransactionType(0x7f))
    ));
}

#[test]
fn bad_hex_is_malformed_input() {
    assert!(matches!(decode_transaction("0xzz"), Err(DecodeError::MalformedInput)));
    assert!(matches!(decode_transaction("0x0"), Err(DecodeError::MalformedInput)));
}

#[test]
fn typed_payload_that_is_no_list_is_refused() {
    assert!(matches!(decode_transaction("0x0180"), Err(DecodeError::NotAList(_))));
}

#[test]
fn undecodable_field_names_the_field() {
    let mut s = RlpStream::new_list(9);
    s.append(&U256::from(1u64));
    s.append(&U256::from(1u64));
    s.append(&U256::from(1u64));
    s.append(&vec![1u8, 2, 3]);
    for _ in 0..5 {
        s.append(&U256::from(1u64));
    }
    match decode_transaction(&hex::encode(s.out())) {
        Err(DecodeError::FieldDecodeError(field, _)) => assert_eq!(field, TxField::To),
        other => panic!("unexpected: {:?}", other),
    }
}

#[test]
fn txn_decoder_hands_back_the_data() {
    let hex_tx = legacy_fields(Some(address(0x35)), false, 9);
    let (data, tx) = txn_decoder(&hex_tx);
    assert_eq!(data.unwrap(), vec![0xa9u8, 0x05, 0x9c, 0xbb]);
    assert!(tx.is_some());
    let (data, tx) = txn_decoder("0x");
    assert!(matches!(data, Err(DecodeError::EmptyInput)));
    assert!(tx.is_none());
}

#[test]
fn first_unreadable_field_is_named() {
    let mut s = RlpStream::new_list(9);
    s.append(&vec![0u8; 33]);
    s.append(&U256::from(1u64));
    s.append(&vec![0u8; 40]);
    for _ in 0..6 {
        s.append(&U256::from(1u64));
    }
    match decode_transaction(&hex::encode(s.out())) {
        Err(DecodeError::FieldDecodeError(field, _)) => assert_eq!(field, TxField::Nonce),
        other => panic!("unexpected: {:?}", other),
    }
}

#[test]
fn bad_access_list_is_named() {
    let mut s = RlpStream::new_list(11);
    s.append(&5u64);
    for _ in 0..3 {
        s.append(&U256::from(1u64));
    }
    s.append(&address(0x11));
    s.append(&U256::from(0u64));
    s.append(&vec![1u8]);
    s.begin_list(1);
    s.begin_list(3);
    s.append(&address(0x22));
    s.begin_list(0);
    s.append(&U256::from(1u64));
    for _ in 0..3 {
        s.append(&U256::from(1u64));
    }
    let mut raw = vec![1u8];
    raw.extend_from_slice(&s.out());
    match decode_transaction(&hex::encode(raw)) {
        Err(DecodeError::FieldDecodeError(field, cause)) => {
            assert_eq!(field, TxField::AccessList);
            assert_eq!(cause, rlp::DecoderError::RlpIncorrectListLen);
        }
        other => panic!("unexpected: {:?}", other),
    }
}
