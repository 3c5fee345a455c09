use ethabi::{ParamType, Token};
use ethereum_types::{H160, U256};
use txn_decoder::codec::token_to_string;
use txn_decoder::error::DecodeError;
use txn_decoder::resolution::{decode_request, finish_lookup, CallDecoding};
use txn_decoder::selector::compute_function_selector;
use txn_decoder::signature::{parse_signature, parse_type, split_tuple_types};
use txn_decoder::with_abi::{CalldataDecoder as AbiDecoder, FunctionSignature};
use txn_decoder::without_abi::{
    decode_without_abi, get_selector_from_call_data, signature_from_registry,
    CalldataDecoder as SignatureDecoder,
};

const TRANSFER_ABI: &str = r#"[{"inputs":[{"internalType":"address","name":"to","type":"address"},{"internalType":"uint256","name":"amount","type":"uint256"}],"name":"transfer","outputs":[{"internalType":"bool","name":"","type":"bool"}],"stateMutability":"nonpayable","type":"function"},{"inputs":[{"internalType":"address","name":"owner","type":"address"}],"name":"balanceOf","outputs":[{"internalType":"uint256","name":"","type":"uint256"}],"stateMutability":"view","type":"function"}]"#;

fn word_of_address(byte: u8) -> String {
    format!("{}{}", "00".repeat(12), format!("{:02x}", byte).repeat(20))
}

fn word_of(n: u64) -> String {
    format!("{:064x}", n)
}

fn transfer_calldata() -> String {
    format!("a9059cbb{}{}", word_of_address(0xab), word_of(1000))
}

#[test]
fn transfer_selector_is_fixed() {
    assert_eq!(compute_function_selector(b"transfer(address,uint256)"), [0xa9, 0x05, 0x9c, 0xbb]);
    assert_eq!(compute_function_selector(b"transfer(address,uint256)"), [0xa9, 0x05, 0x9c, 0xbb]);
    assert_eq!(compute_function_selector(b"approve(address,uint256)"), [0x09, 0x5e, 0xa7, 0xb3]);
    assert_eq!(compute_function_selector(b"balanceOf(address)"), [0x70, 0xa0, 0x82, 0x31]);
}

#[test]
fn canonical_signature_of_nested_types() {
    let inputs = vec![
        ParamType::Array(Box::new(ParamType::Tuple(vec![ParamType::Address, ParamType::Uint(256)]))),
        ParamType::Bytes,
        ParamType::FixedArray(Box::new(ParamType::FixedBytes(32)), 2),
        ParamType::Int(8),
    ];
    let selector = compute_function_selector(b"swap((address,uint256)[],bytes,bytes32[2],int8)");
    let decoder = AbiDecoder::from_functions(vec![FunctionSignature { name: "swap".to_string(), inputs }]);
    assert!(matches!(decoder.decode_call(&selector), Err(DecodeError::Truncated)));
    let (name, _) = parse_signature("swap((address,uint256)[],bytes,bytes32[2],int8)").unwrap();
    assert_eq!(name, "swap");
}

#[test]
fn parses_primitive_types() {
    assert_eq!(parse_type(b"address").unwrap(), ParamType::Address);
    assert_eq!(parse_type(b"bool").unwrap(), ParamType::Bool);
    assert_eq!(parse_type(b"string").unwrap(), ParamType::String);
    assert_eq!(parse_type(b"bytes").unwrap(), ParamType::Bytes);
    assert_eq!(parse_type(b"bytes1").unwrap(), ParamType::FixedBytes(1));
    assert_eq!(parse_type(b"bytes32").unwrap(), ParamType::FixedBytes(32));
    assert_eq!(parse_type(b"uint8").unwrap(), ParamType::Uint(8));
    assert_eq!(parse_type(b"uint256").unwrap(), ParamType::Uint(256));
    assert_eq!(parse_type(b"int128").unwrap(), ParamType::Int(128));
    assert_eq!(parse_type(b"  uint64 ").unwrap(), ParamType::Uint(64));
}

#[test]
fn fixed_size_bounds_are_enforced() {
    for bad in ["bytes0", "bytes33", "uint0", "uint260", "uint255", "int7", "int264", "uint"] {
        assert!(
            matches!(parse_type(bad.as_bytes()), Err(DecodeError::UnsupportedType(_))),
            "{} was accepted",
            bad
        );
    }
}

#[test]
fn parses_arrays_and_tuples() {
    assert_eq!(
        parse_type(b"uint256[]").unwrap(),
        ParamType::Array(Box::new(ParamType::Uint(256)))
    );
    assert_eq!(
        parse_type(b"address[3]").unwrap(),
        ParamType::FixedArray(Box::new(ParamType::Address), 3)
    );
    assert_eq!(
        parse_type(b"uint8[2][]").unwrap(),
        ParamType::Array(Box::new(ParamType::FixedArray(Box::new(ParamType::Uint(8)), 2)))
    );
    assert_eq!(
        parse_type(b"(address,(uint256,bool))[]").unwrap(),
        ParamType::Array(Box::new(ParamType::Tuple(vec![
            ParamType::Address,
            ParamType::Tuple(vec![ParamType::Uint(256), ParamType::Bool]),
        ])))
    );
    assert_eq!(parse_type(b"()").unwrap(), ParamType::Tuple(vec![]));
}

#[test]
fn unbalanced_tuple_is_refused() {
    assert!(matches!(
        parse_type(b"((address,uint256)"),
        Err(DecodeError::MismatchedParentheses)
    ));
    assert!(matches!(parse_type(b"float"), Err(DecodeError::UnsupportedType(_))));
    assert!(matches!(parse_type(b"uint256[x]"), Err(DecodeError::UnsupportedType(_))));
}

#[test]
fn splits_at_top_level_commas_only() {
    let pieces = split_tuple_types(b"(address,uint256)[], bytes ,,uint8").unwrap();
    let texts: Vec<String> = pieces.into_iter().map(|p| String::from_utf8(p).unwrap()).collect();
    assert_eq!(texts, vec!["(address,uint256)[]", "bytes", "uint8"]);
    assert!(split_tuple_types(b"(a,b").is_none());
}

#[test]
fn parses_signatures() {
    let (name, types) = parse_signature("swap((address,uint256)[],bytes)").unwrap();
    assert_eq!(name, "swap");
    assert_eq!(
        types,
        vec![
            ParamType::Array(Box::new(ParamType::Tuple(vec![ParamType::Address, ParamType::Uint(256)]))),
            ParamType::Bytes,
        ]
    );
    let (name, types) = parse_signature("totalSupply()").unwrap();
    assert_eq!(name, "totalSupply");
    assert!(types.is_empty());
    let (name, types) = parse_signature("balanceOf(address) -> uint256").unwrap();
    assert_eq!(name, "balanceOf");
    assert_eq!(types, vec![ParamType::Address]);
    assert!(matches!(parse_signature("(address)"), Err(DecodeError::InvalidSignature)));
    assert!(matches!(parse_signature("transfer"), Err(DecodeError::InvalidSignature)));
    assert!(matches!(parse_signature("f(uint7)"), Err(DecodeError::UnsupportedType(_))));
}

#[test]
fn decodes_with_interface() {
    let decoder = AbiDecoder::new(TRANSFER_ABI).unwrap();
    let (name, tokens) = decoder.decode_calldata(&format!("0x{}", transfer_calldata())).unwrap();
    assert_eq!(name, "transfer");
    let shown: Vec<String> = tokens.iter().map(token_to_string).collect();
    assert_eq!(
        shown,
        vec![format!("Address: 0x{}", "ab".repeat(20)), "Uint: 1000".to_string()]
    );
}

#[test]
fn interface_without_the_selector_is_function_not_found() {
    let decoder = AbiDecoder::new(TRANSFER_ABI).unwrap();
    let data = format!("095ea7b3{}{}", word_of_address(1), word_of(5));
    assert!(matches!(decoder.decode_calldata(&data), Err(DecodeError::FunctionNotFound)));
}

#[test]
fn short_calldata_is_refused() {
    let decoder = AbiDecoder::new(TRANSFER_ABI).unwrap();
    assert!(matches!(decoder.decode_calldata("0xa905"), Err(DecodeError::CalldataTooShort)));
}

#[test]
fn truncated_parameters_are_refused() {
    let decoder = AbiDecoder::new(TRANSFER_ABI).unwrap();
    let data = format!("a9059cbb{}", word_of_address(1));
    assert!(matches!(decoder.decode_calldata(&data), Err(DecodeError::Truncated)));
}

#[test]
fn bad_interface_json_is_malformed_input() {
    assert!(matches!(AbiDecoder::new("not json"), Err(DecodeError::MalformedInput)));
}

#[test]
fn non_ascii_interface_text_is_refused() {
    let tuple_with_accent = r#"[{"type":"function","name":"f","inputs":[{"name":"a","type":"(é,uint256)"}],"outputs":[]}]"#;
    assert!(matches!(AbiDecoder::new(tuple_with_accent), Err(DecodeError::MalformedInput)));
    let escaped = r#"[{"type":"function","name":"f","inputs":[{"name":"a","type":"(\u00e9,uint256)"}],"outputs":[]}]"#;
    assert!(matches!(AbiDecoder::new(escaped), Err(DecodeError::MalformedInput)));
}

#[test]
fn interface_transfer_of_one_hundred() {
    let json = r#"[{"type":"function","name":"transfer","inputs":[{"name":"to","type":"address"},{"name":"amount","type":"uint256"}],"outputs":[],"stateMutability":"nonpayable"}]"#;
    let decoder = AbiDecoder::new(json).unwrap();
    let data = format!("0xa9059cbb{}{}{}{}", "00".repeat(12), "11".repeat(20), "00".repeat(31), "64");
    assert_eq!(
        decoder.decode_calldata(&data).unwrap(),
        ("transfer".to_string(), vec![Token::Address(H160::repeat_byte(0x11)), Token::Uint(U256::from(100u64))])
    );
}

#[test]
fn decoder_from_functions() {
    let decoder = AbiDecoder::from_functions(vec![FunctionSignature {
        name: "transfer".to_string(),
        inputs: vec![ParamType::Address, ParamType::Uint(256)],
    }]);
    let data = hex::decode(transfer_calldata()).unwrap();
    let (name, tokens) = decoder.decode_call(&data).unwrap();
    assert_eq!(name, "transfer");
    assert_eq!(tokens[1], Token::Uint(U256::from(1000u64)));
}

#[test]
fn registry_signature_that_hashes_to_the_selector_decodes() {
    let registry_answer = vec!["approve(address,uint256)".to_string()];
    let signature = signature_from_registry(1, &registry_answer).unwrap();
    let data = format!("095ea7b3{}{}", word_of_address(0x42), word_of(77));
    let (outcome, params) = decode_without_abi(&signature, &data);
    assert!(outcome.is_ok());
    assert_eq!(
        params,
        vec![format!("Address: 0x{}", "42".repeat(20)), "Uint: 77".to_string()]
    );
}

#[test]
fn registry_signature_with_another_selector_is_a_mismatch() {
    let decoder = SignatureDecoder::new("transfer(address,uint256)").unwrap();
    let data = format!("095ea7b3{}{}", word_of_address(0x42), word_of(77));
    assert!(matches!(decoder.decode_calldata(&data), Err(DecodeError::SelectorMismatch)));
    let (outcome, params) = decode_without_abi("transfer(address,uint256)", &data);
    assert!(matches!(outcome, Err(DecodeError::SelectorMismatch)));
    assert!(params.is_empty());
}

#[test]
fn signature_decoder_keeps_its_parts() {
    let decoder = SignatureDecoder::new("approve(address,uint256)").unwrap();
    assert_eq!(decoder.name, "approve");
    assert_eq!(decoder.function_signature, "approve(address,uint256)");
    assert_eq!(decoder.param_types, vec![ParamType::Address, ParamType::Uint(256)]);
    assert_eq!(
        decoder.compute_function_selector("approve(address,uint256)"),
        [0x09, 0x5e, 0xa7, 0xb3]
    );
}

#[test]
fn empty_registry_answer_is_no_signature_found() {
    assert!(matches!(
        signature_from_registry(0, &vec![]),
        Err(DecodeError::NoSignatureFound)
    ));
    assert!(matches!(
        signature_from_registry(3, &vec![]),
        Err(DecodeError::NoSignatureFound)
    ));
    let answer = vec!["a()".to_string(), "b()".to_string()];
    assert_eq!(signature_from_registry(2, &answer).unwrap(), "a()");
}

#[test]
fn selector_key_of_calldata() {
    assert_eq!(get_selector_from_call_data(&format!("0x{}", transfer_calldata())).unwrap(), "0xa9059cbb");
    assert_eq!(get_selector_from_call_data("A9059CBB").unwrap(), "0xA9059CBB");
    assert_eq!(get_selector_from_call_data("0xA9059cbB00").unwrap(), "0xA9059cbB");
    assert!(matches!(get_selector_from_call_data("0xa905"), Err(DecodeError::CalldataTooShort)));
    assert!(matches!(get_selector_from_call_data("zz059cbb"), Err(DecodeError::MalformedInput)));
    assert!(matches!(get_selector_from_call_data("a9059cb"), Err(DecodeError::CalldataTooShort)));
    assert_eq!(get_selector_from_call_data("06fdde03").unwrap(), "0x06fdde03");
}

#[test]
fn finishing_a_lookup() {
    let data = format!("095ea7b3{}{}", word_of_address(0x42), word_of(77));
    let (outcome, signature, params) = finish_lookup(&data, Ok("approve(address,uint256)".to_string()));
    assert!(outcome.is_ok());
    assert_eq!(signature.unwrap(), "approve(address,uint256)");
    assert_eq!(params.unwrap().len(), 2);
    let (outcome, signature, params) = finish_lookup(&data, Ok(String::new()));
    assert!(matches!(outcome, Err(DecodeError::NoSignatureFound)));
    assert!(signature.is_none() && params.is_none());
    let (outcome, _, _) = finish_lookup(&data, Err(DecodeError::NoSignatureFound));
    assert!(matches!(outcome, Err(DecodeError::NoSignatureFound)));
    let (outcome, signature, params) = finish_lookup(&data, Ok("transfer(address,uint256)".to_string()));
    assert!(matches!(outcome, Err(DecodeError::SelectorMismatch)));
    assert!(signature.is_none() && params.is_none());
    let (outcome, signature, params) = finish_lookup("06fdde03", Ok("name()".to_string()));
    assert!(outcome.is_ok());
    assert_eq!(signature.unwrap(), "name()");
    assert!(params.unwrap().is_empty());
}

#[test]
fn renders_each_kind_of_value() {
    assert_eq!(token_to_string(&Token::Address(H160([0x0f; 20]))), format!("Address: 0x{}", "0f".repeat(20)));
    assert_eq!(token_to_string(&Token::Uint(U256::from(123u64))), "Uint: 123");
    assert_eq!(token_to_string(&Token::Uint(U256::zero())), "Uint: 0");
    assert_eq!(token_to_string(&Token::Int(U256::MAX)), format!("Int: {}", U256::MAX));
    assert_eq!(token_to_string(&Token::Bool(true)), "Bool: true");
    assert_eq!(token_to_string(&Token::Bool(false)), "Bool: false");
    assert_eq!(token_to_string(&Token::String("hi".to_string())), "String: hi");
    assert_eq!(token_to_string(&Token::Bytes(vec![0xde, 0xad])), "Bytes: 0xdead");
    assert_eq!(token_to_string(&Token::FixedBytes(vec![0xbe, 0xef])), "FixedBytes: 0xbeef");
    assert_eq!(
        token_to_string(&Token::Array(vec![Token::Bool(true), Token::Uint(U256::from(2u64))])),
        "Array: [Bool: true, Uint: 2]"
    );
    assert_eq!(token_to_string(&Token::FixedArray(vec![Token::Bool(false)])), "FixedArray: [Bool: false]");
    assert_eq!(
        token_to_string(&Token::Tuple(vec![Token::String("a".to_string()), Token::Array(vec![])])),
        "Tuple: (String: a, Array: [])"
    );
}

fn legacy_with_data(data: Vec<u8>) -> String {
    let mut s = rlp::RlpStream::new_list(9);
    s.append(&U256::from(1u64));
    s.append(&U256::from(1u64));
    s.append(&U256::from(21_000u64));
    s.append(&H160([0x77; 20]));
    s.append(&U256::zero());
    s.append(&data);
    s.append(&U256::from(27u64));
    s.append(&U256::from(1u64));
    s.append(&U256::from(1u64));
    hex::encode(s.out())
}

#[test]
fn request_with_interface_decodes_the_call() {
    let data = hex::decode(transfer_calldata()).unwrap();
    let txn = legacy_with_data(data);
    match decode_request(&txn, Some(TRANSFER_ABI)) {
        CallDecoding::Decoded(tx, name, shown) => {
            assert_eq!(tx.to, Some(H160([0x77; 20])));
            assert_eq!(name, "transfer");
            assert_eq!(shown, vec![format!("Address: 0x{}", "ab".repeat(20)), "Uint: 1000".to_string()]);
        }
        _ => panic!("not decoded"),
    }
}

#[test]
fn request_without_interface_asks_for_a_lookup() {
    let data = hex::decode(transfer_calldata()).unwrap();
    let txn = legacy_with_data(data);
    match decode_request(&txn, None) {
        CallDecoding::NeedsLookup(_, calldata) => assert_eq!(calldata, transfer_calldata()),
        _ => panic!("no lookup asked for"),
    }
}

#[test]
fn request_outcomes_on_failure() {
    assert!(matches!(decode_request("0x", None), CallDecoding::TransactionFailed(DecodeError::EmptyInput)));
    let txn = legacy_with_data(vec![1, 2]);
    assert!(matches!(decode_request(&txn, Some("{")), CallDecoding::InterfaceFailed(DecodeError::MalformedInput)));
    assert!(matches!(
        decode_request(&txn, Some(TRANSFER_ABI)),
        CallDecoding::CallFailed(DecodeError::CalldataTooShort)
    ));
}

#[test]
fn canonical_signature_parses_back() {
    let inputs = vec![
        ParamType::Tuple(vec![
            ParamType::Address,
            ParamType::Array(Box::new(ParamType::Tuple(vec![ParamType::Int(64), ParamType::String]))),
        ]),
        ParamType::FixedArray(Box::new(ParamType::FixedBytes(4)), 3),
        ParamType::Bool,
        ParamType::Tuple(vec![]),
    ];
    let (name, types) = parse_signature("settle((address,(int64,string)[]),bytes4[3],bool,())").unwrap();
    assert_eq!(name, "settle");
    assert_eq!(types, inputs);
}

#[test]
fn interface_types_the_reader_cannot_take_are_refused() {
    for bad in ["]", "5]", "uint]", "(],uint256)"] {
        let json = format!(r#"[{{"type":"function","name":"f","inputs":[{{"name":"a","type":"{}"}}],"outputs":[]}}]"#, bad);
        assert!(matches!(AbiDecoder::new(&json), Err(DecodeError::MalformedInput)), "{}", bad);
    }
    let fine = r#"[{"type":"function","name":"f","inputs":[{"name":"a","type":"uint8[2][]"}],"outputs":[]}]"#;
    assert!(AbiDecoder::new(fine).is_ok());
}

#[test]
fn oversized_fixed_bytes_are_refused_before_decoding() {
    let decoder = AbiDecoder::from_functions(vec![FunctionSignature {
        name: "f".to_string(),
        inputs: vec![ParamType::Uint(256), ParamType::FixedBytes(usize::MAX)],
    }]);
    let selector = compute_function_selector(format!("f(uint256,bytes{})", usize::MAX).as_bytes());
    let mut data = selector.to_vec();
    data.extend_from_slice(&[0u8; 64]);
    assert!(matches!(decoder.decode_call(&data), Err(DecodeError::UnsupportedType(_))));
}

#[test]
fn unicode_outside_bracketed_types_is_admitted() {
    let json = r#"[{"type":"function","name":"transfer","inputs":[{"name":"empfänger","type":"address"},{"name":"betrag","type":"uint256"}],"outputs":[]}]"#;
    let decoder = AbiDecoder::new(json).unwrap();
    let data = format!("a9059cbb{}{}", word_of_address(0x11), word_of(100));
    let (name, _) = decoder.decode_calldata(&data).unwrap();
    assert_eq!(name, "transfer");
}
