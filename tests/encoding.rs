use ethabi::{ParamType, Token};
use ethereum_types::{H160, U256};
use txn_decoder::encoder::{
    encode_parameters, literal_out_of_range, parse_number, parse_parameter, parse_type,
    AbiEncodingRequest, EncodingError,
};
use txn_decoder::hex_text::{decimal_to_hex, hex_to_decimal, remove_0x_prefix};
use txn_decoder::requests::StringRequest;
use txn_decoder::text_case::convert_string;
use txn_decoder::selector::compute_function_selector;
use txn_decoder::without_abi::CalldataDecoder;

fn request(types: &[&str], values: &[&str]) -> AbiEncodingRequest {
    AbiEncodingRequest {
        abi_types: types.iter().map(|s| s.to_string()).collect(),
        parameters: values.iter().map(|s| s.to_string()).collect(),
    }
}

#[test]
fn encodes_one_uint() {
    let response = encode_parameters(request(&["uint256"], &["1"])).unwrap();
    assert_eq!(response.encoded_output, format!("0x{:064x}", 1));
    let info = response.debug_info.unwrap();
    assert_eq!(info.hex_length, 32);
    assert_eq!(info.parsed_types, vec!["Uint(256)".to_string()]);
}

#[test]
fn encodes_an_address_and_an_amount() {
    let response = encode_parameters(request(
        &["address", "uint"],
        &[&format!("0x{}", "ab".repeat(20)), "0xff"],
    ))
    .unwrap();
    let expected = format!("0x{}{}{:064x}", "00".repeat(12), "ab".repeat(20), 255);
    assert_eq!(response.encoded_output, expected);
}

#[test]
fn mismatched_lengths_are_refused() {
    assert!(matches!(
        encode_parameters(request(&["uint256", "bool"], &["1"])),
        Err(EncodingError::LengthMismatch)
    ));
}

#[test]
fn unknown_type_is_a_type_error() {
    assert!(matches!(
        encode_parameters(request(&["uint7"], &["1"])),
        Err(EncodingError::TypeParseError(_))
    ));
    assert!(matches!(
        encode_parameters(request(&["float"], &["1"])),
        Err(EncodingError::TypeParseError(_))
    ));
}

#[test]
fn bad_literal_is_a_parameter_error() {
    assert!(matches!(
        encode_parameters(request(&["bool"], &["maybe"])),
        Err(EncodingError::ParameterParseError(_))
    ));
    assert!(matches!(
        encode_parameters(request(&["address"], &["0x1234"])),
        Err(EncodingError::ParameterParseError(_))
    ));
}

#[test]
fn out_of_range_literal_is_value_out_of_range() {
    let too_big = "115792089237316195423570985008687907853269984665640564039457584007913129639936";
    assert!(matches!(
        encode_parameters(request(&["uint256"], &[too_big])),
        Err(EncodingError::ValueOutOfRange)
    ));
    assert!(matches!(
        encode_parameters(request(&["int256"], &[&format!("0x1{}", "0".repeat(64))])),
        Err(EncodingError::ValueOutOfRange)
    ));
    assert!(matches!(
        encode_parameters(request(&["uint256", "uint8"], &["12a", too_big])),
        Err(EncodingError::ParameterParseError(_))
    ));
    assert!(literal_out_of_range(too_big));
    assert!(!literal_out_of_range("12"));
    assert_eq!(EncodingError::ValueOutOfRange.message(), "Value out of range");
}

#[test]
fn out_of_range_number_is_refused() {
    let too_big = "115792089237316195423570985008687907853269984665640564039457584007913129639936";
    assert!(parse_number(too_big).is_err());
    let max = "115792089237316195423570985008687907853269984665640564039457584007913129639935";
    assert_eq!(parse_number(max).unwrap(), U256::MAX);
    assert!(parse_number(&format!("0x1{}", "0".repeat(64))).is_err());
}

#[test]
fn reads_numbers() {
    assert_eq!(parse_number("0xff").unwrap(), U256::from(255u64));
    assert_eq!(parse_number("1000").unwrap(), U256::from(1000u64));
    assert!(parse_number("12a").is_err());
    assert!(parse_number("-1").is_err());
}

#[test]
fn reads_encoder_types() {
    assert_eq!(parse_type(" UINT ").unwrap(), ParamType::Uint(256));
    assert_eq!(parse_type("int").unwrap(), ParamType::Int(256));
    assert_eq!(parse_type("Address").unwrap(), ParamType::Address);
    assert_eq!(parse_type("bytes4").unwrap(), ParamType::FixedBytes(4));
    assert!(parse_type("bytes0").is_err());
    assert!(parse_type("bytes33").is_err());
    assert!(parse_type("uint0").is_err());
    assert!(parse_type("uint260").is_err());
    assert!(parse_type("uint255").is_err());
}

#[test]
fn reads_literals() {
    assert_eq!(parse_parameter(" TRUE ", &ParamType::Bool).unwrap(), Token::Bool(true));
    assert_eq!(parse_parameter("0", &ParamType::Bool).unwrap(), Token::Bool(false));
    assert_eq!(
        parse_parameter("\"'hello'\"", &ParamType::String).unwrap(),
        Token::String("hello".to_string())
    );
    assert_eq!(
        parse_parameter("0xdead", &ParamType::Bytes).unwrap(),
        Token::Bytes(vec![0xde, 0xad])
    );
    assert_eq!(
        parse_parameter("0xdeadbeef", &ParamType::FixedBytes(4)).unwrap(),
        Token::FixedBytes(vec![0xde, 0xad, 0xbe, 0xef])
    );
    assert!(parse_parameter("0xdead", &ParamType::FixedBytes(4)).is_err());
    assert!(parse_parameter("dead", &ParamType::Bytes).is_err());
    assert_eq!(
        parse_parameter(&format!("0x{}", "0A".repeat(20)), &ParamType::Address).unwrap(),
        Token::Address(H160([0x0a; 20]))
    );
    assert!(parse_parameter("1", &ParamType::Array(Box::new(ParamType::Bool))).is_err());
}

#[test]
fn encoded_values_decode_back() {
    let types = ["address", "uint256", "int256", "bool", "string", "bytes", "bytes4", "uint8"];
    let values = [
        "0x1111111111111111111111111111111111111111",
        "123456789",
        "0x7f",
        "true",
        "round trip",
        "0x0102030405",
        "0xcafebabe",
        "255",
    ];
    let response = encode_parameters(request(&types, &values)).unwrap();
    let encoded = hex::decode(&response.encoded_output[2..]).unwrap();
    let signature = "f(address,uint256,int256,bool,string,bytes,bytes4,uint8)";
    let mut calldata = compute_function_selector(signature.as_bytes()).to_vec();
    calldata.extend_from_slice(&encoded);
    let decoder = CalldataDecoder::new(signature).unwrap();
    let tokens = decoder.decode_calldata(&hex::encode(&calldata)).unwrap();
    assert_eq!(
        tokens,
        vec![
            Token::Address(H160([0x11; 20])),
            Token::Uint(U256::from(123456789u64)),
            Token::Int(U256::from(0x7fu64)),
            Token::Bool(true),
            Token::String("round trip".to_string()),
            Token::Bytes(vec![1, 2, 3, 4, 5]),
            Token::FixedBytes(vec![0xca, 0xfe, 0xba, 0xbe]),
            Token::Uint(U256::from(255u64)),
        ]
    );
}

#[test]
fn error_messages() {
    assert_eq!(
        EncodingError::LengthMismatch.message(),
        "Number of types and parameters must match"
    );
    assert_eq!(
        EncodingError::TypeParseError("x".to_string()).message(),
        "Type parsing error: x"
    );
}

#[test]
fn takes_off_the_prefix() {
    assert_eq!(remove_0x_prefix("0xabc"), "abc");
    assert_eq!(remove_0x_prefix("0Xab"), "ab");
    assert_eq!(remove_0x_prefix("ab"), "ab");
    assert_eq!(remove_0x_prefix("0"), "0");
}

#[test]
fn hex_numbers() {
    assert_eq!(hex_to_decimal("0x1a").unwrap(), 26);
    assert_eq!(hex_to_decimal("0x0xff").unwrap(), 255);
    assert_eq!(hex_to_decimal("FF").unwrap(), 255);
    assert!(hex_to_decimal("0x").is_err());
    assert!(hex_to_decimal("0x1g").is_err());
    assert!(hex_to_decimal("0x10000000000000000").is_err());
    assert_eq!(decimal_to_hex(255), "0xff");
    assert_eq!(decimal_to_hex(0), "0x0");
    assert_eq!(decimal_to_hex(4096), "0x1000");
}

#[test]
fn converts_case() {
    let up = StringRequest { input_string: "MiXed".to_string(), conversion_type: "uppercase".to_string() };
    assert_eq!(convert_string(&up).unwrap().output_string, "MIXED");
    let low = StringRequest { input_string: "MiXed".to_string(), conversion_type: "lowercase".to_string() };
    assert_eq!(convert_string(&low).unwrap().output_string, "mixed");
    let other = StringRequest { input_string: "x".to_string(), conversion_type: "title".to_string() };
    assert!(convert_string(&other).is_none());
}

#[test]
fn integer_literals_respect_their_width() {
    assert!(matches!(encode_parameters(request(&["uint8"], &["256"])), Err(EncodingError::ValueOutOfRange)));
    assert!(encode_parameters(request(&["uint8"], &["255"])).is_ok());
    assert!(matches!(encode_parameters(request(&["int8"], &["128"])), Err(EncodingError::ValueOutOfRange)));
    assert!(encode_parameters(request(&["int8"], &["127"])).is_ok());
    assert!(parse_parameter("0x100", &ParamType::Uint(8)).is_err());
    assert_eq!(parse_parameter("0xff", &ParamType::Uint(8)).unwrap(), Token::Uint(U256::from(255u64)));
}

#[test]
fn literals_are_trimmed_of_unicode_white_space() {
    let address = format!("\u{a0}0x{}\u{3000}", "0a".repeat(20));
    assert_eq!(
        parse_parameter(&address, &ParamType::Address).unwrap(),
        Token::Address(H160([0x0a; 20]))
    );
    assert_eq!(parse_type("\u{2003}uint8\u{85}").unwrap(), ParamType::Uint(8));
}

#[test]
fn negative_int_literals_in_twos_complement() {
    let minus_one = format!("0x{}", "f".repeat(64));
    assert!(encode_parameters(request(&["int256"], &[&minus_one])).is_ok());
    assert!(encode_parameters(request(&["int8"], &[&minus_one])).is_ok());
    let minus_129 = format!("0x{}7f", "f".repeat(62));
    assert!(matches!(encode_parameters(request(&["int8"], &[&minus_129])), Err(EncodingError::ValueOutOfRange)));
    assert!(matches!(encode_parameters(request(&["uint256", "int8"], &["1", &minus_one])), Ok(_)));
}
