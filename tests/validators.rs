use cita_cli::hex::{decode_fixed_hex, is_hex, remove_0x, HexError};
use cita_cli::number::{parse_chain_id, parse_height, parse_u64};
use cita_cli::primitives::{
    decode_address, h256_validator, parse_address, parse_privkey, parse_u256, privkey_validator,
    Encryption, U256,
};

const ADDR: &str = "0xffffffffffffffffffffffffffffffffff020004";
const KEY: &str = "0x0000000000000000000000000000000000000000000000000000000000000001";

#[test]
fn is_hex_rejects_short_strings() {
    assert_eq!(is_hex(""), Err("Must be a hexadecimal string".to_string()));
    assert_eq!(is_hex("0"), Err("Must be a hexadecimal string".to_string()));
    assert_eq!(is_hex("x"), Err("Must be a hexadecimal string".to_string()));
}

#[test]
fn is_hex_checks_prefix_only() {
    assert_eq!(is_hex("0x"), Ok(()));
    assert_eq!(is_hex("0X12"), Ok(()));
    assert_eq!(is_hex("0xzz"), Ok(()));
    assert_eq!(is_hex("12"), Err("Must hex string".to_string()));
    assert_eq!(is_hex("x0"), Err("Must hex string".to_string()));
    assert_eq!(is_hex("\u{e9}"), Err("Must hex string".to_string()));
}

#[test]
fn malformed_hex_body_passes_is_hex_but_not_decoder() {
    let bad = "0xzz00000000000000000000000000000000000000000000000000000000000000";
    assert!(is_hex(bad).is_ok());
    assert_eq!(
        h256_validator(bad),
        Err("Invalid H256: Invalid character".to_string())
    );
    assert!(parse_address("0xzzffffffffffffffffffffffffffffffff020004").is_err());
}

#[test]
fn remove_0x_strips_one_marker() {
    assert_eq!(remove_0x("0x12"), "12");
    assert_eq!(remove_0x("0X12"), "12");
    assert_eq!(remove_0x("12"), "12");
    assert_eq!(remove_0x(""), "");
    assert_eq!(remove_0x("0"), "0");
    assert_eq!(remove_0x("0x0x1"), "1");
    assert_eq!(remove_0x("0X0x0xab"), "ab");
}

#[test]
fn remove_0x_twice_is_once() {
    for s in ["0x12", "0Xab", "12", "", "0", "x0", "0x0x1", "0x0X"] {
        assert_eq!(remove_0x(remove_0x(s)), remove_0x(s));
    }
}

#[test]
fn parse_u64_examples() {
    assert_eq!(parse_u64("0x10"), Ok(16));
    assert_eq!(parse_u64("16"), Ok(16));
    assert!(parse_u64("not-a-number").is_err());
    assert_eq!(parse_u64("0xffffffffffffffff"), Ok(u64::MAX));
    assert_eq!(parse_u64("18446744073709551615"), Ok(u64::MAX));
    assert!(parse_u64("18446744073709551616").is_err());
    assert!(parse_u64("0x10000000000000000").is_err());
    assert_eq!(parse_u64("+7"), Ok(7));
    assert!(parse_u64("").is_err());
    assert!(parse_u64("0x").is_err());
}

#[test]
fn parse_u64_error_texts() {
    assert_eq!(
        parse_u64("0xzz"),
        Err("invalid digit found in string".to_string())
    );
    assert_eq!(
        parse_u64("abc"),
        Err("ParseIntError { kind: InvalidDigit }".to_string())
    );
    assert_eq!(
        parse_u64("99999999999999999999"),
        Err("ParseIntError { kind: PosOverflow }".to_string())
    );
}

#[test]
fn parse_height_examples() {
    assert_eq!(parse_height("latest"), Ok(()));
    assert_eq!(parse_height("earliest"), Ok(()));
    assert_eq!(parse_height("0x5"), Ok(()));
    assert_eq!(parse_height("12"), Ok(()));
    assert_eq!(
        parse_height("-1"),
        Err("\"ParseIntError { kind: InvalidDigit }\"".to_string())
    );
    assert!(parse_height("Latest").is_err());
    assert_eq!(
        parse_height("0x"),
        Err("\"cannot parse integer from empty string\"".to_string())
    );
}

#[test]
fn parse_chain_id_range() {
    assert_eq!(parse_chain_id("1"), Ok(1));
    assert_eq!(parse_chain_id("4294967295"), Ok(u32::MAX));
    assert!(parse_chain_id("4294967296").is_err());
    assert_eq!(
        parse_chain_id("0x1"),
        Err("ParseIntError { kind: InvalidDigit }".to_string())
    );
    assert_eq!(
        parse_chain_id("+"),
        Err("ParseIntError { kind: InvalidDigit }".to_string())
    );
    assert_eq!(parse_chain_id(""), Err("ParseIntError { kind: Empty }".to_string()));
}

#[test]
fn parse_u256_hex_and_decimal() {
    assert_eq!(parse_u256("0x10"), Ok(U256::from_u64(16)));
    assert_eq!(parse_u256("16"), Ok(U256::from_u64(16)));
    assert_eq!(
        parse_u256("18446744073709551616"),
        Ok(U256 { l0: 0, l1: 1, l2: 0, l3: 0 })
    );
    let max = format!("0x{}", "f".repeat(64));
    assert_eq!(
        parse_u256(&max),
        Ok(U256 { l0: u64::MAX, l1: u64::MAX, l2: u64::MAX, l3: u64::MAX })
    );
    let over = format!("0x1{}", "0".repeat(64));
    assert!(parse_u256(&over).is_err());
    assert_eq!(parse_u256("-1"), Err("Value can't parse into u256".to_string()));
    assert!(parse_u256("1.5").is_err());
    assert!(parse_u256("0xzz").is_err());
    assert!(parse_u256("12a").is_err());
    assert!(parse_u256("").is_err());
    assert_eq!(
        parse_u256(
            "115792089237316195423570985008687907853269984665640564039457584007913129639935"
        ),
        Ok(U256 { l0: u64::MAX, l1: u64::MAX, l2: u64::MAX, l3: u64::MAX })
    );
    assert!(parse_u256(
        "115792089237316195423570985008687907853269984665640564039457584007913129639936"
    )
    .is_err());
}

#[test]
fn fixed_width_decoding() {
    assert_eq!(decode_fixed_hex("0aFf", 2), Ok(vec![0x0a, 0xff]));
    assert_eq!(decode_fixed_hex("0aF", 2), Err(HexError::InvalidLength));
    assert_eq!(decode_fixed_hex("0g", 1), Err(HexError::InvalidCharacter(1)));
    let a = decode_address(ADDR).unwrap();
    assert_eq!(a.bytes.len(), 20);
    assert_eq!(a.bytes[19], 0x04);
    assert_eq!(a.bytes[0], 0xff);
    assert!(parse_address("0xffff").is_err());
    assert!(parse_address("ffffffffffffffffffffffffffffffffff020004").is_err());
}

#[test]
fn h256_and_private_keys() {
    assert_eq!(h256_validator(KEY), Ok(()));
    assert_eq!(
        h256_validator("0x01"),
        Err("Invalid H256: Invalid input length".to_string())
    );
    assert_eq!(
        parse_privkey("01", Encryption::Secp256k1).err(),
        Some("Must hex string".to_string())
    );
    assert_eq!(
        parse_address("0x12").err(),
        Some("Invalid input length".to_string())
    );
    assert_eq!(h256_validator("01"), Err("Must hex string".to_string()));
    let k = parse_privkey(KEY, Encryption::Secp256k1).unwrap();
    assert_eq!(k.bytes.len(), 32);
    assert_eq!(k.bytes[31], 1);
    assert!(parse_privkey(KEY, Encryption::Ed25519).is_err());
    let long = format!("0x{}", "ab".repeat(64));
    assert_eq!(parse_privkey(&long, Encryption::Ed25519).unwrap().bytes.len(), 64);
    assert_eq!(privkey_validator(KEY), Ok(()));
    assert_eq!(privkey_validator(&long), Ok(()));
    assert!(privkey_validator("0x1234").is_err());
}
