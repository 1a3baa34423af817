use chain_balances::hex::{parse_evm_address, Uint256};

#[test]
fn address_parses_with_and_without_prefix() {
    let with = parse_evm_address("0xAaAaAAAAaaaaAAAAAAAAaaaaAAAAaaaaAAAAaaaa").unwrap();
    assert_eq!(with.bytes, vec![0xaa; 20]);
    let without = parse_evm_address("aaaaaaaaaaaaaaaaaaaaaaaaaaaaaaaaaaaaaaaa").unwrap();
    assert_eq!(without.bytes, with.bytes);
    let mixed = parse_evm_address("0x0123456789abcdefABCDEF0123456789abcdef01").unwrap();
    assert_eq!(
        mixed.bytes,
        vec![
            0x01, 0x23, 0x45, 0x67, 0x89, 0xab, 0xcd, 0xef, 0xab, 0xcd, 0xef, 0x01, 0x23, 0x45,
            0x67, 0x89, 0xab, 0xcd, 0xef, 0x01
        ]
    );
}

#[test]
fn malformed_addresses_are_refused() {
    assert!(parse_evm_address("").is_none());
    assert!(parse_evm_address("0x").is_none());
    assert!(parse_evm_address("0x1234").is_none());
    // One character short.
    assert!(parse_evm_address("0xaaaaaaaaaaaaaaaaaaaaaaaaaaaaaaaaaaaaaaa").is_none());
    // One character long.
    assert!(parse_evm_address("0xaaaaaaaaaaaaaaaaaaaaaaaaaaaaaaaaaaaaaaaaa").is_none());
    // A non-hex character.
    assert!(parse_evm_address("0xga aaaaaaaaaaaaaaaaaaaaaaaaaaaaaaaaaaaaaa").is_none());
    assert!(parse_evm_address("0xgaaaaaaaaaaaaaaaaaaaaaaaaaaaaaaaaaaaaaaa").is_none());
}

#[test]
fn quantities_parse_as_their_hex_value() {
    assert_eq!(Uint256::from_hex_quantity("0x0").unwrap().to_u64(), Some(0));
    assert_eq!(Uint256::from_hex_quantity("0x1a").unwrap().to_u64(), Some(26));
    assert_eq!(
        Uint256::from_hex_quantity("0xDeadBeef").unwrap().to_u64(),
        Some(0xdead_beef)
    );
    assert_eq!(
        Uint256::from_hex_quantity("0xffffffffffffffff").unwrap().to_u64(),
        Some(u64::MAX)
    );
    // One over 64 bits no longer fits the external representation.
    assert_eq!(
        Uint256::from_hex_quantity("0x10000000000000000").unwrap().to_u64(),
        None
    );
}

#[test]
fn malformed_quantities_are_refused() {
    assert!(Uint256::from_hex_quantity("").is_none());
    assert!(Uint256::from_hex_quantity("0x").is_none());
    assert!(Uint256::from_hex_quantity("1a").is_none());
    assert!(Uint256::from_hex_quantity("0xzz").is_none());
    // 65 digits are wider than 256 bits.
    let too_wide = format!("0x1{}", "0".repeat(64));
    assert!(Uint256::from_hex_quantity(&too_wide).is_none());
    // 64 digits are the widest accepted form.
    let widest = format!("0x{}", "f".repeat(64));
    let w = Uint256::from_hex_quantity(&widest).unwrap();
    assert_eq!(w.bytes, vec![0xff; 32]);
}

#[test]
fn words_must_be_exactly_thirty_two_bytes() {
    assert!(Uint256::from_word(vec![0u8; 31]).is_none());
    assert!(Uint256::from_word(vec![0u8; 33]).is_none());
    let w = Uint256::from_word(vec![0u8; 32]).unwrap();
    assert_eq!(w.to_u64(), Some(0));
}
