use omarchy_portal::capture::{parse_address, AddressError};

#[test]
fn hex_addresses() {
    assert_eq!(parse_address("0x55d0c0ffee00"), Ok(0x55d0c0ffee00));
    assert_eq!(parse_address("  0XABC\n"), Ok(0xabc));
    assert_eq!(parse_address("55d0c0ffee00"), Ok(0x55d0c0ffee00));
}

#[test]
fn decimal_addresses() {
    assert_eq!(parse_address("1234"), Ok(1234));
    assert_eq!(parse_address("18446744073709551615"), Ok(u64::MAX));
}

#[test]
fn refused_addresses() {
    assert_eq!(parse_address(""), Err(AddressError::Empty));
    assert_eq!(parse_address(" 0 "), Err(AddressError::Empty));
    assert_eq!(parse_address("0x"), Err(AddressError::BadHex));
    assert_eq!(parse_address("0xzz"), Err(AddressError::BadHex));
    assert_eq!(parse_address("hello"), Err(AddressError::BadHex));
    assert_eq!(parse_address("18446744073709551616"), Err(AddressError::BadDecimal));
    assert_eq!(parse_address("0x10000000000000000"), Err(AddressError::BadHex));
}
