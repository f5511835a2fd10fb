use eth_connector::Address;

#[test]
fn test_address_serializer() {
    let eth_address = "096DE9C2B8A5B8c22cEe3289B101f6960d68E51E";
    let serialized_addr = Address::from_hex(eth_address).unwrap().raw();
    assert_eq!(serialized_addr.len(), 20);

    let addr = Address::try_from_slice(&serialized_addr).unwrap();
    assert_eq!(
        addr.encode(),
        "096DE9C2B8A5B8c22cEe3289B101f6960d68E51E".to_lowercase()
    );
}

#[test]
fn wrong_address_length_19_is_rejected() {
    let serialized_addr = [0u8; 19];
    let addr = Address::try_from_slice(&serialized_addr);
    assert!(addr.is_err());
}

#[test]
fn wrong_address_length_21_is_rejected() {
    let serialized_addr = [0u8; 21];
    let addr = Address::try_from_slice(&serialized_addr);
    assert!(addr.is_err());
}

#[test]
fn exact_length_20_is_accepted() {
    let serialized_addr = [7u8; 20];
    let addr = Address::try_from_slice(&serialized_addr).unwrap();
    assert_eq!(addr.as_bytes(), &serialized_addr);
}

#[test]
fn from_hex_rejects_bad_inputs() {
    // wrong length: 38 digits
    assert!(Address::from_hex("00112233445566778899aabbccddeeff0011").is_err());
    // odd length
    assert!(Address::from_hex("00112233445566778899aabbccddeeff0011223").is_err());
    // non-hex character
    assert!(Address::from_hex("g0112233445566778899aabbccddeeff00112233").is_err());
    // 42 digits
    assert!(Address::from_hex("00112233445566778899aabbccddeeff0011223344").is_err());
}

#[test]
fn encode_produces_exact_lowercase_hex() {
    let bytes: Vec<u8> = vec![
        0x00, 0x11, 0x22, 0x33, 0x44, 0x55, 0x66, 0x77, 0x88, 0x99, 0xaa, 0xbb, 0xcc, 0xdd, 0xee,
        0xff, 0x01, 0x23, 0x45, 0x67,
    ];
    let addr = Address::new(bytes);
    assert_eq!(addr.encode(), "00112233445566778899aabbccddeeff01234567");
}

#[test]
fn mixed_case_hex_decodes_to_same_bytes() {
    let lower = Address::from_hex("deadbeefdeadbeefdeadbeefdeadbeefdeadbeef").unwrap();
    let mixed = Address::from_hex("DeAdBeEfDeadBEEFdeadbeefDEADBEEFdeadbeef").unwrap();
    assert_eq!(lower, mixed);
    assert_eq!(lower.encode(), "deadbeefdeadbeefdeadbeefdeadbeefdeadbeef");
}

#[test]
fn hex_round_trip_through_encode() {
    let addr = Address::from_hex("096de9c2b8a5b8c22cee3289b101f6960d68e51e").unwrap();
    let again = Address::from_hex(&addr.encode()).unwrap();
    assert_eq!(addr, again);
    assert_eq!(addr.raw(), again.raw());
}
