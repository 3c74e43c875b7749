use ontio_std::types::{
    bytes_equal, to_hex_string, to_hex_string_reverse, to_neo_bytes, u128_from_neo_bytes,
    Address, H160, H256,
};

#[test]
fn test_to_neo_bytes() {
    let raw_data = [0u128, 128, 1024, 10000, 8380656, 8446192];
    let expected_data = ["00", "8000", "0004", "1027", "f0e07f", "f0e08000"];
    for (data, exp) in raw_data.iter().zip(&expected_data) {
        let res = to_neo_bytes(*data);
        let r = to_hex_string(res.as_slice());
        assert_eq!(r, exp.to_string());
    }
}

#[test]
fn neo_bytes_keep_one_byte_for_zero() {
    assert_eq!(to_neo_bytes(0), vec![0u8]);
}

#[test]
fn neo_bytes_of_the_largest_number() {
    let mut expected = vec![0xffu8; 16];
    expected.push(0);
    assert_eq!(to_neo_bytes(u128::MAX), expected);
    assert_eq!(to_neo_bytes(u128::MAX >> 1).len(), 16);
}

#[test]
fn neo_bytes_read_back() {
    let values = [
        0u128,
        1,
        127,
        128,
        255,
        256,
        0x7fff,
        0x8000,
        u64::MAX as u128,
        1 << 127,
        u128::MAX >> 1,
        u128::MAX,
    ];
    for v in values.iter() {
        assert_eq!(u128_from_neo_bytes(&to_neo_bytes(*v)), *v);
    }
}

#[test]
fn neo_bytes_past_the_sixteenth_are_not_read() {
    let mut raw = vec![1u8; 16];
    let low = u128_from_neo_bytes(&raw);
    raw.push(7);
    raw.push(9);
    assert_eq!(u128_from_neo_bytes(&raw), low);
    assert_eq!(u128_from_neo_bytes(&[]), 0);
    assert_eq!(u128_from_neo_bytes(&[0x10, 0x27]), 10000);
}

#[test]
fn hex_strings() {
    assert_eq!(to_hex_string(&[]), "");
    assert_eq!(to_hex_string(&[0x00, 0x0f, 0xa0, 0xff]), "000fa0ff");
    assert_eq!(to_hex_string_reverse(&[0x00, 0x0f, 0xa0, 0xff]), "ffa00f00");
}

#[test]
fn identifiers_print_last_byte_first() {
    let mut raw = [0u8; 20];
    raw[0] = 0xab;
    raw[19] = 0x01;
    let addr = Address::new(raw);
    assert_eq!(addr.to_hex_string(), "01000000000000000000000000000000000000ab");
    let mut raw = [0u8; 32];
    raw[31] = 0xfe;
    let hash = H256::new(raw);
    assert_eq!(
        hash.to_hex_string(),
        "fe00000000000000000000000000000000000000000000000000000000000000"
    );
}

#[test]
fn identifier_constructors() {
    assert_eq!(H160::zero(), H160::new([0u8; 20]));
    assert_eq!(H160::default(), H160::zero());
    assert_eq!(H256::repeat_byte(7), H256::new([7u8; 32]));
    let raw: Vec<u8> = (0u8..20).collect();
    let addr = H160::from_slice(&raw);
    assert_eq!(addr.as_bytes(), &raw[..]);
    assert_ne!(addr, H160::zero());
    let raw: Vec<u8> = (0u8..32).collect();
    assert_eq!(H256::from_slice(&raw).as_bytes(), &raw[..]);
}

#[test]
fn byte_strings_compare_by_content() {
    assert!(bytes_equal(&[], &[]));
    assert!(bytes_equal(&[1, 2, 3], &[1, 2, 3]));
    assert!(!bytes_equal(&[1, 2, 3], &[1, 2]));
    assert!(!bytes_equal(&[1, 2, 3], &[1, 2, 4]));
}
