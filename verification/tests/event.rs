use ontio_std::abi::{EventBuilder, VmValueBuilderCommon};
use ontio_std::mock::Runtime;
use ontio_std::types::{Address, H256, U128};

#[test]
fn event() {
    let from = Address::repeat_byte(1);
    let to = Address::repeat_byte(2);
    let amount: U128 = 123;
    let mut runtime = Runtime::new();
    EventBuilder::new().string("transfer").address(&from).address(&to).number(amount).notify(&mut runtime);
    assert_eq!(runtime.notify.len(), 1);
    let payload = &runtime.notify[0];
    assert_eq!(&payload[0..4], b"evt\0");
    assert_eq!(payload[4], 0x10);
    assert_eq!(&payload[5..9], &[4, 0, 0, 0]);
    assert_eq!(payload.len(), 9 + (1 + 4 + 8) + 21 + 21 + 17);
}

#[test]
fn event_payload_shape() {
    let addr = Address::repeat_byte(0xaa);
    let payload = EventBuilder::new().string("transfer").address(&addr).number(123).finish();
    let mut expected = b"evt\0".to_vec();
    expected.push(0x10);
    expected.extend_from_slice(&[3, 0, 0, 0]);
    expected.push(0x01);
    expected.extend_from_slice(&[8, 0, 0, 0]);
    expected.extend_from_slice(b"transfer");
    expected.push(0x02);
    expected.extend_from_slice(&[0xaa; 20]);
    expected.push(0x04);
    expected.extend_from_slice(&[123, 0, 0, 0, 0, 0, 0, 0, 0, 0, 0, 0, 0, 0, 0, 0]);
    assert_eq!(payload, expected);
}

#[test]
fn an_event_without_fields_is_its_header() {
    assert_eq!(EventBuilder::new().finish(), vec![0x65, 0x76, 0x74, 0x00, 0x10, 0, 0, 0, 0]);
}

#[test]
fn every_kind_of_field_has_its_tag() {
    let payload = EventBuilder::new()
        .bytearray(&[1, 2, 3])
        .string("hi")
        .address(&Address::repeat_byte(4))
        .bool(true)
        .bool(false)
        .number(u128::MAX)
        .h256(H256::repeat_byte(5))
        .finish();
    let mut expected = b"evt\0".to_vec();
    expected.push(0x10);
    expected.extend_from_slice(&[7, 0, 0, 0]);
    expected.extend_from_slice(&[0x00, 3, 0, 0, 0, 1, 2, 3]);
    expected.extend_from_slice(&[0x01, 2, 0, 0, 0, b'h', b'i']);
    expected.push(0x02);
    expected.extend_from_slice(&[4; 20]);
    expected.extend_from_slice(&[0x03, 1]);
    expected.extend_from_slice(&[0x03, 0]);
    expected.push(0x04);
    expected.extend_from_slice(&[0xff; 16]);
    expected.push(0x05);
    expected.extend_from_slice(&[5; 32]);
    assert_eq!(payload, expected);
}

#[test]
fn the_count_is_written_in_four_little_endian_bytes() {
    let mut eb = EventBuilder::new();
    for _ in 0..258 {
        eb = eb.bool(true);
    }
    let payload = eb.finish();
    assert_eq!(&payload[5..9], &[2, 1, 0, 0]);
    assert_eq!(payload.len(), 9 + 2 * 258);
}

#[test]
fn notifications_are_kept_in_order() {
    let mut runtime = Runtime::new();
    EventBuilder::new().string("a").notify(&mut runtime);
    EventBuilder::new().notify(&mut runtime);
    assert_eq!(runtime.notify.len(), 2);
    assert_eq!(runtime.notify[0], EventBuilder::new().string("a").finish());
    assert_eq!(runtime.notify[1], EventBuilder::new().finish());
}

#[test]
fn the_shared_builder_writes_entries_only() {
    let mut common = VmValueBuilderCommon::new();
    common.string("ab");
    common.bytearray(&[9]);
    common.address(&Address::repeat_byte(1));
    common.number(2);
    common.bool(true);
    common.h256(H256::repeat_byte(3));
    let payload = EventBuilder::new()
        .string("ab")
        .bytearray(&[9])
        .address(&Address::repeat_byte(1))
        .number(2)
        .bool(true)
        .h256(H256::repeat_byte(3))
        .finish();
    assert_eq!(common.into_bytes(), payload[9..].to_vec());
}
