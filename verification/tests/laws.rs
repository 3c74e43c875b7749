use ontio_std::abi::{AbiCodec, Error, EventBuilder, Sink, Source};
use ontio_std::mock::Runtime;
use ontio_std::types::{to_neo_bytes, u128_from_neo_bytes, Address, H256};

/// A small generator of pseudo-random numbers, the same on every run.
struct Lcg(u64);

impl Lcg {
    fn next(&mut self) -> u64 {
        self.0 = self.0.wrapping_mul(6364136223846793005).wrapping_add(1442695040888963407);
        self.0 >> 11
    }

    fn bytes(&mut self, len: usize) -> Vec<u8> {
        (0..len).map(|_| self.next() as u8).collect()
    }

    fn text(&mut self, len: usize) -> String {
        let alphabet = ['a', 'Z', '0', ' ', '\u{e9}', '\u{3b1}', '\u{4e16}', '\u{1f600}', '\0'];
        (0..len).map(|_| alphabet[(self.next() % 9) as usize]).collect()
    }
}

fn encoded<T: AbiCodec>(value: T) -> Vec<u8> {
    let mut sink = Sink::new(0);
    sink.write(value);
    sink.into()
}

fn round_trips<T: AbiCodec + Clone + PartialEq + core::fmt::Debug>(value: T) {
    let mut wire = encoded(value.clone());
    let len = wire.len();
    wire.extend_from_slice(&[0xaa, 0xbb]);
    let mut source = Source::new(&wire);
    assert_eq!(source.read::<T>(), Ok(value));
    assert_eq!(source.position(), len);
}

fn every_cut_is_truncated_input<T: AbiCodec + Clone + PartialEq + core::fmt::Debug>(value: T) {
    let wire = encoded(value);
    for n in 0..wire.len() {
        let mut source = Source::new(&wire[..n]);
        assert_eq!(source.read::<T>(), Err(Error::UnexpectedEOF));
        assert_eq!(source.position(), 0);
    }
}

#[test]
fn random_values_round_trip() {
    let mut rng = Lcg(0x5eed);
    for _ in 0..200 {
        round_trips(rng.next() as u8);
        round_trips(rng.next() as u16);
        round_trips(rng.next() as u32);
        round_trips(rng.next() << 11 | rng.next());
        round_trips(rng.next() % 2 == 0);
    }
    for len in [0usize, 1, 2, 252, 253, 1024, 1025, 3000].iter() {
        round_trips(rng.bytes(*len));
        round_trips(rng.text(*len));
    }
    for _ in 0..20 {
        let raw = rng.bytes(20);
        round_trips(Address::from_slice(&raw));
        let raw = rng.bytes(32);
        round_trips(H256::from_slice(&raw));
        let mut arr = [0u8; 7];
        arr.copy_from_slice(&rng.bytes(7));
        round_trips(arr);
        let n = (rng.next() % 5) as usize;
        let texts: Vec<String> = (0..n).map(|i| rng.text(i * 3)).collect();
        round_trips(texts);
        let nested: Vec<Vec<u16>> =
            (0..n).map(|i| (0..i).map(|_| rng.next() as u16).collect()).collect();
        round_trips(nested);
    }
}

#[test]
fn an_encoding_cut_short_is_truncated_input() {
    every_cut_is_truncated_input(7u8);
    every_cut_is_truncated_input(0x1234u16);
    every_cut_is_truncated_input(0x12345678u32);
    every_cut_is_truncated_input(u64::MAX);
    every_cut_is_truncated_input(true);
    every_cut_is_truncated_input([1u8, 2, 3]);
    every_cut_is_truncated_input(Address::repeat_byte(1));
    every_cut_is_truncated_input(H256::repeat_byte(2));
    every_cut_is_truncated_input(String::from("h\u{e9}llo"));
    every_cut_is_truncated_input(vec![1u32, 2, 3]);
    every_cut_is_truncated_input(vec![String::from("ab"), String::new(), String::from("c")]);
    every_cut_is_truncated_input(vec![0u8; 300]);
}

#[test]
fn neo_bytes_are_short_and_never_negative() {
    let mut rng = Lcg(7);
    for shift in 0..128u32 {
        for v in [1u128 << shift, (1u128 << shift) - 1, (rng.next() as u128) << (shift % 64)].iter() {
            let raw = to_neo_bytes(*v);
            assert!(raw.len() >= 1 && raw.len() <= 17);
            assert!(raw[raw.len() - 1] < 0x80);
            if raw.len() > 1 {
                assert!(raw[raw.len() - 1] != 0 || raw[raw.len() - 2] >= 0x80);
            }
            assert_eq!(u128_from_neo_bytes(&raw), *v);
        }
    }
}

#[test]
fn integers_read_and_written_back_are_the_same_bytes() {
    let mut rng = Lcg(99);
    for _ in 0..50 {
        let raw = rng.bytes(8);
        let mut source = Source::new(&raw);
        let value = source.read_u64().unwrap();
        let mut sink = Sink::new(8);
        sink.write_u64(value);
        assert_eq!(sink.bytes(), &raw[..]);
    }
}

#[test]
fn an_entry_length_is_four_little_endian_bytes() {
    let data = vec![7u8; 300];
    let payload = EventBuilder::default().bytearray(&data).finish();
    assert_eq!(&payload[9..14], &[0x00, 0x2c, 0x01, 0x00, 0x00]);
    assert_eq!(&payload[14..], &data[..]);
}

#[test]
fn the_host_hands_over_a_record_in_pieces() {
    let mut runtime = Runtime::new();
    runtime.storage_write(b"k", &[1, 2, 3, 4, 5]);
    assert_eq!(runtime.storage_read_at(b"k", 32, 0), (5, vec![1, 2, 3, 4, 5]));
    assert_eq!(runtime.storage_read_at(b"k", 2, 0), (5, vec![1, 2]));
    assert_eq!(runtime.storage_read_at(b"k", 2, 2), (5, vec![3, 4]));
    assert_eq!(runtime.storage_read_at(b"k", 2, 4), (5, vec![5]));
    assert_eq!(runtime.storage_read_at(b"k", 2, 5), (5, vec![]));
    assert_eq!(runtime.storage_read_at(b"k", 0, 1), (5, vec![]));
    assert_eq!(runtime.storage_read_at(b"none", 8, 0), (u32::MAX, vec![]));
}
