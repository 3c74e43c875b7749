use ontio_std::abi::Error;
use ontio_std::database::{delete, get, put};
use ontio_std::mock::Runtime;
use ontio_std::types::Address;

#[test]
fn what_is_put_is_got() {
    let mut runtime = Runtime::new();
    put(&mut runtime, b"total", 1_000_000u64);
    put(&mut runtime, b"name", String::from("token"));
    put(&mut runtime, b"owner", Address::repeat_byte(7));
    put(&mut runtime, b"list", vec![1u16, 2, 3]);
    assert_eq!(get::<u64>(&runtime, b"total"), Ok(Some(1_000_000)));
    assert_eq!(get::<String>(&runtime, b"name"), Ok(Some(String::from("token"))));
    assert_eq!(get::<Address>(&runtime, b"owner"), Ok(Some(Address::repeat_byte(7))));
    assert_eq!(get::<Vec<u16>>(&runtime, b"list"), Ok(Some(vec![1, 2, 3])));
    assert_eq!(runtime.storage_read(b"total"), Some(vec![0x40, 0x42, 0x0f, 0, 0, 0, 0, 0]));
    put(&mut runtime, b"total", 5u64);
    assert_eq!(get::<u64>(&runtime, b"total"), Ok(Some(5)));
}

#[test]
fn an_absent_record_is_no_failure() {
    let runtime = Runtime::new();
    assert_eq!(get::<u64>(&runtime, b"nothing"), Ok(None));
}

#[test]
fn a_record_that_does_not_decode_is_a_failure() {
    let mut runtime = Runtime::new();
    runtime.storage_write(b"short", &[1, 2, 3]);
    runtime.storage_write(b"flag", &[2]);
    runtime.storage_write(b"text", &[1, 0xff]);
    assert_eq!(get::<u64>(&runtime, b"short"), Err(Error::UnexpectedEOF));
    assert_eq!(get::<bool>(&runtime, b"flag"), Err(Error::IrregularData));
    assert_eq!(get::<String>(&runtime, b"text"), Err(Error::InvalidUtf8));
    assert_eq!(get::<u16>(&runtime, b"short"), Ok(Some(0x0201)));
}

#[test]
fn delete_of_an_absent_key_is_like_never_written() {
    let mut runtime = Runtime::new();
    delete(&mut runtime, b"ghost");
    assert_eq!(get::<u32>(&runtime, b"ghost"), Ok(None));
    put(&mut runtime, b"k", 9u32);
    delete(&mut runtime, b"k");
    assert_eq!(get::<u32>(&runtime, b"k"), Ok(None));
    delete(&mut runtime, b"k");
    assert_eq!(get::<u32>(&runtime, b"k"), Ok(None));
}
