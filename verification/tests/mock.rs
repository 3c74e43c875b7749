use ontio_std::mock::{Runtime, Storage};
use ontio_std::types::{to_hex_string, Address, H256};

#[test]
fn storage_keeps_the_last_value_written() {
    let mut storage = Storage::new();
    assert_eq!(storage.get(b"k"), None);
    storage.insert(b"k", b"one");
    storage.insert(b"other", b"two");
    assert_eq!(storage.get(b"k"), Some(b"one".to_vec()));
    storage.insert(b"k", b"three");
    assert_eq!(storage.get(b"k"), Some(b"three".to_vec()));
    assert_eq!(storage.get(b"other"), Some(b"two".to_vec()));
    storage.remove(b"k");
    assert_eq!(storage.get(b"k"), None);
    assert_eq!(storage.get(b"other"), Some(b"two".to_vec()));
    storage.remove(b"k");
    assert_eq!(storage.get(b"k"), None);
    storage.insert(b"", b"");
    assert_eq!(storage.get(b""), Some(vec![]));
}

#[test]
fn runtime_storage() {
    let mut runtime = Runtime::new();
    assert_eq!(runtime.storage_read(b"a"), None);
    runtime.storage_write(b"a", &[1, 2]);
    assert_eq!(runtime.storage_read(b"a"), Some(vec![1, 2]));
    runtime.storage_delete(b"a");
    assert_eq!(runtime.storage_read(b"a"), None);
    runtime.storage_delete(b"never");
    assert_eq!(runtime.storage_read(b"never"), None);
}

#[test]
fn runtime_chain_state() {
    let mut runtime = Runtime::default();
    assert_eq!(runtime.timestamp(), 0);
    assert_eq!(runtime.block_height(), 0);
    assert_eq!(runtime.address(), Address::zero());
    runtime.timestamp = 11;
    runtime.block_height = 12;
    runtime.self_addr = Address::repeat_byte(1);
    runtime.caller = Address::repeat_byte(2);
    runtime.entry_address = Address::repeat_byte(3);
    runtime.block_hash = H256::repeat_byte(4);
    runtime.tx_hash = H256::repeat_byte(5);
    assert_eq!(runtime.timestamp(), 11);
    assert_eq!(runtime.block_height(), 12);
    assert_eq!(runtime.address(), Address::repeat_byte(1));
    assert_eq!(runtime.caller(), Address::repeat_byte(2));
    assert_eq!(runtime.entry_address(), Address::repeat_byte(3));
    assert_eq!(runtime.current_blockhash(), H256::repeat_byte(4));
    assert_eq!(runtime.current_txhash(), H256::repeat_byte(5));
}

#[test]
fn runtime_witness() {
    let mut runtime = Runtime::new();
    let owner = Address::repeat_byte(1);
    let alice = Address::repeat_byte(2);
    assert!(!runtime.check_witness(&owner));
    runtime.witness.push(owner);
    assert!(runtime.check_witness(&owner));
    assert!(!runtime.check_witness(&alice));
    runtime.witness.push(alice);
    assert!(runtime.check_witness(&alice));
}

#[test]
fn runtime_notify() {
    let mut runtime = Runtime::new();
    runtime.notify(&[1]);
    runtime.notify(&[]);
    runtime.notify(&[2, 3]);
    assert_eq!(runtime.notify, vec![vec![1], vec![], vec![2, 3]]);
}

#[test]
fn runtime_sha256() {
    let runtime = Runtime::new();
    assert_eq!(
        to_hex_string(runtime.sha256(b"abc").as_bytes()),
        "ba7816bf8f01cfea414140de5dae2223b00361a396177a9cb410ff61f20015ad"
    );
    assert_eq!(
        to_hex_string(runtime.sha256(b"").as_bytes()),
        "e3b0c44298fc1c149afbf4c8996fb92427ae41e4649b934ca495991b7852b855"
    );
    assert_ne!(runtime.sha256(b"abc"), runtime.sha256(b"abd"));
}

#[test]
fn runtime_call_output() {
    let mut runtime = Runtime::new();
    assert_eq!(runtime.call_output_length(), 0);
    runtime.call_contract(Some(vec![1, 2, 3]));
    assert_eq!(runtime.get_call_output(), vec![1, 2, 3]);
    assert_eq!(runtime.call_output_length(), 3);
    runtime.call_contract(None);
    assert_eq!(runtime.get_call_output(), Vec::<u8>::new());
    assert_eq!(runtime.call_output_length(), 0);
}
