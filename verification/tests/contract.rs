use ontio_std::contract::ont::State;
use ontio_std::contract::util::{
    allowance_inner, amount, approve_inner, balance_of_inner, succeeded, transfer_from_inner,
    transfer_inner,
};
use ontio_std::contract::{ong, ont};
use ontio_std::types::Address;

fn request(method: &str, args: &[u8]) -> Vec<u8> {
    let mut out = vec![0u8, method.len() as u8];
    out.extend_from_slice(method.as_bytes());
    out.push(args.len() as u8);
    out.extend_from_slice(args);
    out
}

fn native(addr: &Address) -> Vec<u8> {
    let mut out = vec![20u8];
    out.extend_from_slice(addr.as_bytes());
    out
}

#[test]
fn contract_addresses() {
    let a = Address::repeat_byte(1);
    let mut ont_addr = [0u8; 20];
    ont_addr[19] = 1;
    let mut ong_addr = [0u8; 20];
    ong_addr[19] = 2;
    assert_eq!(ont::balance_of(&a).contract, Address::new(ont_addr));
    assert_eq!(ong::balance_of(&a).contract, Address::new(ong_addr));
    assert_eq!(ont::transfer(&[]).contract, Address::new(ont_addr));
    assert_eq!(ong::transfer(&[]).contract, Address::new(ong_addr));
    assert_eq!(ont::approve(&a, &a, 1).contract, Address::new(ont_addr));
    assert_eq!(ong::approve(&a, &a, 1).contract, Address::new(ong_addr));
    assert_eq!(ont::allowance(&a, &a).contract, Address::new(ont_addr));
    assert_eq!(ong::allowance(&a, &a).contract, Address::new(ong_addr));
    assert_eq!(ont::transfer_from(&a, &a, &a, 1).contract, Address::new(ont_addr));
    assert_eq!(ong::transfer_from(&a, &a, &a, 1).contract, Address::new(ong_addr));
}

#[test]
fn transfer_request() {
    let from = Address::repeat_byte(1);
    let to = Address::repeat_byte(2);
    let states = [State { from, to, amount: 128 }, State { from: to, to: from, amount: 0 }];
    let mut args = vec![1u8, 2];
    args.extend(native(&from));
    args.extend(native(&to));
    args.extend_from_slice(&[2, 0x80, 0x00]);
    args.extend(native(&to));
    args.extend(native(&from));
    args.extend_from_slice(&[1, 0x00]);
    let call = ont::transfer(&states);
    assert_eq!(call.input, request("transfer", &args));
    assert_eq!(ong::transfer(&states).input, call.input);
    let target = Address::repeat_byte(9);
    let call = transfer_inner(&target, &[]);
    assert_eq!(call.contract, target);
    assert_eq!(call.input, request("transfer", &[1, 0]));
}

#[test]
fn approve_request() {
    let from = Address::repeat_byte(1);
    let to = Address::repeat_byte(2);
    let mut args = native(&from);
    args.extend(native(&to));
    args.extend_from_slice(&[2, 0x10, 0x27]);
    assert_eq!(ont::approve(&from, &to, 10000).input, request("approve", &args));
    assert_eq!(approve_inner(&to, &from, &to, 10000).input, request("approve", &args));
}

#[test]
fn transfer_from_request() {
    let sender = Address::repeat_byte(3);
    let from = Address::repeat_byte(1);
    let to = Address::repeat_byte(2);
    let mut args = native(&sender);
    args.extend(native(&from));
    args.extend(native(&to));
    args.extend_from_slice(&[1, 100]);
    assert_eq!(ong::transfer_from(&sender, &from, &to, 100).input, request("transferFrom", &args));
    assert_eq!(
        transfer_from_inner(&to, &sender, &from, &to, 100).input,
        request("transferFrom", &args)
    );
}

#[test]
fn query_requests() {
    let from = Address::repeat_byte(1);
    let to = Address::repeat_byte(2);
    let mut args = native(&from);
    args.extend(native(&to));
    assert_eq!(ont::allowance(&from, &to).input, request("allowance", &args));
    assert_eq!(allowance_inner(&to, &from, &to).input, request("allowance", &args));
    assert_eq!(ong::balance_of(&from).input, request("balanceOf", &native(&from)));
    assert_eq!(balance_of_inner(&to, &from).input, request("balanceOf", &native(&from)));
}

#[test]
fn an_empty_or_missing_answer_is_false_or_zero() {
    assert!(!succeeded(&None));
    assert!(!succeeded(&Some(vec![])));
    assert!(succeeded(&Some(vec![0])));
    assert!(succeeded(&Some(vec![1])));
    assert_eq!(amount(&None), 0);
    assert_eq!(amount(&Some(vec![])), 0);
    assert_eq!(amount(&Some(vec![0x10, 0x27])), 10000);
    assert_eq!(amount(&Some(vec![0x80, 0x00])), 128);
}
