//! Requests to the ONT contract.

use super::util::{
    allowance_args, allowance_inner, approve_args, approve_inner, balance_of_args,
    balance_of_inner, invocation_bytes, transfer_args, transfer_from_args, transfer_from_inner,
    transfer_inner, Invocation,
};
use crate::types::{Address, U128};
use vstd::prelude::*;

verus! {

/// The address of the ONT contract.
pub const ONT_CONTRACT_ADDRESS: [u8; 20] = [
    0, 0, 0, 0, 0, 0, 0, 0, 0, 0, 0, 0, 0, 0, 0, 0, 0, 0, 0, 1,
];

/// One transfer: `amount` from `from` to `to`.
pub struct State {
    pub from: Address,
    pub to: Address,
    pub amount: U128,
}

pub fn transfer(states: &[State]) -> (call: Invocation)
    ensures
        call.contract@ == ONT_CONTRACT_ADDRESS@,
        call.input@ == invocation_bytes("transfer"@, transfer_args(states@)),
{
    transfer_inner(&Address::new(ONT_CONTRACT_ADDRESS), states)
}

pub fn approve(from: &Address, to: &Address, amount: U128) -> (call: Invocation)
    ensures
        call.contract@ == ONT_CONTRACT_ADDRESS@,
        call.input@ == invocation_bytes("approve"@, approve_args(from@, to@, amount)),
{
    approve_inner(&Address::new(ONT_CONTRACT_ADDRESS), from, to, amount)
}

pub fn balance_of(address: &Address) -> (call: Invocation)
    ensures
        call.contract@ == ONT_CONTRACT_ADDRESS@,
        call.input@ == invocation_bytes("balanceOf"@, balance_of_args(address@)),
{
    balance_of_inner(&Address::new(ONT_CONTRACT_ADDRESS), address)
}

pub fn allowance(from: &Address, to: &Address) -> (call: Invocation)
    ensures
        call.contract@ == ONT_CONTRACT_ADDRESS@,
        call.input@ == invocation_bytes("allowance"@, allowance_args(from@, to@)),
{
    allowance_inner(&Address::new(ONT_CONTRACT_ADDRESS), from, to)
}

pub fn transfer_from(sender: &Address, from: &Address, to: &Address, amount: U128) -> (call:
    Invocation)
    ensures
        call.contract@ == ONT_CONTRACT_ADDRESS@,
        call.input@ == invocation_bytes(
            "transferFrom"@,
            transfer_from_args(sender@, from@, to@, amount),
        ),
{
    transfer_from_inner(&Address::new(ONT_CONTRACT_ADDRESS), sender, from, to, amount)
}

} // verus!
