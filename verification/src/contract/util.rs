//! What the two token contracts share: the layout of a request and the
//! reading of an answer.

use super::ont::State;
use crate::abi::wire::var_bytes;
use crate::abi::Sink;
use crate::types::{neo_bytes, neo_value, u128_from_neo_bytes, Address, U128};
use vstd::prelude::*;
use vstd::utf8::encode_utf8;

verus! {

pub const VERSION: u8 = 0;

/// A call to make: the contract to call and the bytes to hand it.
pub struct Invocation {
    pub contract: Address,
    pub input: Vec<u8>,
}

/// The bytes handed to a native contract: a version byte, the name of the
/// method and the arguments, the last two each behind its length.
pub open spec fn invocation_bytes(method: Seq<char>, args: Seq<u8>) -> Seq<u8> {
    seq![VERSION] + var_bytes(encode_utf8(method)) + var_bytes(args)
}

/// One transfer as an argument: payer, payee, amount.
pub open spec fn state_bytes(state: State) -> Seq<u8> {
    var_bytes(state.from@) + var_bytes(state.to@) + var_bytes(neo_bytes(state.amount))
}

/// Transfers as arguments, in their order.
pub open spec fn states_bytes(states: Seq<State>) -> Seq<u8>
    decreases states.len(),
{
    if states.len() == 0 {
        Seq::empty()
    } else {
        states_bytes(states.drop_last()) + state_bytes(states.last())
    }
}

/// The arguments of `transfer`: how many transfers, then each of them.
pub open spec fn transfer_args(states: Seq<State>) -> Seq<u8> {
    var_bytes(neo_bytes(states.len() as u128)) + states_bytes(states)
}

/// The arguments of `approve`: owner, spender, amount.
pub open spec fn approve_args(from: Seq<u8>, to: Seq<u8>, amount: U128) -> Seq<u8> {
    var_bytes(from) + var_bytes(to) + var_bytes(neo_bytes(amount))
}

/// The arguments of `transferFrom`: spender, owner, payee, amount.
pub open spec fn transfer_from_args(sender: Seq<u8>, from: Seq<u8>, to: Seq<u8>, amount: U128)
    -> Seq<u8> {
    var_bytes(sender) + var_bytes(from) + var_bytes(to) + var_bytes(neo_bytes(amount))
}

/// The arguments of `allowance`: owner, spender.
pub open spec fn allowance_args(from: Seq<u8>, to: Seq<u8>) -> Seq<u8> {
    var_bytes(from) + var_bytes(to)
}

/// The arguments of `balanceOf`: the holder.
pub open spec fn balance_of_args(address: Seq<u8>) -> Seq<u8> {
    var_bytes(address)
}

/// Lays out the call of `method` with the arguments gathered in `args`.
fn invocation(contract_address: &Address, method: &str, args: Sink) -> (call: Invocation)
    ensures
        call.contract == *contract_address,
        call.input@ == invocation_bytes(method@, args@),
{
    let mut sink_param = Sink::new(16);
    sink_param.write_byte(VERSION);
    sink_param.write_var_bytes(method.as_bytes());
    sink_param.write_var_bytes(args.bytes());
    let input = sink_param.into();
    Invocation { contract: *contract_address, input }
}

pub fn transfer_inner(contract_address: &Address, transfer: &[State]) -> (call: Invocation)
    ensures
        call.contract == *contract_address,
        call.input@ == invocation_bytes("transfer"@, transfer_args(transfer@)),
{
    let mut sink = Sink::new(16);
    sink.write_native_varuint(transfer.len() as u64);
    let mut i: usize = 0;
    while i < transfer.len()
        invariant
            i <= transfer@.len(),
            sink@ == var_bytes(neo_bytes(transfer@.len() as u128)) + states_bytes(
                transfer@.take(i as int),
            ),
        decreases transfer@.len() - i,
    {
        let state = &transfer[i];
        sink.write_native_address(&state.from);
        sink.write_native_address(&state.to);
        sink.write_native_number(state.amount);
        proof {
            assert(transfer@.take(i + 1).drop_last() =~= transfer@.take(i as int));
        }
        i += 1;
    }
    assert(transfer@.take(i as int) =~= transfer@);
    invocation(contract_address, "transfer", sink)
}

pub fn approve_inner(
    contract_address: &Address,
    from: &Address,
    to: &Address,
    amount: U128,
) -> (call: Invocation)
    ensures
        call.contract == *contract_address,
        call.input@ == invocation_bytes("approve"@, approve_args(from@, to@, amount)),
{
    let mut sink = Sink::new(16);
    sink.write_native_address(from);
    sink.write_native_address(to);
    sink.write_native_number(amount);
    invocation(contract_address, "approve", sink)
}

pub fn transfer_from_inner(
    contract_address: &Address,
    sender: &Address,
    from: &Address,
    to: &Address,
    amount: U128,
) -> (call: Invocation)
    ensures
        call.contract == *contract_address,
        call.input@ == invocation_bytes(
            "transferFrom"@,
            transfer_from_args(sender@, from@, to@, amount),
        ),
{
    let mut sink = Sink::new(16);
    sink.write_native_address(sender);
    sink.write_native_address(from);
    sink.write_native_address(to);
    sink.write_native_number(amount);
    invocation(contract_address, "transferFrom", sink)
}

pub fn allowance_inner(contract_address: &Address, from: &Address, to: &Address) -> (call:
    Invocation)
    ensures
        call.contract == *contract_address,
        call.input@ == invocation_bytes("allowance"@, allowance_args(from@, to@)),
{
    let mut sink = Sink::new(0);
    sink.write_native_address(from);
    sink.write_native_address(to);
    invocation(contract_address, "allowance", sink)
}

pub fn balance_of_inner(contract_address: &Address, address: &Address) -> (call: Invocation)
    ensures
        call.contract == *contract_address,
        call.input@ == invocation_bytes("balanceOf"@, balance_of_args(address@)),
{
    let mut sink = Sink::new(0);
    sink.write_native_address(address);
    invocation(contract_address, "balanceOf", sink)
}

/// Whether a call that was to do something did it: the contract answered,
/// and with at least one byte.
pub fn succeeded(output: &Option<Vec<u8>>) -> (done: bool)
    ensures
        done == (output matches Some(data) && data@.len() != 0),
{
    match output {
        Some(data) => data.len() != 0,
        None => false,
    }
}

/// The number that a call for a number got: what the answer stands for in
/// the legacy machine's form, and zero where there was no answer or an
/// empty one.
pub fn amount(output: &Option<Vec<u8>>) -> (value: U128)
    ensures
        value == match output {
            Some(data) => if data@.len() != 0 {
                neo_value(data@)
            } else {
                0
            },
            None => 0,
        },
{
    match output {
        Some(data) => if data.len() != 0 {
            u128_from_neo_bytes(data.as_slice())
        } else {
            0
        },
        None => 0,
    }
}

} // verus!
