//! The host as an explicitly owned value.

use super::storage::Storage;
use crate::types::{bytes_equal, Address, H256};
use sha2::Digest;
use vstd::prelude::*;
use vstd::slice::{slice_subrange, slice_to_vec};

verus! {

/// The SHA-256 digest of a byte string, as the `sha2` crate computes it.
pub uninterp spec fn sha256_digest(data: Seq<u8>) -> Seq<u8>;

/// Feeds `data` to a fresh `sha2::Sha256` and returns what `result` gives:
/// the digest of `data`, which depends on nothing else.
#[verifier::external_body]
fn sha256_of(data: &[u8]) -> (digest: [u8; 32])
    ensures
        digest@ == sha256_digest(data@),
{
    let mut hasher = sha2::Sha256::new();
    hasher.input(data);
    hasher.result().into()
}

/// The host as a value: what a contract can read from its environment and
/// what it has done to it.
pub struct Runtime {
    pub storage: Storage,
    pub timestamp: u64,
    pub block_height: u64,
    pub caller: Address,
    pub entry_address: Address,
    pub self_addr: Address,
    pub block_hash: H256,
    pub tx_hash: H256,
    /// The addresses that have signed.
    pub witness: Vec<Address>,
    /// The notifications emitted so far, oldest first.
    pub notify: Vec<Vec<u8>>,
    /// What the contract called last has answered.
    pub call_output: Vec<u8>,
}

impl Runtime {
    /// Nothing has happened yet: the storage is empty, the chain state is
    /// zero, nobody has signed, nothing was emitted and nothing answered.
    pub open spec fn is_fresh(&self) -> bool {
        &&& self.storage@ == Map::<Seq<u8>, Seq<u8>>::empty()
        &&& self.timestamp == 0
        &&& self.block_height == 0
        &&& self.caller@ == Seq::new(20, |i: int| 0u8)
        &&& self.entry_address@ == Seq::new(20, |i: int| 0u8)
        &&& self.self_addr@ == Seq::new(20, |i: int| 0u8)
        &&& self.block_hash@ == Seq::new(32, |i: int| 0u8)
        &&& self.tx_hash@ == Seq::new(32, |i: int| 0u8)
        &&& self.witness@.len() == 0
        &&& self.notify@.len() == 0
        &&& self.call_output@.len() == 0
    }

    /// A host on which nothing has happened yet.
    pub fn new() -> (runtime: Runtime)
        ensures
            runtime.is_fresh(),
    {
        Runtime {
            storage: Storage::new(),
            timestamp: 0,
            block_height: 0,
            caller: Address::zero(),
            entry_address: Address::zero(),
            self_addr: Address::zero(),
            block_hash: H256::zero(),
            tx_hash: H256::zero(),
            witness: Vec::new(),
            notify: Vec::new(),
            call_output: Vec::new(),
        }
    }

    /// The notifications emitted so far, each as its bytes.
    pub open spec fn notifications(&self) -> Seq<Seq<u8>> {
        Seq::new(self.notify@.len(), |i: int| self.notify@[i]@)
    }

    pub fn storage_write(&mut self, key: &[u8], val: &[u8])
        ensures
            final(self).storage@ == old(self).storage@.insert(key@, val@),
            *final(self) == (Runtime { storage: final(self).storage, ..*old(self) }),
    {
        self.storage.insert(key, val);
    }

    pub fn storage_read(&self, key: &[u8]) -> (val: Option<Vec<u8>>)
        ensures
            match val {
                Some(v) => self.storage@.contains_key(key@) && v@ == self.storage@[key@],
                None => !self.storage@.contains_key(key@),
            },
    {
        self.storage.get(key)
    }

    /// What the host hands over when asked for the record under `key` from
    /// `offset` on, with room for `vlen` bytes: the record's whole length,
    /// in 32 bits, and the bytes from `offset` on that fit in the room.
    /// Where no record is, the length is `u32::MAX` and no byte comes.
    pub fn storage_read_at(&self, key: &[u8], vlen: u32, offset: u32) -> (r: (u32, Vec<u8>))
        requires
            self.storage@.contains_key(key@) ==> offset <= self.storage@[key@].len(),
        ensures
            !self.storage@.contains_key(key@) ==> r.0 == u32::MAX && r.1@.len() == 0,
            self.storage@.contains_key(key@) ==> {
                let val = self.storage@[key@];
                let room = if vlen <= val.len() - offset {
                    vlen as int
                } else {
                    val.len() - offset
                };
                &&& r.0 == val.len() % 0x1_0000_0000
                &&& r.1@ == val.subrange(offset as int, offset + room)
            },
    {
        match self.storage_read(key) {
            None => (u32::MAX, Vec::new()),
            Some(v) => {
                let offset: usize = offset as usize;
                let left: usize = v.len() - offset;
                let room: usize = if vlen as u64 <= left as u64 {
                    vlen as usize
                } else {
                    left
                };
                let chunk = slice_to_vec(slice_subrange(v.as_slice(), offset, offset + room));
                (((v.len() as u64) % 0x1_0000_0000) as u32, chunk)
            },
        }
    }

    pub fn storage_delete(&mut self, key: &[u8])
        ensures
            final(self).storage@ == old(self).storage@.remove(key@),
            *final(self) == (Runtime { storage: final(self).storage, ..*old(self) }),
    {
        self.storage.remove(key);
    }

    pub fn timestamp(&self) -> (t: u64)
        ensures
            t == self.timestamp,
    {
        self.timestamp
    }

    pub fn block_height(&self) -> (h: u64)
        ensures
            h == self.block_height,
    {
        self.block_height
    }

    pub fn address(&self) -> (a: Address)
        ensures
            a == self.self_addr,
    {
        self.self_addr
    }

    pub fn caller(&self) -> (a: Address)
        ensures
            a == self.caller,
    {
        self.caller
    }

    /// Whether `addr` is among those that have signed.
    pub fn check_witness(&self, addr: &Address) -> (signed: bool)
        ensures
            signed == exists|i: int| 0 <= i < self.witness@.len() && self.witness@[i]@ == addr@,
    {
        let mut i: usize = 0;
        while i < self.witness.len()
            invariant
                i <= self.witness@.len(),
                forall|j: int| 0 <= j < i ==> self.witness@[j]@ != addr@,
            decreases self.witness@.len() - i,
        {
            if bytes_equal(self.witness[i].as_bytes(), addr.as_bytes()) {
                return true;
            }
            i += 1;
        }
        false
    }

    pub fn entry_address(&self) -> (a: Address)
        ensures
            a == self.entry_address,
    {
        self.entry_address
    }

    pub fn current_blockhash(&self) -> (h: H256)
        ensures
            h == self.block_hash,
    {
        self.block_hash
    }

    pub fn current_txhash(&self) -> (h: H256)
        ensures
            h == self.tx_hash,
    {
        self.tx_hash
    }

    /// Keeps `msg` as the newest notification.
    pub fn notify(&mut self, msg: &[u8])
        ensures
            final(self).notifications() == old(self).notifications().push(msg@),
            *final(self) == (Runtime { notify: final(self).notify, ..*old(self) }),
    {
        self.notify.push(slice_to_vec(msg));
    }

    /// The SHA-256 digest of `data`.
    pub fn sha256(&self, data: &[u8]) -> (hash: H256)
        ensures
            hash@ == sha256_digest(data@),
    {
        H256::new(sha256_of(data))
    }

    /// Keeps what a called contract answered: its output, or no bytes where
    /// it gave none.
    pub fn call_contract(&mut self, output: Option<Vec<u8>>)
        ensures
            final(self).call_output@ == match output {
                Some(data) => data@,
                None => Seq::<u8>::empty(),
            },
            *final(self) == (Runtime { call_output: final(self).call_output, ..*old(self) }),
    {
        self.call_output = match output {
            Some(data) => data,
            None => Vec::new(),
        };
    }

    pub fn get_call_output(&self) -> (out: Vec<u8>)
        ensures
            out@ == self.call_output@,
    {
        slice_to_vec(self.call_output.as_slice())
    }

    /// The length of the last answer, as the host reports it: in 32 bits.
    pub fn call_output_length(&self) -> (len: u32)
        ensures
            len == self.call_output@.len() % 0x1_0000_0000,
    {
        ((self.call_output.len() as u64) % 0x1_0000_0000) as u32
    }
}

impl Default for Runtime {
    fn default() -> (runtime: Runtime)
        ensures
            runtime.is_fresh(),
    {
        Runtime::new()
    }
}

} // verus!
