//! Typed records in the host's storage: values go in as their encoding and
//! come out decoded.

use crate::abi::{AbiCodec, Error, Sink, Source};
use crate::mock::Runtime;
use vstd::prelude::*;

verus! {

/// What reading a `T` under `key` yields from a store: nothing where no
/// record is, the decoded value where one is and decodes, and the decode
/// failure where it does not.
pub open spec fn stored<T: AbiCodec>(storage: Map<Seq<u8>, Seq<u8>>, key: Seq<u8>) -> Result<
    Option<T::V>,
    Error,
> {
    if storage.contains_key(key) {
        match T::decoding(storage[key]) {
            Ok((value, _)) => Ok(Some(value)),
            Err(e) => Err(e),
        }
    } else {
        Ok(None)
    }
}

/// A result of `get` seen through the deep view of its value.
pub open spec fn got<T: AbiCodec>(r: Result<Option<T>, Error>) -> Result<Option<T::V>, Error> {
    match r {
        Ok(Some(value)) => Ok(Some(value.deep_view())),
        Ok(None) => Ok(None),
        Err(e) => Err(e),
    }
}

/// The record under `key`, decoded. An absent record is no failure; one
/// that does not decode is.
pub fn get<T: AbiCodec>(runtime: &Runtime, key: &[u8]) -> (r: Result<Option<T>, Error>)
    ensures
        got(r) == stored::<T>(runtime.storage@, key@),
{
    match runtime.storage_read(key) {
        None => Ok(None),
        Some(val) => {
            let mut source = Source::new(val.as_slice());
            match source.read::<T>() {
                Ok(value) => Ok(Some(value)),
                Err(e) => Err(e),
            }
        },
    }
}

/// Writes the encoding of `val` under `key`.
pub fn put<T: AbiCodec>(runtime: &mut Runtime, key: &[u8], val: T)
    ensures
        final(runtime).storage@ == old(runtime).storage@.insert(key@, val.encoding()),
        *final(runtime) == (Runtime { storage: final(runtime).storage, ..*old(runtime) }),
{
    let mut sink = Sink::new(12);
    sink.write(val);
    runtime.storage_write(key, sink.bytes());
}

/// Deletes the record under `key`; where none is, nothing changes.
pub fn delete(runtime: &mut Runtime, key: &[u8])
    ensures
        final(runtime).storage@ == old(runtime).storage@.remove(key@),
        *final(runtime) == (Runtime { storage: final(runtime).storage, ..*old(runtime) }),
{
    runtime.storage_delete(key);
}

/// What was put under a key is what a get under that key yields.
pub proof fn lemma_get_after_put<T: AbiCodec>(storage: Map<Seq<u8>, Seq<u8>>, key: Seq<u8>, val: T)
    requires
        val.encoding().len() <= u64::MAX,
    ensures
        stored::<T>(storage.insert(key, val.encoding()), key) == Ok::<Option<T::V>, Error>(
            Some(val.deep_view()),
        ),
{
    T::round_trip(val, Seq::empty());
}

/// After a delete a get yields nothing, whether or not a record was there;
/// and deleting where no record is leaves the store as it was, so that a
/// key deleted in vain is like one never written.
pub proof fn lemma_get_after_delete<T: AbiCodec>(storage: Map<Seq<u8>, Seq<u8>>, key: Seq<u8>)
    ensures
        stored::<T>(storage.remove(key), key) == Ok::<Option<T::V>, Error>(None),
        !storage.contains_key(key) ==> storage.remove(key) == storage,
        storage.remove(key).remove(key) == storage.remove(key),
{
}

} // verus!
