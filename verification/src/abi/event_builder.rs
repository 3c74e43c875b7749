//! The notification payload: a magic word, a list tag, the number of
//! entries, and the entries, each behind the tag of its kind.

use super::sink::Sink;
use super::wire::{
    le_bytes, le_value, lemma_le_bytes_len, lemma_le_bytes_low_32, lemma_le_value_of_bytes,
    lemma_radix_values,
};
use crate::mock::Runtime;
use crate::types::{Address, H256, U128};
use byteorder::{ByteOrder, LittleEndian};
use vstd::prelude::*;
use vstd::utf8::encode_utf8;

verus! {

pub const TYPE_BYTEARRAY: u8 = 0x00;

pub const TYPE_STRING: u8 = 0x01;

pub const TYPE_ADDRESS: u8 = 0x02;

pub const TYPE_BOOL: u8 = 0x03;

pub const TYPE_INT: u8 = 0x04;

pub const TYPE_H256: u8 = 0x05;

pub const TYPE_LIST: u8 = 0x10;

/// One field of an event, as mathematics.
pub enum Field {
    ByteArray(Seq<u8>),
    Text(Seq<char>),
    Address(Seq<u8>),
    Bool(bool),
    Int(u128),
    Hash(Seq<u8>),
}

/// The bytes of one entry: the tag of its kind, then what that kind calls
/// for. Byte strings and text carry their length in four little-endian
/// bytes, which hold its low 32 bits; the other kinds have a fixed size and
/// carry none.
pub open spec fn entry_bytes(field: Field) -> Seq<u8> {
    match field {
        Field::ByteArray(bytes) => seq![TYPE_BYTEARRAY] + le_bytes(bytes.len(), 4) + bytes,
        Field::Text(text) => seq![TYPE_STRING] + le_bytes(encode_utf8(text).len(), 4)
            + encode_utf8(text),
        Field::Address(bytes) => seq![TYPE_ADDRESS] + bytes,
        Field::Bool(b) => seq![TYPE_BOOL, if b { 1u8 } else { 0u8 }],
        Field::Int(value) => seq![TYPE_INT] + le_bytes(value as nat, 16),
        Field::Hash(bytes) => seq![TYPE_H256] + bytes,
    }
}

/// The entries of `fields`, in their order.
pub open spec fn entries_bytes(fields: Seq<Field>) -> Seq<u8>
    decreases fields.len(),
{
    if fields.len() == 0 {
        Seq::empty()
    } else {
        entries_bytes(fields.drop_last()) + entry_bytes(fields.last())
    }
}

/// What stands before the entries: the magic word `evt\0`, the list tag,
/// and `count` in four little-endian bytes.
pub open spec fn event_header(count: nat) -> Seq<u8> {
    seq![0x65u8, 0x76u8, 0x74u8, 0x00u8, TYPE_LIST] + le_bytes(count, 4)
}

/// The whole payload of an event with these fields.
pub open spec fn event_payload(fields: Seq<Field>) -> Seq<u8> {
    event_header(fields.len()) + entries_bytes(fields)
}

/// The tag that an entry of this kind begins with.
pub open spec fn tag_of(field: Field) -> u8 {
    match field {
        Field::ByteArray(_) => TYPE_BYTEARRAY,
        Field::Text(_) => TYPE_STRING,
        Field::Address(_) => TYPE_ADDRESS,
        Field::Bool(_) => TYPE_BOOL,
        Field::Int(_) => TYPE_INT,
        Field::Hash(_) => TYPE_H256,
    }
}

/// Entries keep the order of their fields: those of one run of fields
/// followed by another are those of the first, then those of the second.
pub proof fn lemma_entries_in_order(first: Seq<Field>, second: Seq<Field>)
    ensures
        entries_bytes(first + second) == entries_bytes(first) + entries_bytes(second),
    decreases second.len(),
{
    if second.len() > 0 {
        lemma_entries_in_order(first, second.drop_last());
        assert((first + second).drop_last() =~= first + second.drop_last());
    }
}

/// In a payload, the field at place `k` stands behind the header and the
/// entries of the fields before it, and its entry begins with its tag.
pub proof fn lemma_entry_in_place(fields: Seq<Field>, k: int)
    requires
        0 <= k < fields.len(),
    ensures
        event_payload(fields) == event_header(fields.len()) + entries_bytes(fields.take(k))
            + entry_bytes(fields[k]) + entries_bytes(fields.skip(k + 1)),
        entry_bytes(fields[k])[0] == tag_of(fields[k]),
{
    let before = fields.take(k);
    let after = fields.skip(k + 1);
    lemma_entries_in_order(before.push(fields[k]), after);
    assert(before.push(fields[k]) + after =~= fields);
    assert(before.push(fields[k]).drop_last() =~= before);
}

/// A payload begins with the magic word and the list tag, and the four
/// bytes after them spell the number of fields, as far as 32 bits hold it.
pub proof fn lemma_event_count(fields: Seq<Field>)
    ensures
        event_payload(fields).len() >= 9,
        event_payload(fields).take(5) == seq![0x65u8, 0x76u8, 0x74u8, 0x00u8, TYPE_LIST],
        le_value(event_payload(fields).subrange(5, 9)) == fields.len() % 0x1_0000_0000,
{
    let count = fields.len();
    lemma_le_bytes_len(count, 4);
    lemma_le_bytes_low_32(count);
    lemma_radix_values();
    lemma_le_value_of_bytes(count % 0x1_0000_0000, 4);
    assert(event_payload(fields).subrange(5, 9) =~= le_bytes(count, 4));
}

/// `byteorder::LittleEndian::write_u32` on the bytes of `buf` from `start`
/// up to `end`: it puts the four little-endian bytes of `n` in place of the
/// first four of them and touches no other byte.
#[verifier::external_body]
fn write_u32_at(buf: &mut Vec<u8>, start: usize, end: usize, n: u32)
    requires
        start + 4 <= end <= old(buf)@.len(),
    ensures
        final(buf)@ == old(buf)@.take(start as int) + le_bytes(n as nat, 4) + old(buf)@.skip(
            start + 4,
        ),
{
    LittleEndian::write_u32(&mut buf[start..end], n);
}

/// What the builders of tagged values share: the bytes written so far and
/// the number of entries among them.
pub struct VmValueBuilderCommon {
    pub(crate) sink: Sink,
    num_entry: u32,
}

impl VmValueBuilderCommon {
    /// The bytes written so far.
    pub closed spec fn bytes(&self) -> Seq<u8> {
        self.sink@
    }

    /// The number of entries pushed so far.
    pub closed spec fn count(&self) -> nat {
        self.num_entry as nat
    }

    /// `after` is `self` with one more entry, `field`, behind what was there.
    pub open spec fn pushed(&self, after: &VmValueBuilderCommon, field: Field) -> bool {
        &&& after.bytes() == self.bytes() + entry_bytes(field)
        &&& after.count() == self.count() + 1
    }

    pub fn new() -> (common: Self)
        ensures
            common.bytes() == Seq::<u8>::empty(),
            common.count() == 0,
    {
        let sink = Sink::new(12);
        Self { sink, num_entry: 0u32 }
    }

    /// Gives up the builder for the bytes written to it.
    pub fn into_bytes(self) -> (out: Vec<u8>)
        ensures
            out@ == self.bytes(),
    {
        self.sink.into()
    }

    /// The number of bytes in `data` as the entries carry it: in 32 bits.
    fn length_of(data: &[u8]) -> (len: u32)
        ensures
            le_bytes(len as nat, 4) == le_bytes(data@.len(), 4),
    {
        let full: u64 = data.len() as u64;
        let len: u32 = #[verifier::truncate] (full as u32);
        proof {
            assert(len == full % 0x1_0000_0000) by (bit_vector)
                requires
                    len == full as u32,
            ;
            lemma_le_bytes_low_32(full as nat);
        }
        len
    }

    pub fn string(&mut self, method: &str)
        requires
            old(self).count() < u32::MAX,
        ensures
            old(self).pushed(final(self), Field::Text(method@)),
    {
        let raw = method.as_bytes();
        self.sink.write_byte(TYPE_STRING);
        self.sink.write_u32(Self::length_of(raw));
        self.sink.write_bytes(raw);
        self.num_entry += 1;
        assert(self.bytes() =~= old(self).bytes() + entry_bytes(Field::Text(method@)));
    }

    pub fn bytearray(&mut self, bytes: &[u8])
        requires
            old(self).count() < u32::MAX,
        ensures
            old(self).pushed(final(self), Field::ByteArray(bytes@)),
    {
        self.sink.write_byte(TYPE_BYTEARRAY);
        self.sink.write_u32(Self::length_of(bytes));
        self.sink.write_bytes(bytes);
        self.num_entry += 1;
        assert(self.bytes() =~= old(self).bytes() + entry_bytes(Field::ByteArray(bytes@)));
    }

    pub fn address(&mut self, address: &Address)
        requires
            old(self).count() < u32::MAX,
        ensures
            old(self).pushed(final(self), Field::Address(address@)),
    {
        self.sink.write_byte(TYPE_ADDRESS);
        self.sink.write_bytes(address.as_bytes());
        self.num_entry += 1;
        assert(self.bytes() =~= old(self).bytes() + entry_bytes(Field::Address(address@)));
    }

    pub fn number(&mut self, amount: U128)
        requires
            old(self).count() < u32::MAX,
        ensures
            old(self).pushed(final(self), Field::Int(amount)),
    {
        self.sink.write_byte(TYPE_INT);
        self.sink.write_u128(amount);
        self.num_entry += 1;
        assert(self.bytes() =~= old(self).bytes() + entry_bytes(Field::Int(amount)));
    }

    pub fn bool(&mut self, b: bool)
        requires
            old(self).count() < u32::MAX,
        ensures
            old(self).pushed(final(self), Field::Bool(b)),
    {
        self.sink.write_byte(TYPE_BOOL);
        self.sink.write_bool(b);
        self.num_entry += 1;
        assert(self.bytes() =~= old(self).bytes() + entry_bytes(Field::Bool(b)));
    }

    pub fn h256(&mut self, hash: H256)
        requires
            old(self).count() < u32::MAX,
        ensures
            old(self).pushed(final(self), Field::Hash(hash@)),
    {
        self.sink.write_byte(TYPE_H256);
        self.sink.write_bytes(hash.as_bytes());
        self.num_entry += 1;
        assert(self.bytes() =~= old(self).bytes() + entry_bytes(Field::Hash(hash@)));
    }
}

/// Builds the payload of one event, field by field, in the order of the
/// calls. Its view is the fields pushed so far.
pub struct EventBuilder {
    common: VmValueBuilderCommon,
    fields: Ghost<Seq<Field>>,
}

impl Default for EventBuilder {
    fn default() -> (eb: Self)
        ensures
            eb@ == Seq::<Field>::empty(),
    {
        Self::new()
    }
}

impl View for EventBuilder {
    type V = Seq<Field>;

    closed spec fn view(&self) -> Seq<Field> {
        self.fields@
    }
}

impl EventBuilder {
    /// The bytes hold the header, with the count still zero, and the
    /// entries of the fields; the counter is the number of fields.
    #[verifier::type_invariant]
    spec fn well_formed(self) -> bool {
        &&& self.common.bytes() == event_header(0) + entries_bytes(self.fields@)
        &&& self.common.count() == self.fields@.len()
    }

    /// A builder with no field yet.
    pub fn new() -> (eb: Self)
        ensures
            eb@ == Seq::<Field>::empty(),
    {
        let mut common = VmValueBuilderCommon::new();
        common.sink.write_bytes([0x65u8, 0x76u8, 0x74u8, 0x00u8].as_slice());
        common.sink.write_byte(TYPE_LIST);
        common.sink.write_u32(common.num_entry);
        assert(common.bytes() =~= event_header(0) + entries_bytes(Seq::<Field>::empty()));
        EventBuilder { common, fields: Ghost(Seq::empty()) }
    }

    pub fn string(self, method: &str) -> (eb: Self)
        requires
            self@.len() < u32::MAX,
        ensures
            eb@ == self@.push(Field::Text(method@)),
    {
        proof {
            use_type_invariant(&self);
        }
        let EventBuilder { mut common, fields } = self;
        common.string(method);
        let ghost pushed = fields@.push(Field::Text(method@));
        assert(pushed.drop_last() =~= fields@);
        assert(common.bytes() =~= event_header(0) + entries_bytes(pushed));
        EventBuilder { common, fields: Ghost(pushed) }
    }

    pub fn bytearray(self, bytes: &[u8]) -> (eb: Self)
        requires
            self@.len() < u32::MAX,
        ensures
            eb@ == self@.push(Field::ByteArray(bytes@)),
    {
        proof {
            use_type_invariant(&self);
        }
        let EventBuilder { mut common, fields } = self;
        common.bytearray(bytes);
        let ghost pushed = fields@.push(Field::ByteArray(bytes@));
        assert(pushed.drop_last() =~= fields@);
        assert(common.bytes() =~= event_header(0) + entries_bytes(pushed));
        EventBuilder { common, fields: Ghost(pushed) }
    }

    pub fn address(self, address: &Address) -> (eb: Self)
        requires
            self@.len() < u32::MAX,
        ensures
            eb@ == self@.push(Field::Address(address@)),
    {
        proof {
            use_type_invariant(&self);
        }
        let EventBuilder { mut common, fields } = self;
        common.address(address);
        let ghost pushed = fields@.push(Field::Address(address@));
        assert(pushed.drop_last() =~= fields@);
        assert(common.bytes() =~= event_header(0) + entries_bytes(pushed));
        EventBuilder { common, fields: Ghost(pushed) }
    }

    pub fn number(self, amount: U128) -> (eb: Self)
        requires
            self@.len() < u32::MAX,
        ensures
            eb@ == self@.push(Field::Int(amount)),
    {
        proof {
            use_type_invariant(&self);
        }
        let EventBuilder { mut common, fields } = self;
        common.number(amount);
        let ghost pushed = fields@.push(Field::Int(amount));
        assert(pushed.drop_last() =~= fields@);
        assert(common.bytes() =~= event_header(0) + entries_bytes(pushed));
        EventBuilder { common, fields: Ghost(pushed) }
    }

    pub fn bool(self, b: bool) -> (eb: Self)
        requires
            self@.len() < u32::MAX,
        ensures
            eb@ == self@.push(Field::Bool(b)),
    {
        proof {
            use_type_invariant(&self);
        }
        let EventBuilder { mut common, fields } = self;
        common.bool(b);
        let ghost pushed = fields@.push(Field::Bool(b));
        assert(pushed.drop_last() =~= fields@);
        assert(common.bytes() =~= event_header(0) + entries_bytes(pushed));
        EventBuilder { common, fields: Ghost(pushed) }
    }

    pub fn h256(self, hash: H256) -> (eb: Self)
        requires
            self@.len() < u32::MAX,
        ensures
            eb@ == self@.push(Field::Hash(hash@)),
    {
        proof {
            use_type_invariant(&self);
        }
        let EventBuilder { mut common, fields } = self;
        common.h256(hash);
        let ghost pushed = fields@.push(Field::Hash(hash@));
        assert(pushed.drop_last() =~= fields@);
        assert(common.bytes() =~= event_header(0) + entries_bytes(pushed));
        EventBuilder { common, fields: Ghost(pushed) }
    }

    /// Ends the build: writes the number of fields over the zero that stood
    /// in its place and gives the finished payload.
    pub fn finish(self) -> (payload: Vec<u8>)
        ensures
            payload@ == event_payload(self@),
    {
        proof {
            use_type_invariant(&self);
            lemma_le_bytes_len(0, 4);
        }
        let EventBuilder { common, fields } = self;
        let num_entry: u32 = common.num_entry;
        let mut buf = common.sink.into();
        let ghost placeholder = buf@;
        write_u32_at(&mut buf, 5, 9, num_entry);
        proof {
            let head = seq![0x65u8, 0x76u8, 0x74u8, 0x00u8, TYPE_LIST];
            assert(placeholder.take(5) =~= head);
            assert(placeholder.skip(9) =~= entries_bytes(fields@));
        }
        buf
    }

    /// Ends the build and hands the finished payload to the host.
    pub fn notify(self, runtime: &mut Runtime)
        ensures
            final(runtime).notifications() == old(runtime).notifications().push(
                event_payload(self@),
            ),
            *final(runtime) == (Runtime { notify: final(runtime).notify, ..*old(runtime) }),
    {
        let buf = self.finish();
        runtime.notify(buf.as_slice());
    }
}

} // verus!
