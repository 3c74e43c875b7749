//! The codec capability and the types that have it.

use super::error::{deeply_viewed, Error};
use super::sink::Sink;
use super::source::Source;
use super::wire::{
    bool_parse, le_bytes, lemma_le_bytes_len, lemma_le_value_of_bytes, lemma_radix_values,
    lemma_varuint_round_trip, lemma_varuint_truncated, take_parse, u16_parse, u32_parse,
    u64_parse, u8_parse, varuint_bytes, varuint_parse,
};
use crate::types::{H160, H256};
use vstd::prelude::*;
use vstd::slice::slice_to_vec;
use vstd::utf8::{
    decode_utf8, encode_utf8, encode_utf8_decode_utf8, encode_utf8_valid_utf8, valid_utf8,
};

verus! {

/// The error of `String::from_utf8`: carried through, never looked into.
#[verifier::external_type_specification]
#[verifier::external_body]
pub struct ExFromUtf8Error(std::string::FromUtf8Error);

/// `String::from_utf8` accepts exactly the byte strings that are valid
/// UTF-8, and the text it returns is made of the bytes it was given.
pub assume_specification[ String::from_utf8 ](vec: Vec<u8>) -> (r: Result<
    String,
    std::string::FromUtf8Error,
>)
    ensures
        r is Ok <==> valid_utf8(vec@),
        r matches Ok(text) ==> encode_utf8(text@) == vec@,
;

/// A type that can be written to a [`Sink`] and read back from a [`Source`].
///
/// `encoding` and `decoding` say, as mathematics, what the two operations do;
/// `round_trip` is the law that ties them together.
pub trait AbiCodec: Sized + DeepView {
    /// The bytes that `encode` appends for this value.
    spec fn encoding(&self) -> Seq<u8>;

    /// What `decode` makes of `bytes`: the value it reads from their front and
    /// how many of them it takes, or the failure.
    spec fn decoding(bytes: Seq<u8>) -> Result<(Self::V, nat), Error>;

    /// Decoding what was encoded gives the value back and takes exactly the
    /// bytes of the encoding, whatever follows them.
    proof fn round_trip(value: Self, rest: Seq<u8>)
        requires
            value.encoding().len() <= u64::MAX,
        ensures
            Self::decoding(value.encoding() + rest) == Ok::<(Self::V, nat), Error>(
                (value.deep_view(), value.encoding().len()),
            ),
    ;

    /// An encoding cut short anywhere does not decode, and the failure is
    /// that of truncated input.
    proof fn truncated(value: Self, n: int)
        requires
            0 <= n < value.encoding().len() <= u64::MAX,
        ensures
            Self::decoding(value.encoding().take(n)) == Err::<(Self::V, nat), Error>(
                Error::UnexpectedEOF,
            ),
    ;

    /// Reads a value from the front of what remains. On failure the cursor
    /// stays where it was.
    fn decode(source: &mut Source) -> (r: Result<Self, Error>)
        ensures
            old(source).advanced(
                final(source),
                deeply_viewed(r),
                Self::decoding(old(source).remaining()),
            ),
    ;

    /// Appends the value's bytes. Encoding cannot fail.
    fn encode(self, sink: &mut Sink)
        ensures
            final(sink)@ == old(sink)@ + self.encoding(),
    ;
}

impl AbiCodec for u8 {
    open spec fn encoding(&self) -> Seq<u8> {
        seq![*self]
    }

    open spec fn decoding(bytes: Seq<u8>) -> Result<(u8, nat), Error> {
        u8_parse(bytes)
    }

    proof fn round_trip(value: Self, rest: Seq<u8>) {
    }

    proof fn truncated(value: Self, n: int) {
    }

    fn decode(source: &mut Source) -> (r: Result<Self, Error>) {
        source.read_byte()
    }

    fn encode(self, sink: &mut Sink) {
        sink.write_byte(self);
    }
}

impl AbiCodec for u16 {
    open spec fn encoding(&self) -> Seq<u8> {
        le_bytes(*self as nat, 2)
    }

    open spec fn decoding(bytes: Seq<u8>) -> Result<(u16, nat), Error> {
        u16_parse(bytes)
    }

    proof fn round_trip(value: Self, rest: Seq<u8>) {
        lemma_radix_values();
        lemma_le_bytes_len(value as nat, 2);
        lemma_le_value_of_bytes(value as nat, 2);
        assert((value.encoding() + rest).take(2) =~= value.encoding());
    }

    proof fn truncated(value: Self, n: int) {
        lemma_le_bytes_len(value as nat, 2);
    }

    fn decode(source: &mut Source) -> (r: Result<Self, Error>) {
        source.read_u16()
    }

    fn encode(self, sink: &mut Sink) {
        sink.write_u16(self)
    }
}

impl AbiCodec for u32 {
    open spec fn encoding(&self) -> Seq<u8> {
        le_bytes(*self as nat, 4)
    }

    open spec fn decoding(bytes: Seq<u8>) -> Result<(u32, nat), Error> {
        u32_parse(bytes)
    }

    proof fn round_trip(value: Self, rest: Seq<u8>) {
        lemma_radix_values();
        lemma_le_bytes_len(value as nat, 4);
        lemma_le_value_of_bytes(value as nat, 4);
        assert((value.encoding() + rest).take(4) =~= value.encoding());
    }

    proof fn truncated(value: Self, n: int) {
        lemma_le_bytes_len(value as nat, 4);
    }

    fn decode(source: &mut Source) -> (r: Result<Self, Error>) {
        source.read_u32()
    }

    fn encode(self, sink: &mut Sink) {
        sink.write_u32(self)
    }
}

impl AbiCodec for u64 {
    open spec fn encoding(&self) -> Seq<u8> {
        le_bytes(*self as nat, 8)
    }

    open spec fn decoding(bytes: Seq<u8>) -> Result<(u64, nat), Error> {
        u64_parse(bytes)
    }

    proof fn round_trip(value: Self, rest: Seq<u8>) {
        lemma_radix_values();
        lemma_le_bytes_len(value as nat, 8);
        lemma_le_value_of_bytes(value as nat, 8);
        assert((value.encoding() + rest).take(8) =~= value.encoding());
    }

    proof fn truncated(value: Self, n: int) {
        lemma_le_bytes_len(value as nat, 8);
    }

    fn decode(source: &mut Source) -> (r: Result<Self, Error>) {
        source.read_u64()
    }

    fn encode(self, sink: &mut Sink) {
        sink.write_u64(self)
    }
}

impl AbiCodec for bool {
    open spec fn encoding(&self) -> Seq<u8> {
        seq![if *self { 1u8 } else { 0u8 }]
    }

    open spec fn decoding(bytes: Seq<u8>) -> Result<(bool, nat), Error> {
        bool_parse(bytes)
    }

    proof fn round_trip(value: Self, rest: Seq<u8>) {
    }

    proof fn truncated(value: Self, n: int) {
    }

    fn decode(source: &mut Source) -> (r: Result<Self, Error>) {
        source.read_bool()
    }

    fn encode(self, sink: &mut Sink) {
        sink.write_bool(self);
    }
}

/// A byte array of fixed size is its bytes, with no length before them.
impl<const N: usize> AbiCodec for [u8; N] {
    open spec fn encoding(&self) -> Seq<u8> {
        self@
    }

    open spec fn decoding(bytes: Seq<u8>) -> Result<(Seq<u8>, nat), Error> {
        take_parse(bytes, N as nat)
    }

    proof fn round_trip(value: Self, rest: Seq<u8>) {
        assert((value@ + rest).take(N as int) =~= value@);
        assert(value.deep_view() =~= value@);
    }

    proof fn truncated(value: Self, n: int) {
    }

    fn decode(source: &mut Source) -> (r: Result<Self, Error>) {
        let mut array = [0u8; N];
        match source.read_into(&mut array) {
            Ok(_) => {
                assert(array.deep_view() =~= array@);
                Ok(array)
            },
            Err(e) => Err(e),
        }
    }

    fn encode(self, sink: &mut Sink) {
        sink.write_bytes(self.as_slice())
    }
}

/// A 160-bit identifier is its twenty bytes.
impl AbiCodec for H160 {
    open spec fn encoding(&self) -> Seq<u8> {
        self@
    }

    open spec fn decoding(bytes: Seq<u8>) -> Result<(Seq<u8>, nat), Error> {
        take_parse(bytes, 20)
    }

    proof fn round_trip(value: Self, rest: Seq<u8>) {
        assert((value@ + rest).take(20) =~= value@);
    }

    proof fn truncated(value: Self, n: int) {
    }

    fn decode(source: &mut Source) -> (r: Result<Self, Error>) {
        let mut raw = [0u8; 20];
        match source.read_into(&mut raw) {
            Ok(_) => Ok(H160::new(raw)),
            Err(e) => Err(e),
        }
    }

    fn encode(self, sink: &mut Sink) {
        sink.write_bytes(self.as_bytes())
    }
}

/// A 256-bit identifier is its thirty-two bytes.
impl AbiCodec for H256 {
    open spec fn encoding(&self) -> Seq<u8> {
        self@
    }

    open spec fn decoding(bytes: Seq<u8>) -> Result<(Seq<u8>, nat), Error> {
        take_parse(bytes, 32)
    }

    proof fn round_trip(value: Self, rest: Seq<u8>) {
        assert((value@ + rest).take(32) =~= value@);
    }

    proof fn truncated(value: Self, n: int) {
    }

    fn decode(source: &mut Source) -> (r: Result<Self, Error>) {
        let mut raw = [0u8; 32];
        match source.read_into(&mut raw) {
            Ok(_) => Ok(H256::new(raw)),
            Err(e) => Err(e),
        }
    }

    fn encode(self, sink: &mut Sink) {
        sink.write_bytes(self.as_bytes())
    }
}

/// The encodings of `items`, one after the other.
pub open spec fn seq_encoding<T: AbiCodec>(items: Seq<T>) -> Seq<u8>
    decreases items.len(),
{
    if items.len() == 0 {
        Seq::empty()
    } else {
        items[0].encoding() + seq_encoding(items.drop_first())
    }
}

/// What decoding `count` values in a row from the front of `bytes` yields:
/// the values in order and the bytes they took together, or the first failure.
pub open spec fn seq_decoding<T: AbiCodec>(bytes: Seq<u8>, count: nat) -> Result<
    (Seq<T::V>, nat),
    Error,
>
    decreases count,
{
    if count == 0 {
        Ok((Seq::empty(), 0))
    } else {
        match T::decoding(bytes) {
            Err(e) => Err(e),
            Ok((first, n)) => match seq_decoding::<T>(bytes.skip(n as int), (count - 1) as nat) {
                Err(e) => Err(e),
                Ok((rest, m)) => Ok((seq![first] + rest, n + m)),
            },
        }
    }
}

/// The outcome of decoding a sequence whose first items, `done`, took
/// `taken` bytes and whose other items decode as `rest`.
pub open spec fn seq_decoding_after<V>(done: Seq<V>, taken: nat, rest: Result<(Seq<V>, nat), Error>)
    -> Result<(Seq<V>, nat), Error> {
    match rest {
        Err(e) => Err(e),
        Ok((items, m)) => Ok((done + items, taken + m)),
    }
}

/// Items written one after the other decode, in a row, to the same items.
pub proof fn lemma_seq_round_trip<T: AbiCodec>(items: Seq<T>, rest: Seq<u8>)
    requires
        seq_encoding(items).len() <= u64::MAX,
    ensures
        seq_decoding::<T>(seq_encoding(items) + rest, items.len()) == Ok::<(Seq<T::V>, nat), Error>(
            (Seq::new(items.len(), |i: int| items[i].deep_view()), seq_encoding(items).len()),
        ),
    decreases items.len(),
{
    let deep = Seq::new(items.len(), |i: int| items[i].deep_view());
    if items.len() == 0 {
        assert(deep =~= Seq::<T::V>::empty());
    } else {
        let first = items[0];
        let tail = items.drop_first();
        let deep_tail = Seq::new(tail.len(), |i: int| tail[i].deep_view());
        let all = seq_encoding(items) + rest;
        T::round_trip(first, seq_encoding(tail) + rest);
        lemma_seq_round_trip(tail, rest);
        assert(all =~= first.encoding() + (seq_encoding(tail) + rest));
        assert(all.skip(first.encoding().len() as int) =~= seq_encoding(tail) + rest);
        assert(deep =~= seq![first.deep_view()] + deep_tail);
    }
}

/// Items written one after the other and cut short anywhere do not decode
/// in a row: the input is truncated.
pub proof fn lemma_seq_truncated<T: AbiCodec>(items: Seq<T>, n: int)
    requires
        0 <= n < seq_encoding(items).len() <= u64::MAX,
    ensures
        seq_decoding::<T>(seq_encoding(items).take(n), items.len()) == Err::<
            (Seq<T::V>, nat),
            Error,
        >(Error::UnexpectedEOF),
    decreases items.len(),
{
    let first = items[0];
    let head = first.encoding();
    let tail = seq_encoding(items.drop_first());
    let cut = seq_encoding(items).take(n);
    if n < head.len() {
        T::truncated(first, n);
        assert(cut =~= head.take(n));
    } else {
        let m = n - head.len();
        T::round_trip(first, tail.take(m));
        lemma_seq_truncated(items.drop_first(), m);
        assert(cut =~= head + tail.take(m));
        assert(cut.skip(head.len() as int) =~= tail.take(m));
    }
}

/// A declared length with no item behind it is truncated input, however
/// large it is: nothing is read beyond what is there. This holds for every
/// item type that has a value, `sample`, with an encoding that is not empty.
pub proof fn lemma_length_without_items<T: AbiCodec>(count: u64, sample: T)
    requires
        count > 0,
        0 < sample.encoding().len() <= u64::MAX,
    ensures
        Vec::<T>::decoding(varuint_bytes(count)) == Err::<(Seq<T::V>, nat), Error>(
            Error::UnexpectedEOF,
        ),
{
    let head = varuint_bytes(count);
    lemma_varuint_round_trip(count, Seq::empty());
    T::truncated(sample, 0);
    assert(head.skip(head.len() as int) =~= Seq::<u8>::empty());
    assert(sample.encoding().take(0) =~= Seq::<u8>::empty());
}

/// A sequence is its length in variable-length form, then its items in order.
impl<T: AbiCodec> AbiCodec for Vec<T> {
    open spec fn encoding(&self) -> Seq<u8> {
        varuint_bytes(self@.len() as u64) + seq_encoding(self@)
    }

    open spec fn decoding(bytes: Seq<u8>) -> Result<(Seq<T::V>, nat), Error> {
        match varuint_parse(bytes) {
            Err(e) => Err(e),
            Ok((count, n)) => match seq_decoding::<T>(bytes.skip(n as int), count as nat) {
                Err(e) => Err(e),
                Ok((items, m)) => Ok((items, n + m)),
            },
        }
    }

    proof fn round_trip(value: Self, rest: Seq<u8>) {
        assert(value@.len() == value.len());
        let count = value@.len() as u64;
        let head = varuint_bytes(count);
        let body = seq_encoding(value@);
        lemma_varuint_round_trip(count, body + rest);
        lemma_seq_round_trip(value@, rest);
        assert(value.encoding() + rest =~= head + (body + rest));
        assert((head + (body + rest)).skip(head.len() as int) =~= body + rest);
    }

    proof fn truncated(value: Self, n: int) {
        assert(value@.len() == value.len());
        let count = value@.len() as u64;
        let head = varuint_bytes(count);
        let body = seq_encoding(value@);
        if n < head.len() {
            lemma_varuint_truncated(count, n);
        } else {
            let m = n - head.len();
            lemma_varuint_round_trip(count, body.take(m));
            lemma_seq_truncated(value@, m);
            assert(value.encoding().take(n) =~= head + body.take(m));
            assert((head + body.take(m)).skip(head.len() as int) =~= body.take(m));
        }
    }

    fn decode(source: &mut Source) -> (r: Result<Self, Error>) {
        let start: usize = source.position();
        let ghost whole = source.remaining();
        let len: u64 = match source.read_varuint() {
            Ok(n) => n,
            Err(e) => {
                return Err(e);
            },
        };
        let ghost body = source.remaining();
        let ghost mid = source.pos();
        // The declared length is not trusted with memory: it sizes the first
        // allocation up to a cap, and the rest grows as items arrive.
        let cap: usize = if len < 1024 {
            len as usize
        } else {
            1024
        };
        let mut value: Vec<T> = Vec::with_capacity(cap);
        let mut i: u64 = 0;
        proof {
            let all = seq_decoding::<T>(body, len as nat);
            assert(all == seq_decoding_after(value.deep_view(), 0, all));
        }
        while i < len
            invariant
                i <= len,
                source.bytes() == old(source).bytes(),
                start == old(source).pos(),
                whole == old(source).remaining(),
                varuint_parse(whole) == Ok::<(u64, nat), Error>((len, (mid - start) as nat)),
                body == whole.skip(mid - start),
                mid <= source.pos(),
                source.pos() - mid <= body.len(),
                source.remaining() == body.skip(source.pos() - mid),
                start <= mid,
                seq_decoding::<T>(body, len as nat) == seq_decoding_after(
                    value.deep_view(),
                    (source.pos() - mid) as nat,
                    seq_decoding::<T>(source.remaining(), (len - i) as nat),
                ),
            decreases len - i,
        {
            let ghost before = value.deep_view();
            let ghost at = source.remaining();
            match T::decode(source) {
                Ok(item) => {
                    value.push(item);
                    proof {
                        let n = T::decoding(at)->Ok_0.1;
                        let first = item.deep_view();
                        assert(value.deep_view() =~= before.push(first));
                        let later = seq_decoding::<T>(at.skip(n as int), (len - i - 1) as nat);
                        if let Ok((rest, m)) = later {
                            assert(before + (seq![first] + rest) =~= before.push(first) + rest);
                        }
                    }
                },
                Err(e) => {
                    source.rewind(start);
                    return Err(e);
                },
            }
            i += 1;
        }
        proof {
            assert(body.skip(source.pos() - mid) =~= whole.skip(source.pos() - start));
        }
        Ok(value)
    }

    fn encode(self, sink: &mut Sink) {
        let ghost items = self@;
        sink.write_varuint(self.len() as u64);
        proof {
            assert(items.skip(0) =~= items);
        }
        for item in it: self
            invariant
                it.seq() == items,
                sink@ + seq_encoding(items.skip(it.index() as int)) == old(sink)@ + (varuint_bytes(
                    items.len() as u64,
                ) + seq_encoding(items)),
        {
            proof {
                let i = it.index() as int;
                assert(items.skip(i).drop_first() =~= items.skip(i + 1));
            }
            sink.write(item);
        }
    }
}

/// Text is the length of its UTF-8 bytes in variable-length form, then the bytes.
impl AbiCodec for String {
    open spec fn encoding(&self) -> Seq<u8> {
        varuint_bytes(encode_utf8(self@).len() as u64) + encode_utf8(self@)
    }

    open spec fn decoding(bytes: Seq<u8>) -> Result<(Seq<char>, nat), Error> {
        match varuint_parse(bytes) {
            Err(e) => Err(e),
            Ok((count, n)) => match take_parse(bytes.skip(n as int), count as nat) {
                Err(e) => Err(e),
                Ok((raw, m)) => if valid_utf8(raw) {
                    Ok((decode_utf8(raw), n + m))
                } else {
                    Err(Error::InvalidUtf8)
                },
            },
        }
    }

    proof fn round_trip(value: Self, rest: Seq<u8>) {
        let raw = encode_utf8(value@);
        let head = varuint_bytes(raw.len() as u64);
        lemma_varuint_round_trip(raw.len() as u64, raw + rest);
        encode_utf8_valid_utf8(value@);
        encode_utf8_decode_utf8(value@);
        assert(value.encoding() + rest =~= head + (raw + rest));
        assert((head + (raw + rest)).skip(head.len() as int) =~= raw + rest);
        assert((raw + rest).take(raw.len() as int) =~= raw);
    }

    proof fn truncated(value: Self, n: int) {
        let raw = encode_utf8(value@);
        let head = varuint_bytes(raw.len() as u64);
        if n < head.len() {
            lemma_varuint_truncated(raw.len() as u64, n);
        } else {
            let m = n - head.len();
            lemma_varuint_round_trip(raw.len() as u64, raw.take(m));
            assert(value.encoding().take(n) =~= head + raw.take(m));
        }
    }

    fn decode(source: &mut Source) -> (r: Result<Self, Error>) {
        let start: usize = source.position();
        let len: u64 = match source.read_varuint() {
            Ok(n) => n,
            Err(e) => {
                return Err(e);
            },
        };
        if len > source.unread() as u64 {
            source.rewind(start);
            return Err(Error::UnexpectedEOF);
        }
        let raw = match source.next_bytes(len as usize) {
            Ok(raw) => raw,
            Err(e) => {
                source.rewind(start);
                return Err(e);
            },
        };
        assert(source.remaining() =~= old(source).remaining().skip(source.pos() - start));
        match String::from_utf8(slice_to_vec(raw)) {
            Ok(text) => {
                proof {
                    encode_utf8_decode_utf8(text@);
                }
                Ok(text)
            },
            Err(_) => {
                source.rewind(start);
                Err(Error::InvalidUtf8)
            },
        }
    }

    fn encode(self, sink: &mut Sink) {
        let raw = self.as_str().as_bytes();
        sink.write_varuint(raw.len() as u64);
        sink.write_bytes(raw);
    }
}

} // verus!
