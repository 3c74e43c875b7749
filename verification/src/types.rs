//! The fixed-size identifiers, hexadecimal text, and the integer form of
//! the legacy machine.

use crate::abi::wire::{
    le_bytes, le_number, le_value, lemma_le_bytes_len, lemma_le_value_of_bytes,
    lemma_le_value_push_zero, lemma_radix_values,
};
use vstd::prelude::*;
use vstd::slice::slice_subrange;
use vstd::std_specs::cmp::PartialEqSpecImpl;

verus! {

/// A 160-bit identifier: twenty raw bytes. Its view is the bytes.
#[derive(Debug, Clone, Copy, Eq, Hash)]
pub struct H160(pub [u8; 20]);

/// A 256-bit identifier: thirty-two raw bytes. Its view is the bytes.
#[derive(Debug, Clone, Copy, Eq, Hash)]
pub struct H256(pub [u8; 32]);

pub type Address = H160;

pub type U128 = u128;

pub type S128 = i128;

/// Whether two byte strings hold the same bytes.
pub fn bytes_equal(a: &[u8], b: &[u8]) -> (same: bool)
    ensures
        same == (a@ == b@),
{
    if a.len() != b.len() {
        return false;
    }
    let mut i: usize = 0;
    while i < a.len()
        invariant
            i <= a.len(),
            a.len() == b.len(),
            forall|j: int| 0 <= j < i ==> a@[j] == b@[j],
        decreases a.len() - i,
    {
        if a[i] != b[i] {
            return false;
        }
        i += 1;
    }
    assert(a@ =~= b@);
    true
}

impl View for H160 {
    type V = Seq<u8>;

    open spec fn view(&self) -> Seq<u8> {
        self.0@
    }
}

impl DeepView for H160 {
    type V = Seq<u8>;

    open spec fn deep_view(&self) -> Seq<u8> {
        self.0@
    }
}

impl H160 {
    pub fn new(val: [u8; 20]) -> (h: Self)
        ensures
            h.0 == val,
            h@ == val@,
    {
        H160(val)
    }

    /// The identifier of twenty zero bytes.
    pub fn zero() -> (h: Self)
        ensures
            h@ == Seq::new(20, |i: int| 0u8),
    {
        Self::repeat_byte(0)
    }

    /// The identifier whose every byte is `byte`.
    pub fn repeat_byte(byte: u8) -> (h: Self)
        ensures
            h@ == Seq::new(20, |i: int| byte),
    {
        H160([byte; 20])
    }

    /// The identifier that holds the twenty bytes of `src`.
    pub fn from_slice(src: &[u8]) -> (h: Self)
        requires
            src@.len() == 20,
        ensures
            h@ == src@,
    {
        let mut raw = [0u8; 20];
        let mut i: usize = 0;
        while i < 20
            invariant
                i <= 20,
                src@.len() == 20,
                forall|j: int| 0 <= j < i ==> raw@[j] == src@[j],
            decreases 20 - i,
        {
            raw[i] = src[i];
            i += 1;
        }
        H160(raw)
    }

    pub fn as_bytes(&self) -> (bytes: &[u8])
        ensures
            bytes@ == self@,
    {
        self.0.as_slice()
    }
}

impl Address {
    /// The bytes in hexadecimal, last byte first.
    pub fn to_hex_string(&self) -> (s: String)
        ensures
            s@ == hex_chars(self@.reverse()),
    {
        to_hex_string_reverse(self.0.as_slice())
    }
}

impl Default for H160 {
    fn default() -> (h: Self)
        ensures
            h@ == Seq::new(20, |i: int| 0u8),
    {
        Self::zero()
    }
}

impl PartialEq for H160 {
    fn eq(&self, other: &H160) -> (same: bool) {
        bytes_equal(self.0.as_slice(), other.0.as_slice())
    }
}

impl PartialEqSpecImpl for H160 {
    open spec fn obeys_eq_spec() -> bool {
        true
    }

    open spec fn eq_spec(&self, other: &H160) -> bool {
        self@ == other@
    }
}

impl View for H256 {
    type V = Seq<u8>;

    open spec fn view(&self) -> Seq<u8> {
        self.0@
    }
}

impl DeepView for H256 {
    type V = Seq<u8>;

    open spec fn deep_view(&self) -> Seq<u8> {
        self.0@
    }
}

impl H256 {
    pub fn new(val: [u8; 32]) -> (h: Self)
        ensures
            h.0 == val,
            h@ == val@,
    {
        H256(val)
    }

    /// The identifier of thirty-two zero bytes.
    pub fn zero() -> (h: Self)
        ensures
            h@ == Seq::new(32, |i: int| 0u8),
    {
        Self::repeat_byte(0)
    }

    /// The identifier whose every byte is `byte`.
    pub fn repeat_byte(byte: u8) -> (h: Self)
        ensures
            h@ == Seq::new(32, |i: int| byte),
    {
        H256([byte; 32])
    }

    /// The identifier that holds the thirty-two bytes of `src`.
    pub fn from_slice(src: &[u8]) -> (h: Self)
        requires
            src@.len() == 32,
        ensures
            h@ == src@,
    {
        let mut raw = [0u8; 32];
        let mut i: usize = 0;
        while i < 32
            invariant
                i <= 32,
                src@.len() == 32,
                forall|j: int| 0 <= j < i ==> raw@[j] == src@[j],
            decreases 32 - i,
        {
            raw[i] = src[i];
            i += 1;
        }
        H256(raw)
    }

    pub fn as_bytes(&self) -> (bytes: &[u8])
        ensures
            bytes@ == self@,
    {
        self.0.as_slice()
    }

    /// The bytes in hexadecimal, last byte first.
    pub fn to_hex_string(&self) -> (s: String)
        ensures
            s@ == hex_chars(self@.reverse()),
    {
        to_hex_string_reverse(self.0.as_slice())
    }
}

impl Default for H256 {
    fn default() -> (h: Self)
        ensures
            h@ == Seq::new(32, |i: int| 0u8),
    {
        Self::zero()
    }
}

impl PartialEq for H256 {
    fn eq(&self, other: &H256) -> (same: bool) {
        bytes_equal(self.0.as_slice(), other.0.as_slice())
    }
}

impl PartialEqSpecImpl for H256 {
    open spec fn obeys_eq_spec() -> bool {
        true
    }

    open spec fn eq_spec(&self, other: &H256) -> bool {
        self@ == other@
    }
}

/// `bytes` without its trailing zero bytes, but never without its first byte.
pub open spec fn trimmed(bytes: Seq<u8>) -> Seq<u8>
    decreases bytes.len(),
{
    if bytes.len() > 1 && bytes.last() == 0 {
        trimmed(bytes.drop_last())
    } else {
        bytes
    }
}

/// The form in which the legacy machine holds a non-negative integer: its
/// sixteen little-endian bytes without the high-order zero bytes, and, where
/// the last byte left has its high bit set, one zero byte more, so that the
/// number is not taken for a negative one.
pub open spec fn neo_bytes(value: u128) -> Seq<u8> {
    let low = trimmed(le_bytes(value as nat, 16));
    if low.last() >= 0x80 {
        low.push(0u8)
    } else {
        low
    }
}

/// The number that bytes in the legacy machine's form stand for: what the
/// first sixteen of them spell, least significant first.
pub open spec fn neo_value(bytes: Seq<u8>) -> nat {
    if bytes.len() <= 16 {
        le_value(bytes)
    } else {
        le_value(bytes.take(16))
    }
}

pub fn to_neo_bytes(data: U128) -> (res: Vec<u8>)
    ensures
        res@ == neo_bytes(data),
{
    let mut temp: Vec<u8> = Vec::new();
    let mut rest: u128 = data;
    while temp.len() < 16
        invariant
            temp@.len() <= 16,
            temp@ + le_bytes(rest as nat, (16 - temp@.len()) as nat) == le_bytes(data as nat, 16),
        decreases 16 - temp@.len(),
    {
        temp.push((rest % 256) as u8);
        rest = rest / 256;
    }
    assert(temp@.take(16) =~= temp@);
    let mut end: usize = 16;
    while end > 1 && temp[end - 1] == 0
        invariant
            1 <= end <= 16,
            temp@ == le_bytes(data as nat, 16),
            temp@.len() == 16,
            trimmed(temp@) == trimmed(temp@.take(end as int)),
        decreases end,
    {
        proof {
            assert(temp@.take(end as int).drop_last() =~= temp@.take(end - 1));
        }
        end -= 1;
    }
    let mut res: Vec<u8> = Vec::new();
    res.extend_from_slice(slice_subrange(temp.as_slice(), 0, end));
    if temp[end - 1] >= 0x80 {
        res.push(0);
    }
    res
}

/// The number that bytes in the legacy machine's form stand for. Bytes past
/// the sixteenth are not read.
pub fn u128_from_neo_bytes(buf: &[u8]) -> (value: U128)
    ensures
        value == neo_value(buf@),
{
    if buf.len() <= 16 {
        le_number(buf)
    } else {
        let low = slice_subrange(buf, 0, 16);
        le_number(low)
    }
}

/// Trimming takes no byte but zeros, so the number stays, and at least one
/// byte stays where there was one.
pub proof fn lemma_trimmed(bytes: Seq<u8>)
    ensures
        le_value(trimmed(bytes)) == le_value(bytes),
        trimmed(bytes).len() <= bytes.len(),
        bytes.len() >= 1 ==> trimmed(bytes).len() >= 1,
    decreases bytes.len(),
{
    if bytes.len() > 1 && bytes.last() == 0 {
        lemma_trimmed(bytes.drop_last());
        lemma_le_value_push_zero(bytes.drop_last());
        assert(bytes.drop_last().push(0u8) =~= bytes);
    }
}

/// Trimming leaves a last byte that is not zero, unless one byte is all
/// that is left.
pub proof fn lemma_trimmed_last(bytes: Seq<u8>)
    requires
        bytes.len() >= 1,
    ensures
        trimmed(bytes).len() == 1 || trimmed(bytes).last() != 0,
    decreases bytes.len(),
{
    if bytes.len() > 1 && bytes.last() == 0 {
        lemma_trimmed_last(bytes.drop_last());
    }
}

/// The legacy machine's form is between one and seventeen bytes long, its
/// last byte has the high bit clear, so that the number reads as
/// non-negative, and it is the shortest such form: without its last byte
/// it would stand for another number or read as a negative one.
pub proof fn lemma_neo_bytes_shape(value: u128)
    ensures
        1 <= neo_bytes(value).len() <= 17,
        neo_bytes(value).last() < 0x80,
        neo_bytes(value).len() > 1 ==> neo_bytes(value).last() != 0 || neo_bytes(
            value,
        ).drop_last().last() >= 0x80,
{
    let full = le_bytes(value as nat, 16);
    let low = trimmed(full);
    lemma_le_bytes_len(value as nat, 16);
    lemma_trimmed(full);
    lemma_trimmed_last(full);
}

/// The legacy machine's form of a number stands for that number.
pub proof fn lemma_neo_round_trip(value: u128)
    ensures
        neo_value(neo_bytes(value)) == value,
{
    let full = le_bytes(value as nat, 16);
    let low = trimmed(full);
    lemma_radix_values();
    lemma_le_bytes_len(value as nat, 16);
    lemma_le_value_of_bytes(value as nat, 16);
    lemma_trimmed(full);
    if low.last() >= 0x80 {
        lemma_le_value_push_zero(low);
        assert(low.push(0u8).take(low.len() as int) =~= low);
    }
}

/// `String::push` appends the character to the end of the text.
pub assume_specification[ String::push ](text: &mut String, ch: char)
    ensures
        final(text)@ == old(text)@.push(ch),
;

/// The lower-case hexadecimal digit for a number below sixteen.
pub open spec fn hex_digit(n: u8) -> char {
    if n < 10 {
        (0x30 + n) as char
    } else {
        (0x57 + n) as char
    }
}

/// Two hexadecimal digits for each byte, the high one first, in the bytes' order.
pub open spec fn hex_chars(bytes: Seq<u8>) -> Seq<char>
    decreases bytes.len(),
{
    if bytes.len() == 0 {
        Seq::empty()
    } else {
        hex_chars(bytes.drop_last()).push(hex_digit(bytes.last() / 16)).push(
            hex_digit(bytes.last() % 16),
        )
    }
}

fn hex_digit_of(n: u8) -> (c: char)
    requires
        n < 16,
    ensures
        c == hex_digit(n),
{
    if n < 10 {
        (0x30 + n) as char
    } else {
        (0x57 + n) as char
    }
}

/// The bytes in hexadecimal, first byte first.
pub fn to_hex_string(data: &[u8]) -> (s: String)
    ensures
        s@ == hex_chars(data@),
{
    let mut s = String::new();
    let mut i: usize = 0;
    while i < data.len()
        invariant
            i <= data.len(),
            s@ == hex_chars(data@.take(i as int)),
        decreases data.len() - i,
    {
        let v: u8 = data[i];
        s.push(hex_digit_of(v / 16));
        s.push(hex_digit_of(v % 16));
        proof {
            assert(data@.take(i + 1).drop_last() =~= data@.take(i as int));
        }
        i += 1;
    }
    assert(data@.take(i as int) =~= data@);
    s
}

/// The bytes in hexadecimal, last byte first.
pub fn to_hex_string_reverse(data: &[u8]) -> (s: String)
    ensures
        s@ == hex_chars(data@.reverse()),
{
    let mut s = String::new();
    let mut i: usize = data.len();
    let ghost n = data@.len() as int;
    while i > 0
        invariant
            i <= data.len(),
            n == data@.len(),
            s@ == hex_chars(data@.reverse().take(n - i)),
        decreases i,
    {
        i -= 1;
        let v: u8 = data[i];
        s.push(hex_digit_of(v / 16));
        s.push(hex_digit_of(v % 16));
        proof {
            let back = data@.reverse();
            assert(back.take(n - i).drop_last() =~= back.take(n - i - 1));
        }
    }
    assert(data@.reverse().take(n) =~= data@.reverse());
    s
}

} // verus!
