//! The byte formats as mathematics: little-endian integers and the
//! marker-prefixed variable-length unsigned integer.

use super::error::Error;
use vstd::prelude::*;

verus! {

/// `256^width`: the number of values that `width` bytes can hold.
pub open spec fn radix(width: nat) -> nat
    decreases width,
{
    if width == 0 {
        1
    } else {
        256 * radix((width - 1) as nat)
    }
}

/// The `width` low-order bytes of `value`, least significant first.
pub open spec fn le_bytes(value: nat, width: nat) -> Seq<u8>
    decreases width,
{
    if width == 0 {
        Seq::empty()
    } else {
        seq![(value % 256) as u8] + le_bytes(value / 256, (width - 1) as nat)
    }
}

/// The number that `bytes` spell, least significant byte first.
pub open spec fn le_value(bytes: Seq<u8>) -> nat
    decreases bytes.len(),
{
    if bytes.len() == 0 {
        0
    } else {
        bytes[0] as nat + 256 * le_value(bytes.drop_first())
    }
}

/// The bytes of the variable-length form of `value`: the value itself below
/// 0xFD, else a marker (0xFD, 0xFE, 0xFF) and 2, 4 or 8 little-endian bytes.
pub open spec fn varuint_bytes(value: u64) -> Seq<u8> {
    if value < 0xFD {
        seq![value as u8]
    } else if value <= 0xFFFF {
        seq![0xFDu8] + le_bytes(value as nat, 2)
    } else if value <= 0xFFFF_FFFF {
        seq![0xFEu8] + le_bytes(value as nat, 4)
    } else {
        seq![0xFFu8] + le_bytes(value as nat, 8)
    }
}

/// A byte string behind its length in variable-length form.
pub open spec fn var_bytes(data: Seq<u8>) -> Seq<u8> {
    varuint_bytes(data.len() as u64) + data
}

/// How many bytes follow a marker byte.
pub open spec fn varuint_trail(marker: u8) -> nat {
    if marker == 0xFD {
        2
    } else if marker == 0xFE {
        4
    } else if marker == 0xFF {
        8
    } else {
        0
    }
}

/// What taking `n` raw bytes from the front of `bytes` yields.
pub open spec fn take_parse(bytes: Seq<u8>, n: nat) -> Result<(Seq<u8>, nat), Error> {
    if bytes.len() < n {
        Err(Error::UnexpectedEOF)
    } else {
        Ok((bytes.take(n as int), n))
    }
}

/// What reading a `width`-byte little-endian integer from the front of `bytes` yields.
pub open spec fn le_parse(bytes: Seq<u8>, width: nat) -> Result<(nat, nat), Error> {
    if bytes.len() < width {
        Err(Error::UnexpectedEOF)
    } else {
        Ok((le_value(bytes.take(width as int)), width))
    }
}

/// What reading one byte from the front of `bytes` yields.
pub open spec fn u8_parse(bytes: Seq<u8>) -> Result<(u8, nat), Error> {
    if bytes.len() < 1 {
        Err(Error::UnexpectedEOF)
    } else {
        Ok((bytes[0], 1))
    }
}

/// What reading a 16-bit little-endian integer from the front of `bytes` yields.
pub open spec fn u16_parse(bytes: Seq<u8>) -> Result<(u16, nat), Error> {
    match le_parse(bytes, 2) {
        Ok((value, n)) => Ok((value as u16, n)),
        Err(e) => Err(e),
    }
}

/// What reading a 32-bit little-endian integer from the front of `bytes` yields.
pub open spec fn u32_parse(bytes: Seq<u8>) -> Result<(u32, nat), Error> {
    match le_parse(bytes, 4) {
        Ok((value, n)) => Ok((value as u32, n)),
        Err(e) => Err(e),
    }
}

/// What reading a 64-bit little-endian integer from the front of `bytes` yields.
pub open spec fn u64_parse(bytes: Seq<u8>) -> Result<(u64, nat), Error> {
    match le_parse(bytes, 8) {
        Ok((value, n)) => Ok((value as u64, n)),
        Err(e) => Err(e),
    }
}

/// What reading a boolean from the front of `bytes` yields: only 0 and 1 are booleans.
pub open spec fn bool_parse(bytes: Seq<u8>) -> Result<(bool, nat), Error> {
    if bytes.len() < 1 {
        Err(Error::UnexpectedEOF)
    } else if bytes[0] == 0 {
        Ok((false, 1))
    } else if bytes[0] == 1 {
        Ok((true, 1))
    } else {
        Err(Error::IrregularData)
    }
}

/// What reading a variable-length integer from the front of `bytes` yields:
/// the value and the number of bytes it took, or the failure.
pub open spec fn varuint_parse(bytes: Seq<u8>) -> Result<(u64, nat), Error> {
    if bytes.len() < 1 {
        Err(Error::UnexpectedEOF)
    } else {
        let trail = varuint_trail(bytes[0]);
        if trail == 0 {
            Ok((bytes[0] as u64, 1))
        } else if bytes.len() < 1 + trail {
            Err(Error::UnexpectedEOF)
        } else {
            Ok((le_value(bytes.subrange(1, 1 + trail as int)) as u64, 1 + trail))
        }
    }
}

/// The number that at most sixteen bytes spell, least significant first.
pub fn le_number(bytes: &[u8]) -> (value: u128)
    requires
        bytes@.len() <= 16,
    ensures
        value == le_value(bytes@),
{
    let width: usize = bytes.len();
    let mut value: u128 = 0;
    let mut i: usize = width;
    while i > 0
        invariant
            i <= width <= 16,
            bytes@.len() == width,
            value == le_value(bytes@.subrange(i as int, width as int)),
        decreases i,
    {
        proof {
            let part = bytes@.subrange(i - 1, width as int);
            lemma_le_value_bound(bytes@.subrange(i as int, width as int));
            lemma_radix_bound((width - i) as nat);
            assert(part.drop_first() =~= bytes@.subrange(i as int, width as int));
        }
        i -= 1;
        value = value * 256 + bytes[i] as u128;
    }
    assert(bytes@.subrange(0, width as int) =~= bytes@);
    value
}

/// The powers of 256 that the formats use.
pub proof fn lemma_radix_values()
    ensures
        radix(0) == 1,
        radix(1) == 0x100,
        radix(2) == 0x1_0000,
        radix(4) == 0x1_0000_0000,
        radix(8) == 0x1_0000_0000_0000_0000,
        radix(16) == 0x1_0000_0000_0000_0000_0000_0000_0000_0000,
{
    reveal_with_fuel(radix, 17);
}

/// Fifteen bytes or fewer stay below `256^15`.
pub proof fn lemma_radix_bound(width: nat)
    requires
        width <= 15,
    ensures
        radix(width) <= 0x1_00_0000_0000_0000_0000_0000_0000_0000,
    decreases 15 - width,
{
    if width < 15 {
        lemma_radix_bound(width + 1);
    } else {
        reveal_with_fuel(radix, 16);
    }
}

/// A number spelt at a width takes that many bytes.
pub proof fn lemma_le_bytes_len(value: nat, width: nat)
    ensures
        le_bytes(value, width).len() == width,
    decreases width,
{
    if width > 0 {
        lemma_le_bytes_len(value / 256, (width - 1) as nat);
    }
}

/// What `bytes` spell is below `256^len`.
pub proof fn lemma_le_value_bound(bytes: Seq<u8>)
    ensures
        le_value(bytes) < radix(bytes.len()),
    decreases bytes.len(),
{
    if bytes.len() > 0 {
        lemma_le_value_bound(bytes.drop_first());
    }
}

/// Spelling a number that fits in `width` bytes and reading it back gives the number.
pub proof fn lemma_le_value_of_bytes(value: nat, width: nat)
    requires
        value < radix(width),
    ensures
        le_value(le_bytes(value, width)) == value,
    decreases width,
{
    if width > 0 {
        let rest = le_bytes(value / 256, (width - 1) as nat);
        lemma_le_value_of_bytes(value / 256, (width - 1) as nat);
        assert(le_bytes(value, width).drop_first() =~= rest);
    }
}

/// Reading bytes as a number and spelling it at the same width gives the bytes.
pub proof fn lemma_le_bytes_of_value(bytes: Seq<u8>)
    ensures
        le_bytes(le_value(bytes), bytes.len()) == bytes,
    decreases bytes.len(),
{
    if bytes.len() > 0 {
        lemma_le_bytes_of_value(bytes.drop_first());
    }
}

/// Four bytes hold the low 32 bits of a number and no more.
pub proof fn lemma_le_bytes_low_32(value: nat)
    ensures
        le_bytes(value % 0x1_0000_0000, 4) == le_bytes(value, 4),
{
    reveal_with_fuel(le_bytes, 5);
    let low = value % 0x1_0000_0000;
    assert(low % 256 == value % 256);
    assert(low / 256 % 256 == value / 256 % 256);
    assert(low / 256 / 256 % 256 == value / 256 / 256 % 256);
    assert(low / 256 / 256 / 256 % 256 == value / 256 / 256 / 256 % 256);
}

/// A zero byte at the high end changes nothing.
pub proof fn lemma_le_value_push_zero(bytes: Seq<u8>)
    ensures
        le_value(bytes.push(0u8)) == le_value(bytes),
    decreases bytes.len(),
{
    if bytes.len() == 0 {
        assert(le_value(bytes.push(0u8)) == 0 + 256 * le_value(bytes.push(0u8).drop_first()));
    } else {
        lemma_le_value_push_zero(bytes.drop_first());
        assert(bytes.push(0u8).drop_first() =~= bytes.drop_first().push(0u8));
    }
}

/// The variable-length form takes one, three, five or nine bytes, the
/// fewest that hold the value, and but for the one-byte form it begins
/// with the marker of its width.
pub proof fn lemma_varuint_shape(value: u64)
    ensures
        value < 0xFD ==> varuint_bytes(value) == seq![value as u8],
        0xFD <= value <= 0xFFFF ==> varuint_bytes(value).len() == 3 && varuint_bytes(value)[0]
            == 0xFD,
        0xFFFF < value <= 0xFFFF_FFFF ==> varuint_bytes(value).len() == 5 && varuint_bytes(
            value,
        )[0] == 0xFE,
        0xFFFF_FFFF < value ==> varuint_bytes(value).len() == 9 && varuint_bytes(value)[0] == 0xFF,
{
    lemma_le_bytes_len(value as nat, 2);
    lemma_le_bytes_len(value as nat, 4);
    lemma_le_bytes_len(value as nat, 8);
}

/// A variable-length integer reads back as itself, whatever follows it.
pub proof fn lemma_varuint_round_trip(value: u64, rest: Seq<u8>)
    ensures
        varuint_parse(varuint_bytes(value) + rest) == Ok::<(u64, nat), Error>(
            (value, varuint_bytes(value).len()),
        ),
{
    let enc = varuint_bytes(value);
    let all = enc + rest;
    lemma_radix_values();
    if value < 0xFD {
        assert(all[0] == value as u8);
    } else {
        let trail: nat = if value <= 0xFFFF {
            2
        } else if value <= 0xFFFF_FFFF {
            4
        } else {
            8
        };
        lemma_le_bytes_len(value as nat, trail);
        lemma_le_value_of_bytes(value as nat, trail);
        assert(all[0] == enc[0]);
        assert(all.subrange(1, 1 + trail as int) =~= le_bytes(value as nat, trail));
    }
}

/// A variable-length integer cut short does not read: the input is truncated.
pub proof fn lemma_varuint_truncated(value: u64, n: int)
    requires
        0 <= n < varuint_bytes(value).len(),
    ensures
        varuint_parse(varuint_bytes(value).take(n)) == Err::<(u64, nat), Error>(
            Error::UnexpectedEOF,
        ),
{
    let enc = varuint_bytes(value);
    lemma_le_bytes_len(value as nat, 2);
    lemma_le_bytes_len(value as nat, 4);
    lemma_le_bytes_len(value as nat, 8);
    if n > 0 {
        assert(enc.take(n)[0] == enc[0]);
    }
}

} // verus!
