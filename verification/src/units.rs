//! Carrier units: a byte payload travels as a vector of signed 32-bit integers,
//! each holding one little-endian 16-bit word, so that no unit can collide with
//! the carrier's end-of-vector marker.

use byteorder::{ByteOrder, LittleEndian};
use vstd::prelude::*;

verus! {

/// The 16-bit word whose little-endian bytes are `lo`, `hi`.
pub open spec fn word_of(lo: u8, hi: u8) -> u16 {
    (lo as int + 256 * (hi as int)) as u16
}

/// Low byte of a word.
pub open spec fn word_lo(w: u16) -> u8 {
    (w % 256) as u8
}

/// High byte of a word.
pub open spec fn word_hi(w: u16) -> u8 {
    (w / 256) as u8
}

/// The low 16 bits of a carrier unit, as an unsigned word.
pub open spec fn unit_word(unit: i32) -> u16 {
    ((unit as int) % 65536) as u16
}

/// `bytes`, followed by one zero byte when its length is odd.
pub open spec fn padded(bytes: Seq<u8>) -> Seq<u8> {
    if bytes.len() % 2 == 0 {
        bytes
    } else {
        bytes.push(0u8)
    }
}

/// The units of an even-length payload: unit `i` is the word of bytes `2i`, `2i + 1`.
pub open spec fn packed(bytes: Seq<u8>) -> Seq<i32> {
    Seq::new(bytes.len() / 2, |i: int| word_of(bytes[2 * i], bytes[2 * i + 1]) as i32)
}

/// The payload of a unit vector: two bytes per unit, low byte first.
pub open spec fn unpacked(units: Seq<i32>) -> Seq<u8> {
    Seq::new(
        2 * units.len(),
        |j: int|
            if j % 2 == 0 {
                word_lo(unit_word(units[j / 2]))
            } else {
                word_hi(unit_word(units[j / 2]))
            },
    )
}

/// `byteorder::LittleEndian::read_u16`: the word stored little-endian in the
/// first two bytes of `buf`. The outside function panics on a shorter buffer.
#[verifier::external_body]
fn read_word(buf: &[u8]) -> (w: u16)
    requires
        buf@.len() >= 2,
    ensures
        w == word_of(buf@[0], buf@[1]),
{
    LittleEndian::read_u16(buf)
}

/// `byteorder::LittleEndian::write_u16`: stores `w` little-endian in the two
/// bytes of `buf`.
#[verifier::external_body]
fn write_word(buf: &mut [u8; 2], w: u16)
    ensures
        final(buf)@ == seq![word_lo(w), word_hi(w)],
{
    LittleEndian::write_u16(buf, w)
}

/// Appends a zero byte to a payload of odd length, so that it splits into words.
pub fn pad_even(bytes: &mut Vec<u8>)
    ensures
        final(bytes)@ == padded(old(bytes)@),
        final(bytes)@.len() % 2 == 0,
{
    if bytes.len() % 2 > 0 {
        bytes.push(0);
    }
}

/// Packs an even-length payload two bytes at a time into carrier units.
/// Every unit lies in `0..=65535`.
pub fn pack_units(bytes: &Vec<u8>) -> (units: Vec<i32>)
    requires
        bytes@.len() % 2 == 0,
    ensures
        units@ == packed(bytes@),
        forall|i: int| 0 <= i < units@.len() ==> 0 <= #[trigger] units@[i] <= 65535,
{
    let mut units: Vec<i32> = Vec::new();
    let mut i: usize = 0;
    while i < bytes.len()
        invariant
            bytes@.len() % 2 == 0,
            i % 2 == 0,
            i <= bytes@.len(),
            units@.len() == i / 2,
            forall|k: int|
                0 <= k < units@.len() ==> #[trigger] units@[k] == word_of(
                    bytes@[2 * k],
                    bytes@[2 * k + 1],
                ) as i32,
        decreases bytes@.len() - i,
    {
        let pair = vstd::slice::slice_subrange(bytes.as_slice(), i, i + 2);
        let w = read_word(pair);
        units.push(w as i32);
        i += 2;
    }
    assert(units@ =~= packed(bytes@));
    units
}

/// Unpacks carrier units into their payload. Only the low 16 bits of a unit count.
pub fn unpack_units(units: &Vec<i32>) -> (bytes: Vec<u8>)
    ensures
        bytes@ == unpacked(units@),
{
    let mut bytes: Vec<u8> = Vec::new();
    let mut i: usize = 0;
    while i < units.len()
        invariant
            i <= units@.len(),
            bytes@.len() == 2 * i,
            forall|j: int|
                0 <= j < bytes@.len() ==> #[trigger] bytes@[j] == unpacked(units@)[j],
        decreases units@.len() - i,
    {
        let w = low_word(units[i]);
        let mut buf: [u8; 2] = [0u8, 0u8];
        write_word(&mut buf, w);
        bytes.push(buf[0]);
        bytes.push(buf[1]);
        i += 1;
    }
    assert(bytes@ =~= unpacked(units@));
    bytes
}

/// The low 16 bits of a unit.
fn low_word(unit: i32) -> (w: u16)
    ensures
        w == unit_word(unit),
{
    let shifted: i64 = unit as i64 + 4294967296;
    (shifted % 65536) as u16
}

/// Unpacking undoes packing: an even-length payload comes back byte for byte.
pub proof fn lemma_unpack_pack(bytes: Seq<u8>)
    requires
        bytes.len() % 2 == 0,
    ensures
        unpacked(packed(bytes)) == bytes,
{
    assert forall|j: int| 0 <= j < bytes.len() implies unpacked(packed(bytes))[j] == bytes[j] by {
        let i = j / 2;
        let w = word_of(bytes[2 * i], bytes[2 * i + 1]);
        assert(packed(bytes)[i] == w as i32);
        assert(unit_word(w as i32) == w);
    }
    assert(unpacked(packed(bytes)) =~= bytes);
}

} // verus!
