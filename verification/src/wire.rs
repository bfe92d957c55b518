//! Binary layout of the observation payloads, and the outside serialiser and
//! bit vector that produce and read it.
//!
//! A payload is one of three shapes: a vector of 16-bit values, a vector of
//! 32-bit values, or a packed bit vector. Lengths and multi-byte integers are
//! fixed-width and little-endian; readers ignore bytes behind the payload.

use bv::BitVec;
use vstd::prelude::*;

verus! {

/// `bincode::ErrorKind`, the error of the outside serialiser. It is carried
/// through as it comes; nothing is known of what it holds.
#[verifier::external_type_specification]
#[verifier::external_body]
pub struct ExErrorKind(bincode::ErrorKind);

/// A packed bit vector with byte-sized blocks, as the outside crate `bv` keeps
/// it. Its storage and bit count are known through `bit_blocks` and
/// `bit_count` only.
#[verifier::external_body]
pub struct PackedBits {
    inner: BitVec<u8>,
}

/// The storage blocks of a bit vector, in order, unused ones included.
pub uninterp spec fn bit_blocks(v: PackedBits) -> Seq<u8>;

/// The number of bits a bit vector holds.
pub uninterp spec fn bit_count(v: PackedBits) -> nat;

/// 256 to the power `k`, for the eight byte positions of a 64-bit integer.
pub open spec fn byte_weight(k: int) -> int {
    if k <= 0 {
        1
    } else if k == 1 {
        0x100
    } else if k == 2 {
        0x1_0000
    } else if k == 3 {
        0x100_0000
    } else if k == 4 {
        0x1_0000_0000
    } else if k == 5 {
        0x100_0000_0000
    } else if k == 6 {
        0x1_0000_0000_0000
    } else {
        0x100_0000_0000_0000
    }
}

/// Byte `k` of `n` in little-endian order.
pub open spec fn byte_at(n: int, k: int) -> u8 {
    ((n / byte_weight(k)) % 256) as u8
}

/// The eight little-endian bytes of a 64-bit integer.
pub open spec fn le64(n: int) -> Seq<u8> {
    Seq::new(8, |k: int| byte_at(n, k))
}

/// The 64-bit integer stored little-endian in the eight bytes at `at`.
pub open spec fn from_le64(bytes: Seq<u8>, at: int) -> int {
    bytes[at] as int + 0x100 * (bytes[at + 1] as int) + 0x1_0000 * (bytes[at + 2] as int)
        + 0x100_0000 * (bytes[at + 3] as int) + 0x1_0000_0000 * (bytes[at + 4] as int)
        + 0x100_0000_0000 * (bytes[at + 5] as int) + 0x1_0000_0000_0000 * (bytes[at + 6] as int)
        + 0x100_0000_0000_0000 * (bytes[at + 7] as int)
}

/// The 16-bit integer stored little-endian in the two bytes at `at`.
pub open spec fn from_le16(bytes: Seq<u8>, at: int) -> u16 {
    (bytes[at] as int + 0x100 * (bytes[at + 1] as int)) as u16
}

/// The 32-bit integer stored little-endian in the four bytes at `at`.
pub open spec fn from_le32(bytes: Seq<u8>, at: int) -> u32 {
    (bytes[at] as int + 0x100 * (bytes[at + 1] as int) + 0x1_0000 * (bytes[at + 2] as int)
        + 0x100_0000 * (bytes[at + 3] as int)) as u32
}

/// Layout of a vector of 16-bit values: the length in eight bytes, then two
/// bytes per value.
pub open spec fn u16s_layout(values: Seq<u16>) -> Seq<u8> {
    le64(values.len() as int) + Seq::new(
        2 * values.len(),
        |j: int| byte_at(values[j / 2] as int, j % 2),
    )
}

/// Layout of a vector of 32-bit values: the length in eight bytes, then four
/// bytes per value.
pub open spec fn u32s_layout(values: Seq<u32>) -> Seq<u8> {
    le64(values.len() as int) + Seq::new(
        4 * values.len(),
        |j: int| byte_at(values[j / 4] as int, j % 4),
    )
}

/// Layout of a bit vector: a presence byte for the block storage (0 when there
/// is none), then, where present, the block count in eight bytes and the
/// blocks; last the bit count in eight bytes.
pub open spec fn bits_layout(blocks: Seq<u8>, count: nat) -> Seq<u8> {
    if blocks.len() == 0 {
        seq![0u8] + le64(count as int)
    } else {
        seq![1u8] + le64(blocks.len() as int) + blocks + le64(count as int)
    }
}

/// What a reader makes of the bytes of a vector of 16-bit values; `None` where
/// the bytes end before the announced length is reached.
pub open spec fn u16s_parse(bytes: Seq<u8>) -> Option<Seq<u16>> {
    if bytes.len() < 8 || 8 + 2 * from_le64(bytes, 0) > bytes.len() {
        None
    } else {
        Some(Seq::new(from_le64(bytes, 0) as nat, |i: int| from_le16(bytes, 8 + 2 * i)))
    }
}

/// What a reader makes of the bytes of a vector of 32-bit values.
pub open spec fn u32s_parse(bytes: Seq<u8>) -> Option<Seq<u32>> {
    if bytes.len() < 8 || 8 + 4 * from_le64(bytes, 0) > bytes.len() {
        None
    } else {
        Some(Seq::new(from_le64(bytes, 0) as nat, |i: int| from_le32(bytes, 8 + 4 * i)))
    }
}

/// What a reader makes of the bytes of a bit vector: its blocks and bit count.
/// Storage that is present must hold a block, and the bit count must fit the
/// blocks.
pub open spec fn bits_parse(bytes: Seq<u8>) -> Option<(Seq<u8>, nat)> {
    if bytes.len() < 9 {
        None
    } else if bytes[0] == 0 {
        if from_le64(bytes, 1) == 0 {
            Some((Seq::empty(), 0nat))
        } else {
            None
        }
    } else if bytes[0] == 1 {
        let n = from_le64(bytes, 1);
        if n == 0 || 17 + n > bytes.len() || from_le64(bytes, 9 + n) > 8 * n {
            None
        } else {
            Some((bytes.subrange(9, 9 + n), from_le64(bytes, 9 + n) as nat))
        }
    } else {
        None
    }
}

/// Block `b` with bit `k` set to `bit`.
pub open spec fn with_bit(b: u8, k: u8, bit: bool) -> u8 {
    if bit {
        b | (1u8 << k)
    } else {
        b & !(1u8 << k)
    }
}

/// Whether bit `k` of block `b` is set.
pub open spec fn has_bit(b: u8, k: u8) -> bool {
    b & (1u8 << k) != 0
}

/// The value of bit `k` of a block.
pub open spec fn bit_weight(k: int) -> int {
    if k <= 0 {
        1
    } else if k == 1 {
        2
    } else if k == 2 {
        4
    } else if k == 3 {
        8
    } else if k == 4 {
        16
    } else if k == 5 {
        32
    } else if k == 6 {
        64
    } else {
        128
    }
}

/// What flag `i` adds to its block: the weight of its bit when it is set.
pub open spec fn flag_term(flags: Seq<bool>, i: int) -> int {
    if 0 <= i < flags.len() && flags[i] {
        bit_weight(i % 8)
    } else {
        0
    }
}

/// Block `j` of a flag vector: flags `8j` to `8j + 7`, the first in the lowest bit.
pub open spec fn block_of(flags: Seq<bool>, j: int) -> u8 {
    (flag_term(flags, 8 * j) + flag_term(flags, 8 * j + 1) + flag_term(flags, 8 * j + 2)
        + flag_term(flags, 8 * j + 3) + flag_term(flags, 8 * j + 4) + flag_term(flags, 8 * j + 5)
        + flag_term(flags, 8 * j + 6) + flag_term(flags, 8 * j + 7)) as u8
}

/// The blocks of a flag vector kept in storage of `blocks` blocks.
pub open spec fn blocks_of(flags: Seq<bool>, blocks: nat) -> Seq<u8> {
    Seq::new(blocks, |j: int| block_of(flags, j))
}

/// Layout of a vector of flags, packed eight to a block with no block to spare.
pub open spec fn flags_layout(flags: Seq<bool>) -> Seq<u8> {
    bits_layout(blocks_of(flags, (flags.len() + 7) / 8), flags.len())
}

/// `bincode::serialize` on a vector of 16-bit values. The call runs without a
/// limit on the size and writes into memory, so it succeeds; the bytes are the
/// length and the values, fixed-width and little-endian.
#[verifier::external_body]
pub(crate) fn serialize_u16s(values: &Vec<u16>) -> (r: Result<Vec<u8>, bincode::Error>)
    ensures
        r is Ok,
        r matches Ok(bytes) ==> bytes@ == u16s_layout(values@),
{
    bincode::serialize(values)
}

/// `bincode::serialize` on a vector of 32-bit values. It succeeds, and the
/// bytes are the length and the values, fixed-width and little-endian.
#[verifier::external_body]
pub(crate) fn serialize_u32s(values: &Vec<u32>) -> (r: Result<Vec<u8>, bincode::Error>)
    ensures
        r is Ok,
        r matches Ok(bytes) ==> bytes@ == u32s_layout(values@),
{
    bincode::serialize(values)
}

/// `bincode::serialize` on a bit vector. It succeeds, and the bytes are its
/// storage blocks as an optional sequence, then its bit count.
#[verifier::external_body]
pub(crate) fn serialize_bits(bits: &PackedBits) -> (r: Result<Vec<u8>, bincode::Error>)
    ensures
        r is Ok,
        r matches Ok(bytes) ==> bytes@ == bits_layout(bit_blocks(*bits), bit_count(*bits)),
{
    bincode::serialize(&bits.inner)
}

/// `bincode::deserialize` to a vector of 16-bit values: succeeds exactly when
/// the announced number of values is there, whatever follows them.
#[verifier::external_body]
pub(crate) fn deserialize_u16s(bytes: &[u8]) -> (r: Result<Vec<u16>, bincode::Error>)
    ensures
        r is Ok <==> u16s_parse(bytes@) is Some,
        r matches Ok(values) ==> u16s_parse(bytes@) == Some(values@),
{
    bincode::deserialize(bytes)
}

/// `bincode::deserialize` to a vector of 32-bit values.
#[verifier::external_body]
pub(crate) fn deserialize_u32s(bytes: &[u8]) -> (r: Result<Vec<u32>, bincode::Error>)
    ensures
        r is Ok <==> u32s_parse(bytes@) is Some,
        r matches Ok(values) ==> u32s_parse(bytes@) == Some(values@),
{
    bincode::deserialize(bytes)
}

/// `bincode::deserialize` to a bit vector: succeeds exactly when the storage
/// and the bit count are there and fit each other.
#[verifier::external_body]
pub(crate) fn deserialize_bits(bytes: &[u8]) -> (r: Result<PackedBits, bincode::Error>)
    ensures
        r is Ok <==> bits_parse(bytes@) is Some,
        r matches Ok(bits) ==> bits_parse(bytes@) == Some((bit_blocks(bits), bit_count(bits))),
{
    match bincode::deserialize(bytes) {
        Ok(inner) => Ok(PackedBits { inner }),
        Err(e) => Err(e),
    }
}

/// `bv::BitVec::with_capacity`: an empty bit vector over zeroed blocks, one
/// block for every eight bits of capacity asked for.
#[verifier::external_body]
pub(crate) fn bits_with_capacity(nbits: u64) -> (bits: PackedBits)
    requires
        nbits + 7 <= u64::MAX,
        (nbits + 7) / 8 <= usize::MAX,
    ensures
        bit_count(bits) == 0,
        bit_blocks(bits) == Seq::new(((nbits + 7) / 8) as nat, |j: int| 0u8),
{
    PackedBits { inner: BitVec::with_capacity(nbits) }
}

/// `bv::BitVec::push`, where the storage has room: the next bit of the storage
/// takes the value and the bit count grows by one.
#[verifier::external_body]
pub(crate) fn bits_push(bits: &mut PackedBits, bit: bool)
    requires
        bit_count(*old(bits)) < 8 * bit_blocks(*old(bits)).len(),
    ensures
        bit_count(*final(bits)) == bit_count(*old(bits)) + 1,
        bit_blocks(*final(bits)) == bit_blocks(*old(bits)).update(
            bit_count(*old(bits)) as int / 8,
            with_bit(
                bit_blocks(*old(bits))[bit_count(*old(bits)) as int / 8],
                (bit_count(*old(bits)) % 8) as u8,
                bit,
            ),
        ),
{
    bits.inner.push(bit)
}

/// `bv::BitVec::len`: the bit count, which the storage always has room for.
#[verifier::external_body]
pub(crate) fn bits_len(bits: &PackedBits) -> (n: u64)
    ensures
        n == bit_count(*bits),
        n <= 8 * bit_blocks(*bits).len(),
{
    bits.inner.len()
}

/// Indexing a `bv::BitVec`: the bit at `position` of the storage. The outside
/// function panics on a position at or behind the bit count.
#[verifier::external_body]
pub(crate) fn bits_get(bits: &PackedBits, position: u64) -> (bit: bool)
    requires
        position < bit_count(*bits),
    ensures
        bit == has_bit(bit_blocks(*bits)[position as int / 8], (position % 8) as u8),
{
    bits.inner[position]
}

/// An integer below 2^64 is the weighted sum of its eight bytes.
proof fn lemma_byte_sum(n: int)
    requires
        0 <= n <= u64::MAX,
    ensures
        n == byte_at(n, 0) as int + 0x100 * (byte_at(n, 1) as int) + 0x1_0000 * (byte_at(n, 2) as int)
            + 0x100_0000 * (byte_at(n, 3) as int) + 0x1_0000_0000 * (byte_at(n, 4) as int)
            + 0x100_0000_0000 * (byte_at(n, 5) as int) + 0x1_0000_0000_0000 * (byte_at(
            n,
            6,
        ) as int) + 0x100_0000_0000_0000 * (byte_at(n, 7) as int),
{
    let q1 = n / 0x100;
    let q2 = q1 / 0x100;
    let q3 = q2 / 0x100;
    let q4 = q3 / 0x100;
    let q5 = q4 / 0x100;
    let q6 = q5 / 0x100;
    let q7 = q6 / 0x100;
    vstd::arithmetic::div_mod::lemma_div_denominator(n, 0x100, 0x100);
    vstd::arithmetic::div_mod::lemma_div_denominator(n, 0x1_0000, 0x100);
    vstd::arithmetic::div_mod::lemma_div_denominator(n, 0x100_0000, 0x100);
    vstd::arithmetic::div_mod::lemma_div_denominator(n, 0x1_0000_0000, 0x100);
    vstd::arithmetic::div_mod::lemma_div_denominator(n, 0x100_0000_0000, 0x100);
    vstd::arithmetic::div_mod::lemma_div_denominator(n, 0x1_0000_0000_0000, 0x100);
    assert(q2 == n / 0x1_0000);
    assert(q3 == n / 0x100_0000);
    assert(q4 == n / 0x1_0000_0000);
    assert(q5 == n / 0x100_0000_0000);
    assert(q6 == n / 0x1_0000_0000_0000);
    assert(q7 == n / 0x100_0000_0000_0000);
    assert(n == n % 0x100 + 0x100 * q1);
    assert(q1 == q1 % 0x100 + 0x100 * q2);
    assert(q2 == q2 % 0x100 + 0x100 * q3);
    assert(q3 == q3 % 0x100 + 0x100 * q4);
    assert(q4 == q4 % 0x100 + 0x100 * q5);
    assert(q5 == q5 % 0x100 + 0x100 * q6);
    assert(q6 == q6 % 0x100 + 0x100 * q7);
    assert(q7 == q7 % 0x100);
}

/// Eight little-endian bytes read back give the integer they were made from.
pub proof fn lemma_le64_read(bytes: Seq<u8>, at: int, n: int)
    requires
        0 <= n <= u64::MAX,
        0 <= at,
        at + 8 <= bytes.len(),
        forall|k: int| 0 <= k < 8 ==> #[trigger] bytes[at + k] == byte_at(n, k),
    ensures
        from_le64(bytes, at) == n,
{
    assert(bytes[at + 0] == byte_at(n, 0));
    assert(bytes[at + 1] == byte_at(n, 1));
    assert(bytes[at + 2] == byte_at(n, 2));
    assert(bytes[at + 3] == byte_at(n, 3));
    assert(bytes[at + 4] == byte_at(n, 4));
    assert(bytes[at + 5] == byte_at(n, 5));
    assert(bytes[at + 6] == byte_at(n, 6));
    assert(bytes[at + 7] == byte_at(n, 7));
    lemma_byte_sum(n);
}

/// A 32-bit integer is the weighted sum of its four bytes.
proof fn lemma_byte_sum32(v: u32)
    ensures
        v as int == byte_at(v as int, 0) as int + 0x100 * (byte_at(v as int, 1) as int) + 0x1_0000
            * (byte_at(v as int, 2) as int) + 0x100_0000 * (byte_at(v as int, 3) as int),
{
    let n = v as int;
    let q1 = n / 0x100;
    let q2 = q1 / 0x100;
    let q3 = q2 / 0x100;
    vstd::arithmetic::div_mod::lemma_div_denominator(n, 0x100, 0x100);
    vstd::arithmetic::div_mod::lemma_div_denominator(n, 0x1_0000, 0x100);
    assert(q2 == n / 0x1_0000);
    assert(q3 == n / 0x100_0000);
    assert(n == n % 0x100 + 0x100 * q1);
    assert(q1 == q1 % 0x100 + 0x100 * q2);
    assert(q2 == q2 % 0x100 + 0x100 * q3);
    assert(q3 == q3 % 0x100);
}

/// A vector of 16-bit values is read back from its layout, whatever follows it.
pub proof fn lemma_u16s_read(values: Seq<u16>, tail: Seq<u8>)
    requires
        values.len() <= u64::MAX,
    ensures
        u16s_parse(u16s_layout(values) + tail) == Some(values),
{
    let bytes = u16s_layout(values) + tail;
    let n = values.len() as int;
    assert forall|k: int| 0 <= k < 8 implies #[trigger] bytes[0 + k] == byte_at(n, k) by {
        assert(bytes[k] == le64(n)[k]);
    }
    lemma_le64_read(bytes, 0, n);
    let parsed = Seq::new(n as nat, |i: int| from_le16(bytes, 8 + 2 * i));
    assert forall|i: int| 0 <= i < n implies parsed[i] == values[i] by {
        assert(bytes[8 + 2 * i] == byte_at(values[(2 * i) / 2] as int, (2 * i) % 2));
        assert(bytes[8 + 2 * i + 1] == byte_at(values[(2 * i + 1) / 2] as int, (2 * i + 1) % 2));
    }
    assert(parsed =~= values);
}

/// A vector of 32-bit values is read back from its layout, whatever follows it.
pub proof fn lemma_u32s_read(values: Seq<u32>, tail: Seq<u8>)
    requires
        values.len() <= u64::MAX,
    ensures
        u32s_parse(u32s_layout(values) + tail) == Some(values),
{
    let bytes = u32s_layout(values) + tail;
    let n = values.len() as int;
    assert forall|k: int| 0 <= k < 8 implies #[trigger] bytes[0 + k] == byte_at(n, k) by {
        assert(bytes[k] == le64(n)[k]);
    }
    lemma_le64_read(bytes, 0, n);
    let parsed = Seq::new(n as nat, |i: int| from_le32(bytes, 8 + 4 * i));
    assert forall|i: int| 0 <= i < n implies parsed[i] == values[i] by {
        assert(bytes[8 + 4 * i] == byte_at(values[(4 * i) / 4] as int, (4 * i) % 4));
        assert(bytes[8 + 4 * i + 1] == byte_at(values[(4 * i + 1) / 4] as int, (4 * i + 1) % 4));
        assert(bytes[8 + 4 * i + 2] == byte_at(values[(4 * i + 2) / 4] as int, (4 * i + 2) % 4));
        assert(bytes[8 + 4 * i + 3] == byte_at(values[(4 * i + 3) / 4] as int, (4 * i + 3) % 4));
        lemma_byte_sum32(values[i]);
    }
    assert(parsed =~= values);
}

/// A bit vector whose bit count fits its blocks is read back from its layout,
/// whatever follows it.
pub proof fn lemma_bits_read(blocks: Seq<u8>, count: nat, tail: Seq<u8>)
    requires
        blocks.len() <= u64::MAX,
        count <= 8 * blocks.len(),
        count <= u64::MAX,
    ensures
        bits_parse(bits_layout(blocks, count) + tail) == Some((blocks, count)),
{
    let bytes = bits_layout(blocks, count) + tail;
    let n = blocks.len() as int;
    if n == 0 {
        assert forall|k: int| 0 <= k < 8 implies #[trigger] bytes[1 + k] == byte_at(0, k) by {
            assert(bytes[1 + k] == le64(0)[k]);
        }
        lemma_le64_read(bytes, 1, 0);
        assert(blocks =~= Seq::empty());
    } else {
        assert forall|k: int| 0 <= k < 8 implies #[trigger] bytes[1 + k] == byte_at(n, k) by {
            assert(bytes[1 + k] == le64(n)[k]);
        }
        lemma_le64_read(bytes, 1, n);
        assert forall|k: int| 0 <= k < 8 implies #[trigger] bytes[9 + n + k] == byte_at(
            count as int,
            k,
        ) by {
            assert(bytes[9 + n + k] == le64(count as int)[k]);
        }
        lemma_le64_read(bytes, 9 + n, count as int);
        assert(bytes.subrange(9, 9 + n) =~= blocks);
    }
}

/// Setting a bit above all set bits of a block adds its weight, clearing it
/// changes nothing.
pub proof fn lemma_with_bit(b: u8, k: u8, bit: bool)
    requires
        k < 8,
        b < bit_weight(k as int),
    ensures
        with_bit(b, k, bit) == b + (if bit {
            bit_weight(k as int)
        } else {
            0
        }),
{
    assert(k < 8 ==> (1u8 << k) == (if k == 0 {
        1u8
    } else if k == 1 {
        2u8
    } else if k == 2 {
        4u8
    } else if k == 3 {
        8u8
    } else if k == 4 {
        16u8
    } else if k == 5 {
        32u8
    } else if k == 6 {
        64u8
    } else {
        128u8
    })) by (bit_vector);
    assert(k < 8 && b < (1u8 << k) ==> (b | (1u8 << k)) == b + (1u8 << k) && (b & !(1u8 << k))
        == b) by (bit_vector);
}

/// Bit `k` of a block is set exactly when the block, with the bits below `k`
/// cut off, is odd.
pub proof fn lemma_has_bit(b: u8, k: u8)
    requires
        k < 8,
    ensures
        has_bit(b, k) == ((b as int / bit_weight(k as int)) % 2 == 1),
{
    assert(k < 8 ==> (1u8 << k) == (if k == 0 {
        1u8
    } else if k == 1 {
        2u8
    } else if k == 2 {
        4u8
    } else if k == 3 {
        8u8
    } else if k == 4 {
        16u8
    } else if k == 5 {
        32u8
    } else if k == 6 {
        64u8
    } else {
        128u8
    })) by (bit_vector);
    assert(k < 8 ==> ((b & (1u8 << k) != 0) == ((b / (1u8 << k)) % 2 == 1))) by (bit_vector);
}

/// In a sum of powers of two, each taken or not, the bit of weight 2^k is set
/// exactly when that power was taken.
proof fn lemma_sum_bit(t0: u8, t1: u8, t2: u8, t3: u8, t4: u8, t5: u8, t6: u8, t7: u8)
    by (bit_vector)
    requires
        t0 == 0 || t0 == 1,
        t1 == 0 || t1 == 2,
        t2 == 0 || t2 == 4,
        t3 == 0 || t3 == 8,
        t4 == 0 || t4 == 16,
        t5 == 0 || t5 == 32,
        t6 == 0 || t6 == 64,
        t7 == 0 || t7 == 128,
    ensures
        (((t0 + t1 + t2 + t3 + t4 + t5 + t6 + t7) / 1) % 2 == 1) <==> t0 != 0,
        (((t0 + t1 + t2 + t3 + t4 + t5 + t6 + t7) / 2) % 2 == 1) <==> t1 != 0,
        (((t0 + t1 + t2 + t3 + t4 + t5 + t6 + t7) / 4) % 2 == 1) <==> t2 != 0,
        (((t0 + t1 + t2 + t3 + t4 + t5 + t6 + t7) / 8) % 2 == 1) <==> t3 != 0,
        (((t0 + t1 + t2 + t3 + t4 + t5 + t6 + t7) / 16) % 2 == 1) <==> t4 != 0,
        (((t0 + t1 + t2 + t3 + t4 + t5 + t6 + t7) / 32) % 2 == 1) <==> t5 != 0,
        (((t0 + t1 + t2 + t3 + t4 + t5 + t6 + t7) / 64) % 2 == 1) <==> t6 != 0,
        (((t0 + t1 + t2 + t3 + t4 + t5 + t6 + t7) / 128) % 2 == 1) <==> t7 != 0,
{
}

/// A flag is read back from its bit of its block.
pub proof fn lemma_flag_read(flags: Seq<bool>, i: int)
    requires
        0 <= i < flags.len(),
    ensures
        has_bit(block_of(flags, i / 8), (i % 8) as u8) == flags[i],
{
    let j = i / 8;
    let k = i % 8;
    lemma_has_bit(block_of(flags, j), k as u8);
    let t0 = flag_term(flags, 8 * j) as u8;
    let t1 = flag_term(flags, 8 * j + 1) as u8;
    let t2 = flag_term(flags, 8 * j + 2) as u8;
    let t3 = flag_term(flags, 8 * j + 3) as u8;
    let t4 = flag_term(flags, 8 * j + 4) as u8;
    let t5 = flag_term(flags, 8 * j + 5) as u8;
    let t6 = flag_term(flags, 8 * j + 6) as u8;
    let t7 = flag_term(flags, 8 * j + 7) as u8;
    lemma_sum_bit(t0, t1, t2, t3, t4, t5, t6, t7);
    assert(block_of(flags, j) as int == t0 + t1 + t2 + t3 + t4 + t5 + t6 + t7);
    assert(flag_term(flags, i) != 0 <==> flags[i]);
}

/// Pushing flag `i` changes block `i / 8` alone, by the weight of its bit.
pub proof fn lemma_flag_push(flags: Seq<bool>, i: int, blocks: nat)
    requires
        0 <= i < flags.len(),
        i < 8 * blocks,
    ensures
        blocks_of(flags.take(i + 1), blocks) == blocks_of(flags.take(i), blocks).update(
            i / 8,
            with_bit(blocks_of(flags.take(i), blocks)[i / 8], (i % 8) as u8, flags[i]),
        ),
{
    let before = flags.take(i);
    let after = flags.take(i + 1);
    let j = i / 8;
    let k = i % 8;
    assert forall|x: int| 0 <= x < i implies flag_term(after, x) == flag_term(before, x) by {}
    assert forall|x: int| x > i implies flag_term(after, x) == 0 && flag_term(before, x) == 0 by {}
    assert(flag_term(before, i) == 0);
    assert(flag_term(after, i) == if flags[i] { bit_weight(k) } else { 0 });
    let b = block_of(before, j);
    assert(b < bit_weight(k));
    lemma_with_bit(b, k as u8, flags[i]);
    assert(block_of(after, j) == with_bit(b, k as u8, flags[i]));
    assert forall|x: int| 0 <= x < blocks && x != j implies block_of(after, x) == block_of(
        before,
        x,
    ) by {}
    assert(blocks_of(after, blocks) =~= blocks_of(before, blocks).update(
        j,
        with_bit(b, k as u8, flags[i]),
    ));
}

} // verus!
