//! Unsigned numbers in either byte order.

use vstd::prelude::*;

verus! {

/// The number that `bytes` encode, least significant byte first.
pub open spec fn le_value(bytes: Seq<u8>) -> nat
    decreases bytes.len(),
{
    if bytes.len() == 0 {
        0
    } else {
        bytes[0] as nat + 256 * le_value(bytes.drop_first())
    }
}

/// The number that `bytes` encode in the given byte order.
pub open spec fn value(bytes: Seq<u8>, little_endian: bool) -> nat {
    if little_endian {
        le_value(bytes)
    } else {
        le_value(bytes.reverse())
    }
}

/// The number in the `width` bytes of `data` from `at` on.
pub open spec fn value_at(data: Seq<u8>, at: int, width: int, little_endian: bool) -> nat {
    value(data.subrange(at, at + width), little_endian)
}

/// The first byte carries the units and the others the rest.
proof fn lemma_le_value_step(bytes: Seq<u8>, i: int)
    requires
        0 <= i < bytes.len(),
    ensures
        le_value(bytes.skip(i)) == bytes[i] as nat + 256 * le_value(bytes.skip(i + 1)),
{
    assert(bytes.skip(i).drop_first() =~= bytes.skip(i + 1));
}

proof fn lemma_le_value_4(b: Seq<u8>)
    requires
        b.len() == 4,
    ensures
        le_value(b) == b[0] + 256 * (b[1] + 256 * (b[2] + 256 * b[3])),
{
    assert(b.skip(0) =~= b);
    lemma_le_value_step(b, 0);
    lemma_le_value_step(b, 1);
    lemma_le_value_step(b, 2);
    lemma_le_value_step(b, 3);
}

proof fn lemma_le_value_8(b: Seq<u8>)
    requires
        b.len() == 8,
    ensures
        le_value(b) == b[0] + 256 * (b[1] + 256 * (b[2] + 256 * (b[3] + 256 * (b[4] + 256 * (b[5]
            + 256 * (b[6] + 256 * b[7])))))),
{
    assert(b.skip(0) =~= b);
    lemma_le_value_step(b, 0);
    lemma_le_value_step(b, 1);
    lemma_le_value_step(b, 2);
    lemma_le_value_step(b, 3);
    lemma_le_value_step(b, 4);
    lemma_le_value_step(b, 5);
    lemma_le_value_step(b, 6);
    lemma_le_value_step(b, 7);
}

fn join_u32(b0: u8, b1: u8, b2: u8, b3: u8) -> (r: u32)
    ensures
        r == b0 + 256 * (b1 + 256 * (b2 + 256 * b3)),
{
    b0 as u32 + 256 * (b1 as u32 + 256 * (b2 as u32 + 256 * (b3 as u32)))
}

/// Reads four bytes of `data` from `at` on.
pub fn read_u32(data: &[u8], at: usize, little_endian: bool) -> (r: u32)
    requires
        at + 4 <= data.len(),
    ensures
        r == value_at(data@, at as int, 4, little_endian),
{
    let ghost b = data@.subrange(at as int, at + 4);
    proof {
        lemma_le_value_4(b);
        lemma_le_value_4(b.reverse());
    }
    if little_endian {
        join_u32(data[at], data[at + 1], data[at + 2], data[at + 3])
    } else {
        join_u32(data[at + 3], data[at + 2], data[at + 1], data[at])
    }
}

/// Reads eight bytes of `data` from `at` on.
pub fn read_u64(data: &[u8], at: usize, little_endian: bool) -> (r: u64)
    requires
        at + 8 <= data.len(),
    ensures
        r == value_at(data@, at as int, 8, little_endian),
{
    let ghost b = data@.subrange(at as int, at + 8);
    proof {
        lemma_le_value_8(b);
        lemma_le_value_8(b.reverse());
    }
    if little_endian {
        let low = join_u32(data[at], data[at + 1], data[at + 2], data[at + 3]);
        let high = join_u32(data[at + 4], data[at + 5], data[at + 6], data[at + 7]);
        low as u64 + 0x1_0000_0000 * (high as u64)
    } else {
        let low = join_u32(data[at + 7], data[at + 6], data[at + 5], data[at + 4]);
        let high = join_u32(data[at + 3], data[at + 2], data[at + 1], data[at]);
        low as u64 + 0x1_0000_0000 * (high as u64)
    }
}

/// Four bytes stand for the sum of their values, each with the weight of its place.
pub proof fn law_value_of_four_bytes(data: Seq<u8>, at: int)
    requires
        0 <= at,
        at + 4 <= data.len(),
    ensures
        value_at(data, at, 4, true) == data[at] + 0x100 * data[at + 1] + 0x1_0000 * data[at + 2]
            + 0x100_0000 * data[at + 3],
        value_at(data, at, 4, false) == 0x100_0000 * data[at] + 0x1_0000 * data[at + 1] + 0x100
            * data[at + 2] + data[at + 3],
{
    let b = data.subrange(at, at + 4);
    lemma_le_value_4(b);
    lemma_le_value_4(b.reverse());
}

/// Eight bytes stand for what their halves stand for, the more significant half with the greater
/// weight.
pub proof fn law_value_of_eight_bytes(data: Seq<u8>, at: int)
    requires
        0 <= at,
        at + 8 <= data.len(),
    ensures
        value_at(data, at, 8, true) == value_at(data, at, 4, true) + 0x1_0000_0000 * value_at(
            data,
            at + 4,
            4,
            true,
        ),
        value_at(data, at, 8, false) == 0x1_0000_0000 * value_at(data, at, 4, false) + value_at(
            data,
            at + 4,
            4,
            false,
        ),
{
    let b = data.subrange(at, at + 8);
    lemma_le_value_8(b);
    lemma_le_value_8(b.reverse());
    law_value_of_four_bytes(data, at);
    law_value_of_four_bytes(data, at + 4);
}

} // verus!
