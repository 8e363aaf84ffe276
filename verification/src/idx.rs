//! Big-endian header fields of the IDX file format.

use vstd::prelude::*;

verus! {

/// The unsigned 32-bit number that the four bytes of `bytes` from `offset` on
/// spell, most significant byte first.
pub open spec fn be_u32(bytes: Seq<u8>, offset: int) -> int {
    bytes[offset] * 0x100_0000 + bytes[offset + 1] * 0x1_0000 + bytes[offset + 2] * 0x100
        + bytes[offset + 3]
}

/// The four bytes that spell `value`, most significant byte first.
pub open spec fn be_bytes(value: u32) -> Seq<u8> {
    seq![
        (value / 0x100_0000) as u8,
        (value / 0x1_0000 % 0x100) as u8,
        (value / 0x100 % 0x100) as u8,
        (value % 0x100) as u8,
    ]
}

/// A field whose four bytes spell `value` reads as `value`, wherever it lies.
pub proof fn lemma_be_u32_of_be_bytes(bytes: Seq<u8>, offset: int, value: u32)
    requires
        0 <= offset,
        offset + 4 <= bytes.len(),
        bytes.subrange(offset, offset + 4) == be_bytes(value),
    ensures
        be_u32(bytes, offset) == value,
{
    let field = bytes.subrange(offset, offset + 4);
    assert(bytes[offset] == field[0]);
    assert(bytes[offset + 1] == field[1]);
    assert(bytes[offset + 2] == field[2]);
    assert(bytes[offset + 3] == field[3]);
}

/// Reads the big-endian 32-bit field at `offset`.
pub fn read_be_u32(data: &Vec<u8>, offset: usize) -> (value: u32)
    requires
        offset + 4 <= data.len(),
    ensures
        value == be_u32(data@, offset as int),
{
    let b0: u32 = data[offset] as u32;
    let b1: u32 = data[offset + 1] as u32;
    let b2: u32 = data[offset + 2] as u32;
    let b3: u32 = data[offset + 3] as u32;
    b0 * 0x100_0000 + b1 * 0x1_0000 + b2 * 0x100 + b3
}

} // verus!
