//! Little-endian encoding of 64-bit integers.

use vstd::prelude::*;

verus! {

/// Byte `i` of the little-endian encoding of `x`.
pub open spec fn le_byte(x: u64, i: int) -> u8 {
    ((x >> ((8 * i) as u64)) & 0xff) as u8
}

/// The eight bytes of `x`, least significant first.
pub open spec fn u64_le_bytes(x: u64) -> Seq<u8> {
    Seq::new(8, |i: int| le_byte(x, i))
}

/// The integer whose little-endian encoding starts with the eight bytes `b`.
pub open spec fn le_u64_value(b: Seq<u8>) -> int {
    b[0] + 0x100 * b[1] + 0x1_0000 * b[2] + 0x100_0000 * b[3] + 0x1_0000_0000 * b[4]
        + 0x100_0000_0000 * b[5] + 0x1_0000_0000_0000 * b[6] + 0x100_0000_0000_0000 * b[7]
}

/// Encodes `x` in eight little-endian bytes.
pub fn u64_to_le_bytes(x: u64) -> (bytes: Vec<u8>)
    ensures
        bytes@ == u64_le_bytes(x),
{
    let mut bytes: Vec<u8> = Vec::new();
    let mut i: u64 = 0;
    while i < 8
        invariant
            i <= 8,
            bytes@.len() == i,
            forall|j: int| 0 <= j < i ==> bytes@[j] == le_byte(x, j),
        decreases 8 - i,
    {
        let byte: u8 = ((x >> (8 * i)) & 0xff) as u8;
        bytes.push(byte);
        i += 1;
    }
    assert(bytes@ =~= u64_le_bytes(x));
    bytes
}

/// Reads the first eight bytes of `b` as a little-endian integer.
pub fn u64_from_le_prefix(b: &[u8]) -> (x: u64)
    requires
        b@.len() >= 8,
    ensures
        x == le_u64_value(b@),
{
    let b0 = b[0] as u64;
    let b1 = b[1] as u64;
    let b2 = b[2] as u64;
    let b3 = b[3] as u64;
    let b4 = b[4] as u64;
    let b5 = b[5] as u64;
    let b6 = b[6] as u64;
    let b7 = b[7] as u64;
    assert(b0 < 256 && b1 < 256 && b2 < 256 && b3 < 256 && b4 < 256 && b5 < 256 && b6 < 256 && b7
        < 256);
    let x = b0 | b1 << 8u64 | b2 << 16u64 | b3 << 24u64 | b4 << 32u64 | b5 << 40u64 | b6 << 48u64
        | b7 << 56u64;
    assert(x == b0 + 0x100 * b1 + 0x1_0000 * b2 + 0x100_0000 * b3 + 0x1_0000_0000 * b4
        + 0x100_0000_0000 * b5 + 0x1_0000_0000_0000 * b6 + 0x100_0000_0000_0000 * b7) by (bit_vector)
        requires
            b0 < 256 && b1 < 256 && b2 < 256 && b3 < 256 && b4 < 256 && b5 < 256 && b6 < 256 && b7
                < 256,
            x == b0 | b1 << 8u64 | b2 << 16u64 | b3 << 24u64 | b4 << 32u64 | b5 << 40u64 | b6
                << 48u64 | b7 << 56u64,
    ;
    x
}

/// Reading back the little-endian encoding of `x` gives `x`.
pub proof fn lemma_le_round_trip(x: u64)
    ensures
        le_u64_value(u64_le_bytes(x)) == x,
{
    let b = u64_le_bytes(x);
    assert(b[0] == le_byte(x, 0) && b[1] == le_byte(x, 1) && b[2] == le_byte(x, 2) && b[3]
        == le_byte(x, 3) && b[4] == le_byte(x, 4) && b[5] == le_byte(x, 5) && b[6] == le_byte(x, 6)
        && b[7] == le_byte(x, 7));
    assert(x == ((x >> 0u64) & 0xff) as u8 + 0x100 * ((x >> 8u64) & 0xff) as u8 + 0x1_0000 * ((x
        >> 16u64) & 0xff) as u8 + 0x100_0000 * ((x >> 24u64) & 0xff) as u8 + 0x1_0000_0000 * ((x
        >> 32u64) & 0xff) as u8 + 0x100_0000_0000 * ((x >> 40u64) & 0xff) as u8
        + 0x1_0000_0000_0000 * ((x >> 48u64) & 0xff) as u8 + 0x100_0000_0000_0000 * ((x >> 56u64)
        & 0xff) as u8) by (bit_vector);
}

} // verus!
