//! Big-endian integers read from the front of byte slices.

use vstd::prelude::*;
use byteorder::{BigEndian, ReadBytesExt};

verus! {

/// The unsigned big-endian integer that the four bytes of `d` from `i` on encode.
pub open spec fn be_u32_at(d: Seq<u8>, i: int) -> int {
    d[i] * 0x100_0000 + d[i + 1] * 0x1_0000 + d[i + 2] * 0x100 + d[i + 3]
}

/// The unsigned big-endian integer that the two bytes of `d` from `i` on encode.
pub open spec fn be_u16_at(d: Seq<u8>, i: int) -> int {
    d[i] * 0x100 + d[i + 1]
}

/// Calls `ReadBytesExt::read_u32::<BigEndian>` of the `byteorder` crate on `bytes` as a reader:
/// it succeeds exactly when at least four bytes are there, and then gives the big-endian value
/// of the first four; otherwise it hands back the `UnexpectedEof` error of `read_exact`.
#[verifier::external_body]
pub(crate) fn read_u32_be(bytes: &[u8]) -> (r: Result<u32, std::io::Error>)
    ensures
        r is Ok <==> bytes@.len() >= 4,
        r matches Ok(v) ==> v as int == be_u32_at(bytes@, 0),
{
    let mut reader = bytes;
    reader.read_u32::<BigEndian>()
}

/// Calls `ReadBytesExt::read_u16::<BigEndian>` of the `byteorder` crate on `bytes` as a reader:
/// it succeeds exactly when at least two bytes are there, and then gives the big-endian value
/// of the first two; otherwise it hands back the `UnexpectedEof` error of `read_exact`.
#[verifier::external_body]
pub(crate) fn read_u16_be(bytes: &[u8]) -> (r: Result<u16, std::io::Error>)
    ensures
        r is Ok <==> bytes@.len() >= 2,
        r matches Ok(v) ==> v as int == be_u16_at(bytes@, 0),
{
    let mut reader = bytes;
    reader.read_u16::<BigEndian>()
}

} // verus!
