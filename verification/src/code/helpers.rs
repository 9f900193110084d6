//! Readers for the operands of an instruction.
use byteorder::{BigEndian, ByteOrder};
use vstd::prelude::*;

verus! {

/// The number that two bytes stand for, most significant byte first.
pub open spec fn be_u16(hi: u8, lo: u8) -> int {
    hi as int * 256 + lo as int
}

/// `byteorder::BigEndian::read_u16`: the first two bytes of `buf` read as a
/// big-endian number. The outside function panics on a shorter buffer, which
/// the precondition excludes.
#[verifier::external_body]
fn big_endian_read_u16(buf: &[u8]) -> (n: u16)
    requires
        buf@.len() >= 2,
    ensures
        n as int == be_u16(buf@[0], buf@[1]),
{
    BigEndian::read_u16(buf)
}

/// `byteorder::BigEndian::write_u16` applied to a two-byte buffer: the bytes
/// of `n`, most significant first.
#[verifier::external_body]
pub(crate) fn big_endian_bytes(n: u16) -> (bytes: (u8, u8))
    ensures
        bytes.0 as int == n as int / 256,
        bytes.1 as int == n as int % 256,
{
    let mut buf = [0u8; 2];
    BigEndian::write_u16(&mut buf, n);
    (buf[0], buf[1])
}

/// Reads an unsigned 8 bit value from the front of the buffer.
pub fn read_u8(buf: &[u8]) -> (n: usize)
    requires
        buf@.len() >= 1,
    ensures
        n == buf@[0],
{
    buf[0] as usize
}

/// Reads an unsigned big-endian 16 bit value from the front of the buffer.
pub fn read_u16(buf: &[u8]) -> (n: usize)
    requires
        buf@.len() >= 2,
    ensures
        n as int == be_u16(buf@[0], buf@[1]),
{
    big_endian_read_u16(buf) as usize
}

} // verus!
