//! The checksum record: the confirmed length of a segment's data stream,
//! stored as an 8-byte big-endian unsigned integer.

use byteorder::{BigEndian, ByteOrder};
use vstd::prelude::*;

verus! {

/// Number of bytes in a checksum record.
pub const RECORD_LEN: usize = 8;

/// The 8 big-endian bytes of `n`, most significant first.
pub open spec fn be_bytes(n: u64) -> Seq<u8> {
    seq![
        (n >> 56u64) as u8,
        (n >> 48u64) as u8,
        (n >> 40u64) as u8,
        (n >> 32u64) as u8,
        (n >> 24u64) as u8,
        (n >> 16u64) as u8,
        (n >> 8u64) as u8,
        n as u8,
    ]
}

/// The unsigned integer whose big-endian bytes are the first eight of `s`.
pub open spec fn be_value(s: Seq<u8>) -> u64
    recommends
        s.len() >= 8,
{
    (s[0] as u64) << 56u64 | (s[1] as u64) << 48u64 | (s[2] as u64) << 40u64 | (s[3] as u64)
        << 32u64 | (s[4] as u64) << 24u64 | (s[5] as u64) << 16u64 | (s[6] as u64) << 8u64 | (
    s[7] as u64)
}

/// Decoding the encoding of a length gives that length back.
pub proof fn lemma_be_round_trip(n: u64)
    ensures
        be_bytes(n).len() == 8,
        be_value(be_bytes(n)) == n,
{
    let s = be_bytes(n);
    assert(s[0] == (n >> 56u64) as u8);
    assert(s[7] == n as u8);
    assert(((((n >> 56u64) as u8) as u64) << 56u64 | (((n >> 48u64) as u8) as u64) << 48u64 | (((n
        >> 40u64) as u8) as u64) << 40u64 | (((n >> 32u64) as u8) as u64) << 32u64 | (((n
        >> 24u64) as u8) as u64) << 24u64 | (((n >> 16u64) as u8) as u64) << 16u64 | (((n
        >> 8u64) as u8) as u64) << 8u64 | ((n as u8) as u64)) == n) by (bit_vector);
}

/// Relies on byteorder's `BigEndian::write_u64`, which stores `n.to_be_bytes()`
/// in the first eight bytes of the buffer.
#[verifier::external_body]
fn write_be_u64(n: u64) -> (r: Vec<u8>)
    ensures
        r@ == be_bytes(n),
{
    let mut buf = [0u8; 8];
    BigEndian::write_u64(&mut buf, n);
    buf.to_vec()
}

/// Relies on byteorder's `BigEndian::read_u64`, which reads the first eight
/// bytes as a big-endian integer and panics on a shorter buffer.
#[verifier::external_body]
fn read_be_u64(b: &[u8]) -> (r: u64)
    requires
        b@.len() >= 8,
    ensures
        r == be_value(b@),
{
    BigEndian::read_u64(b)
}

/// The checksum record that confirms a data stream of `len` bytes.
pub fn encode_record(len: u64) -> (r: Vec<u8>)
    ensures
        r@ == be_bytes(len),
        r@.len() == RECORD_LEN,
{
    write_be_u64(len)
}

/// The length that a checksum record holds, or `None` where the record is not
/// exactly eight bytes long.
pub open spec fn record_value(record: Seq<u8>) -> Option<u64> {
    if record.len() == RECORD_LEN {
        Some(be_value(record))
    } else {
        None
    }
}

/// Reads the length out of a checksum record; `None` where the record is not
/// a well-formed 8-byte integer.
pub fn decode_record(record: &[u8]) -> (r: Option<u64>)
    ensures
        r == record_value(record@),
{
    if record.len() == RECORD_LEN {
        Some(read_be_u64(record))
    } else {
        None
    }
}

} // verus!
