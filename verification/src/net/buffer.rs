//! The byte buffer that frames are read from and written to, and numbers in
//! little-endian order.

use bytes::{Buf, BufMut, BytesMut};
use vstd::prelude::*;

verus! {

/// `bytes::BytesMut`, the growable byte buffer that frames are read from and
/// written to. Nothing inside it is visible to the verifier.
#[verifier::external_type_specification]
#[verifier::external_body]
pub struct ExBytesMut(bytes::BytesMut);

/// The bytes that a buffer holds, first to last.
pub uninterp spec fn buffered(buffer: BytesMut) -> Seq<u8>;

/// The four bytes of `value`, least significant first.
pub open spec fn le_bytes(value: u32) -> Seq<u8> {
    seq![
        (value % 256) as u8,
        ((value / 256) % 256) as u8,
        ((value / 65536) % 256) as u8,
        (value / 16777216) as u8,
    ]
}

/// The number that the first four bytes of `bytes` spell, least significant
/// byte first.
pub open spec fn le_value(bytes: Seq<u8>) -> int
    recommends
        bytes.len() >= 4,
{
    bytes[0] + 256 * bytes[1] + 65536 * bytes[2] + 16777216 * bytes[3]
}

/// `BytesMut::len`: the number of bytes that the buffer holds.
pub assume_specification[ BytesMut::len ](buffer: &BytesMut) -> (n: usize)
    ensures
        n == buffered(*buffer).len(),
;

/// `BytesMut::reserve`: makes room for `additional` more bytes and leaves the
/// bytes held as they are. The call panics when the capacity asked for
/// overflows; the bound keeps the sum within `isize::MAX`, the most that a
/// buffer can hold. Nothing is said of a machine that has no memory left.
pub assume_specification[ BytesMut::reserve ](buffer: &mut BytesMut, additional: usize)
    requires
        buffered(*old(buffer)).len() + additional <= isize::MAX,
    ensures
        buffered(*final(buffer)) == buffered(*old(buffer)),
;

/// `BytesMut::extend_from_slice`: appends the bytes of `extend`, after
/// reserving room for them as `BytesMut::reserve` does, whose bound it
/// shares.
pub assume_specification[ BytesMut::extend_from_slice ](buffer: &mut BytesMut, extend: &[u8])
    requires
        buffered(*old(buffer)).len() + extend@.len() <= isize::MAX,
    ensures
        buffered(*final(buffer)) == buffered(*old(buffer)) + extend@,
;

/// Indexing a `BytesMut` by a range, through its `Deref` to a slice, and
/// copying what the range covers: the bytes from `start` up to `end`.
/// Indexing panics on a range that does not lie inside the buffer.
#[verifier::external_body]
pub(crate) fn copy_range(buffer: &BytesMut, start: usize, end: usize) -> (bytes: Vec<u8>)
    requires
        start <= end <= buffered(*buffer).len(),
    ensures
        bytes@ == buffered(*buffer).subrange(start as int, end as int),
{
    buffer[start..end].to_vec()
}

/// `Buf::advance` on a `BytesMut`: drops the first `count` bytes. It panics
/// when asked to drop more than the buffer holds.
#[verifier::external_body]
pub(crate) fn advance(buffer: &mut BytesMut, count: usize)
    requires
        count <= buffered(*old(buffer)).len(),
    ensures
        buffered(*final(buffer)) == buffered(*old(buffer)).skip(count as int),
{
    buffer.advance(count)
}

/// `BufMut::put_u32_le` on a `BytesMut`: appends `value` as four bytes, least
/// significant first, by way of `BytesMut::extend_from_slice`. It panics when
/// the buffer cannot take four more.
#[verifier::external_body]
pub(crate) fn put_u32_le(buffer: &mut BytesMut, value: u32)
    requires
        buffered(*old(buffer)).len() + 4 <= isize::MAX,
    ensures
        buffered(*final(buffer)) == buffered(*old(buffer)) + le_bytes(value),
{
    buffer.put_u32_le(value)
}

/// Reads the number that the first four bytes of `bytes` spell.
pub(crate) fn read_u32_le(bytes: &Vec<u8>) -> (value: u32)
    requires
        bytes@.len() >= 4,
    ensures
        value == le_value(bytes@),
{
    let b0: u32 = bytes[0] as u32;
    let b1: u32 = bytes[1] as u32;
    let b2: u32 = bytes[2] as u32;
    let b3: u32 = bytes[3] as u32;
    b0 + b1 * 256 + b2 * 65536 + b3 * 16777216
}

/// The value of four bytes is below 2^32, and writing a number out and
/// reading it back gives the number again.
pub proof fn lemma_le_round_trip(value: u32)
    ensures
        le_bytes(value).len() == 4,
        le_value(le_bytes(value)) == value,
{
}

/// Reading four bytes and writing the number out gives the bytes again.
pub proof fn lemma_le_bytes_of_value(bytes: Seq<u8>)
    requires
        bytes.len() == 4,
    ensures
        0 <= le_value(bytes) <= u32::MAX,
        le_bytes(le_value(bytes) as u32) == bytes,
{
    let b0 = bytes[0] as int;
    let b1 = bytes[1] as int;
    let b2 = bytes[2] as int;
    let b3 = bytes[3] as int;
    let high1 = b1 + 256 * b2 + 65536 * b3;
    let high2 = b2 + 256 * b3;
    let value = le_value(bytes);
    assert(value == 256 * high1 + b0);
    assert(value % 256 == b0 && value / 256 == high1);
    assert(high1 == 256 * high2 + b1);
    assert(high1 % 256 == b1 && high1 / 256 == high2);
    assert(value / 65536 == high2) by {
        assert(value == 65536 * high2 + (256 * b1 + b0));
    }
    assert(high2 % 256 == b2 && high2 / 256 == b3);
    assert(value / 16777216 == b3) by {
        assert(value == 16777216 * b3 + (65536 * b2 + 256 * b1 + b0));
    }
    assert(le_bytes(value as u32) =~= bytes);
}

} // verus!
