//! Frames: a length field of four bytes, then as many bytes as it declares.

use crate::net::buffer::{
    buffered, copy_range, le_bytes, le_value, lemma_le_bytes_of_value, lemma_le_round_trip,
    read_u32_le,
};
use bytes::BytesMut;
use vstd::prelude::*;

verus! {

/// Bytes of the length field that precedes every frame.
pub const HEADER_LEN: usize = 4;

/// Bytes of the type tag at the start of a typed frame.
pub const TYPE_LEN: usize = 4;

/// The largest length that a length field may declare.
pub const MAX_LEN: usize = 8 * 1024 * 1024;

/// Why a frame was refused.
#[derive(Clone, Copy, Debug, PartialEq, Eq, Structural)]
pub enum FrameError {
    /// The frame would be longer than [`MAX_LEN`] allows. `length` is what
    /// the length field declares, where a frame is read, and the number of
    /// bytes that were to be framed, where one is written.
    TooLarge { length: usize },
    /// The declared length leaves no room for the type tag.
    TooShort { length: usize },
    /// The payload of a text frame is not UTF-8.
    InvalidUtf8,
    /// The payload of the frame was looked at and is not what a frame may
    /// carry.
    InvalidPayload,
    /// A frame was to be settled where no whole frame stands at the front of
    /// the buffer.
    NoFrame,
}

/// What the start of a buffer holds, going by its length field alone.
pub enum Scan {
    /// The length field, or the bytes it announces, have not all arrived.
    Incomplete,
    /// The length field declares more than [`MAX_LEN`].
    Oversized { length: int },
    /// The length field and the `body` it announces are there.
    Whole { body: Seq<u8> },
}

/// Reads the front of `buffer` as a length field followed by that many
/// bytes.
pub open spec fn scan(buffer: Seq<u8>) -> Scan {
    if buffer.len() < HEADER_LEN {
        Scan::Incomplete
    } else if le_value(buffer) > MAX_LEN {
        Scan::Oversized { length: le_value(buffer) }
    } else if buffer.len() < HEADER_LEN + le_value(buffer) {
        Scan::Incomplete
    } else {
        Scan::Whole { body: buffer.subrange(HEADER_LEN as int, HEADER_LEN + le_value(buffer)) }
    }
}

/// `body` behind its length field, as it goes on the wire.
pub open spec fn framed(body: Seq<u8>) -> Seq<u8> {
    le_bytes(body.len() as u32) + body
}

/// Looks at the length field at the front of `src` without taking anything
/// out of it: `Ok(Some(n))` when the field and the `n` bytes it announces are
/// all there, `Ok(None)` when more bytes have to arrive first, and the error
/// when the field declares more than [`MAX_LEN`]. Where bytes are missing,
/// room is reserved for them.
pub(crate) fn declared_length(src: &mut BytesMut) -> (result: Result<Option<usize>, FrameError>)
    ensures
        buffered(*final(src)) == buffered(*old(src)),
        match scan(buffered(*old(src))) {
            Scan::Incomplete => result == Ok::<Option<usize>, FrameError>(None),
            Scan::Oversized { length } => {
                &&& result matches Err(FrameError::TooLarge { length: refused })
                &&& refused == length
            },
            Scan::Whole { body } => result matches Ok(Some(announced)) && announced == body.len(),
        },
{
    let available = src.len();
    if available < HEADER_LEN {
        return Ok(None);
    }
    let header = copy_range(src, 0, HEADER_LEN);
    let total = read_u32_le(&header) as usize;
    if total > MAX_LEN {
        return Err(FrameError::TooLarge { length: total });
    }
    if available < HEADER_LEN + total {
        src.reserve(HEADER_LEN + total - available);
        return Ok(None);
    }
    Ok(Some(total))
}

/// A body of at most [`MAX_LEN`] bytes, written behind its length field, is
/// read back as that body, whatever follows it in the buffer.
pub proof fn lemma_frame_round_trip(body: Seq<u8>, rest: Seq<u8>)
    requires
        body.len() <= MAX_LEN,
    ensures
        framed(body).len() == HEADER_LEN + body.len(),
        scan(framed(body) + rest) == (Scan::Whole { body }),
{
    let buffer = framed(body) + rest;
    let length = body.len() as u32;
    lemma_le_round_trip(length);
    assert(le_value(buffer) == le_value(le_bytes(length)));
    assert(buffer.subrange(HEADER_LEN as int, HEADER_LEN + body.len()) =~= body);
}

/// What is read as a body stands in the buffer exactly as the body is
/// written: there is one way to write a body, and reading undoes it.
pub proof fn lemma_frame_is_in_written_form(buffer: Seq<u8>)
    requires
        scan(buffer) is Whole,
    ensures
        buffer.subrange(0, HEADER_LEN + scan(buffer)->body.len()) == framed(
            scan(buffer)->body,
        ),
{
    let body = scan(buffer)->body;
    let header = buffer.subrange(0, HEADER_LEN as int);
    lemma_le_bytes_of_value(header);
    assert(le_value(header) == le_value(buffer));
    assert(buffer.subrange(0, HEADER_LEN + body.len()) =~= framed(body));
}

/// While any byte of a written body is still missing, the buffer reads as
/// incomplete: no part of a frame is handed out early.
pub proof fn lemma_frame_needs_every_byte(body: Seq<u8>, arrived: int)
    requires
        body.len() <= MAX_LEN,
        0 <= arrived < framed(body).len(),
    ensures
        scan(framed(body).subrange(0, arrived)) == Scan::Incomplete,
{
    let buffer = framed(body).subrange(0, arrived);
    let length = body.len() as u32;
    lemma_le_round_trip(length);
    if arrived >= HEADER_LEN {
        assert(le_value(buffer) == le_value(le_bytes(length)));
    }
}

/// A length field that declares more than [`MAX_LEN`] is refused as soon as
/// it has arrived, whatever follows it.
pub proof fn lemma_oversized_is_refused(length: u32, rest: Seq<u8>)
    requires
        length > MAX_LEN,
    ensures
        scan(le_bytes(length) + rest) == (Scan::Oversized { length: length as int }),
{
    lemma_le_round_trip(length);
    assert(le_value(le_bytes(length) + rest) == le_value(le_bytes(length)));
}

/// The bytes that a buffer holds once `pieces` have arrived one after the
/// other, with nothing taken out in between.
pub open spec fn gathered(pieces: Seq<Seq<u8>>) -> Seq<u8>
    decreases pieces.len(),
{
    if pieces.len() == 0 {
        Seq::empty()
    } else {
        gathered(pieces.drop_last()) + pieces.last()
    }
}

/// What has arrived after some of the pieces is the front of what will have
/// arrived after all of them.
pub proof fn lemma_gathered_is_front(pieces: Seq<Seq<u8>>, arrived: int)
    requires
        0 <= arrived <= pieces.len(),
    ensures
        gathered(pieces.take(arrived)).len() <= gathered(pieces).len(),
        gathered(pieces.take(arrived)) == gathered(pieces).subrange(
            0,
            gathered(pieces.take(arrived)).len() as int,
        ),
    decreases pieces.len(),
{
    if arrived == pieces.len() {
        assert(pieces.take(arrived) =~= pieces);
        assert(gathered(pieces) =~= gathered(pieces).subrange(0, gathered(pieces).len() as int));
    } else {
        let earlier = pieces.drop_last();
        lemma_gathered_is_front(earlier, arrived);
        assert(pieces.take(arrived) =~= earlier.take(arrived));
        let front = gathered(earlier.take(arrived));
        assert(front =~= gathered(pieces).subrange(0, front.len() as int));
    }
}

/// A body behind its length field may arrive in any number of pieces of any
/// sizes: as long as a byte is missing the buffer reads as incomplete, and
/// with the last piece it reads as the body that was written.
pub proof fn lemma_frame_in_pieces(body: Seq<u8>, pieces: Seq<Seq<u8>>, arrived: int)
    requires
        body.len() <= MAX_LEN,
        gathered(pieces) == framed(body),
        0 <= arrived <= pieces.len(),
    ensures
        gathered(pieces.take(arrived)).len() <= framed(body).len(),
        gathered(pieces.take(arrived)) == framed(body).subrange(
            0,
            gathered(pieces.take(arrived)).len() as int,
        ),
        scan(gathered(pieces.take(arrived))) == if gathered(pieces.take(arrived)).len()
            < framed(body).len() {
            Scan::Incomplete
        } else {
            Scan::Whole { body }
        },
{
    lemma_gathered_is_front(pieces, arrived);
    let front = gathered(pieces.take(arrived));
    if front.len() < framed(body).len() {
        lemma_frame_needs_every_byte(body, front.len() as int);
    } else {
        lemma_frame_round_trip(body, Seq::empty());
        assert(front =~= framed(body) + Seq::<u8>::empty());
    }
}

} // verus!
