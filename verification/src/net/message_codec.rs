//! Typed text frames: a length field, a type tag, and text in UTF-8.

use crate::net::buffer::{
    advance, buffered, copy_range, le_bytes, le_value, lemma_le_bytes_of_value,
    lemma_le_round_trip, put_u32_le, read_u32_le,
};
use crate::net::frame::{
    declared_length, framed, gathered, lemma_frame_in_pieces, lemma_frame_is_in_written_form,
    lemma_frame_needs_every_byte, lemma_frame_round_trip, scan, FrameError, Scan, HEADER_LEN,
    MAX_LEN, TYPE_LEN,
};
use bytes::BytesMut;
use vstd::prelude::*;
use vstd::utf8::{
    decode_utf8, decode_utf8_encode_utf8, encode_utf8, encode_utf8_decode_utf8,
    encode_utf8_valid_utf8, valid_utf8,
};

verus! {

/// Reads typed text frames from a buffer.
pub struct MessageDecoder {}

/// Writes typed text frames to a buffer.
pub struct MessageEncoder {}

/// What the start of a buffer holds, read as a typed text frame.
pub enum TextScan {
    /// The frame has not arrived in full.
    Incomplete,
    /// The length field declares more than [`MAX_LEN`].
    Oversized { length: int },
    /// The length field declares less than the type tag takes.
    Undersized { length: int },
    /// The payload is not UTF-8.
    Malformed,
    /// A whole frame: its tag, its text, and the bytes it takes up.
    Frame { tag: int, text: Seq<char>, consumed: int },
}

/// Reads the front of `buffer` as a length field, a type tag and a payload
/// of UTF-8 text.
pub open spec fn scan_text(buffer: Seq<u8>) -> TextScan {
    match scan(buffer) {
        Scan::Incomplete => TextScan::Incomplete,
        Scan::Oversized { length } => TextScan::Oversized { length },
        Scan::Whole { body } => if body.len() < TYPE_LEN {
            TextScan::Undersized { length: body.len() as int }
        } else if !valid_utf8(body.skip(TYPE_LEN as int)) {
            TextScan::Malformed
        } else {
            TextScan::Frame {
                tag: le_value(body),
                text: decode_utf8(body.skip(TYPE_LEN as int)),
                consumed: HEADER_LEN + body.len(),
            }
        },
    }
}

/// What the length field of a text frame counts: the tag, then the text in
/// UTF-8.
pub open spec fn text_body(tag: u32, text: Seq<char>) -> Seq<u8> {
    le_bytes(tag) + encode_utf8(text)
}

/// The bytes of the frame that carries `text` under `tag`.
pub open spec fn text_frame(tag: u32, text: Seq<char>) -> Seq<u8> {
    framed(text_body(tag, text))
}

/// `String::from_utf8`: the string that `bytes` spell in UTF-8, and `None`
/// exactly when they do not spell one.
#[verifier::external_body]
fn text_from_utf8(bytes: Vec<u8>) -> (text: Option<String>)
    ensures
        text is Some <==> valid_utf8(bytes@),
        text is Some ==> text.unwrap()@ == decode_utf8(bytes@),
{
    String::from_utf8(bytes).ok()
}

impl MessageDecoder {
    /// Takes one frame from the front of `src`, if a whole one is there.
    ///
    /// `Ok(None)` asks for more bytes. An error leaves `src` as it was, as
    /// does `Ok(None)`: bytes leave the buffer only together with the frame
    /// they make up.
    pub fn decode(&mut self, src: &mut BytesMut) -> (result: Result<
        Option<(usize, String)>,
        FrameError,
    >)
        ensures
            match scan_text(buffered(*old(src))) {
                TextScan::Incomplete => result == Ok::<Option<(usize, String)>, FrameError>(None)
                    && buffered(*final(src)) == buffered(*old(src)),
                TextScan::Oversized { length } => {
                    &&& result matches Err(FrameError::TooLarge { length: refused })
                    &&& refused == length
                    &&& buffered(*final(src)) == buffered(*old(src))
                },
                TextScan::Undersized { length } => {
                    &&& result matches Err(FrameError::TooShort { length: refused })
                    &&& refused == length
                    &&& buffered(*final(src)) == buffered(*old(src))
                },
                TextScan::Malformed => result == Err::<Option<(usize, String)>, FrameError>(
                    FrameError::InvalidUtf8,
                ) && buffered(*final(src)) == buffered(*old(src)),
                TextScan::Frame { tag, text, consumed } => {
                    &&& result matches Ok(Some(frame))
                    &&& frame.0 == tag
                    &&& frame.1@ == text
                    &&& buffered(*final(src)) == buffered(*old(src)).skip(consumed)
                },
            },
    {
        let total = match declared_length(src) {
            Err(error) => {
                return Err(error);
            },
            Ok(None) => {
                return Ok(None);
            },
            Ok(Some(total)) => total,
        };
        if total < TYPE_LEN {
            return Err(FrameError::TooShort { length: total });
        }
        let body_start = HEADER_LEN + TYPE_LEN;
        let body_end = HEADER_LEN + total;
        let type_bytes = copy_range(src, HEADER_LEN, body_start);
        let message_type = read_u32_le(&type_bytes) as usize;
        let data = copy_range(src, body_start, body_end);
        proof {
            let body = buffered(*src).subrange(HEADER_LEN as int, body_end as int);
            assert(data@ =~= body.skip(TYPE_LEN as int));
            assert(le_value(type_bytes@) == le_value(body));
        }
        match text_from_utf8(data) {
            None => Err(FrameError::InvalidUtf8),
            Some(message) => {
                advance(src, body_end);
                Ok(Some((message_type, message)))
            },
        }
    }
}

impl MessageEncoder {
    /// Appends to `dst` the frame that carries the text `item.1` under the
    /// tag `item.0`, of which the low 32 bits are written.
    ///
    /// A text that, with its tag, takes more than [`MAX_LEN`] bytes is
    /// refused with the number of its bytes, and `dst` is then left as it
    /// was. The buffer has to have room for the frame.
    pub fn encode(&mut self, item: (usize, String), dst: &mut BytesMut) -> (result: Result<
        (),
        FrameError,
    >)
        requires
            TYPE_LEN + encode_utf8(item.1@).len() <= MAX_LEN ==> buffered(*old(dst)).len()
                + HEADER_LEN + TYPE_LEN + encode_utf8(item.1@).len() <= isize::MAX,
        ensures
            TYPE_LEN + encode_utf8(item.1@).len() > MAX_LEN ==> {
                &&& result matches Err(FrameError::TooLarge { length })
                &&& length == encode_utf8(item.1@).len()
                &&& buffered(*final(dst)) == buffered(*old(dst))
            },
            TYPE_LEN + encode_utf8(item.1@).len() <= MAX_LEN ==> {
                &&& result == Ok::<(), FrameError>(())
                &&& buffered(*final(dst)) == buffered(*old(dst)) + text_frame(
                    item.0 as u32,
                    item.1@,
                )
            },
    {
        let (message_type, message) = item;
        let payload = message.as_str().as_bytes();
        let msg_len = payload.len();
        if msg_len > MAX_LEN - TYPE_LEN {
            return Err(FrameError::TooLarge { length: msg_len });
        }
        let total_length = TYPE_LEN + msg_len;
        put_u32_le(dst, total_length as u32);
        put_u32_le(dst, #[verifier::truncate] (message_type as u32));
        dst.extend_from_slice(payload);
        proof {
            assert(buffered(*dst) =~= buffered(*old(dst)) + text_frame(
                message_type as u32,
                message@,
            ));
        }
        Ok(())
    }
}

/// A text whose frame stays within [`MAX_LEN`], written under a tag of 32
/// bits, is read back as that tag and that text, and the frame is all that
/// is taken from the buffer.
pub proof fn lemma_text_frame_round_trip(tag: u32, text: Seq<char>, rest: Seq<u8>)
    requires
        TYPE_LEN + encode_utf8(text).len() <= MAX_LEN,
    ensures
        scan_text(text_frame(tag, text) + rest) == (TextScan::Frame {
            tag: tag as int,
            text,
            consumed: text_frame(tag, text).len() as int,
        }),
{
    let body = text_body(tag, text);
    lemma_frame_round_trip(body, rest);
    lemma_le_round_trip(tag);
    encode_utf8_valid_utf8(text);
    encode_utf8_decode_utf8(text);
    assert(body.skip(TYPE_LEN as int) =~= encode_utf8(text));
    assert(le_value(body) == le_value(le_bytes(tag)));
}

/// What is read as a frame stands in the buffer exactly as the frame is
/// written.
pub proof fn lemma_text_frame_is_in_written_form(buffer: Seq<u8>)
    requires
        scan_text(buffer) is Frame,
    ensures
        0 <= scan_text(buffer)->tag <= u32::MAX,
        buffer.subrange(0, scan_text(buffer)->consumed) == text_frame(
            scan_text(buffer)->tag as u32,
            scan_text(buffer)->text,
        ),
{
    let body = scan(buffer)->body;
    lemma_frame_is_in_written_form(buffer);
    lemma_le_bytes_of_value(body.subrange(0, TYPE_LEN as int));
    assert(le_value(body.subrange(0, TYPE_LEN as int)) == le_value(body));
    decode_utf8_encode_utf8(body.skip(TYPE_LEN as int));
    assert(body =~= text_body(scan_text(buffer)->tag as u32, scan_text(buffer)->text));
}

/// However the bytes of a frame are split on their way, the buffer reads as
/// incomplete until the last of them is there.
pub proof fn lemma_text_frame_needs_every_byte(tag: u32, text: Seq<char>, arrived: int)
    requires
        TYPE_LEN + encode_utf8(text).len() <= MAX_LEN,
        0 <= arrived < text_frame(tag, text).len(),
    ensures
        scan_text(text_frame(tag, text).subrange(0, arrived)) == TextScan::Incomplete,
{
    lemma_frame_needs_every_byte(text_body(tag, text), arrived);
}

/// A frame may arrive in any number of pieces of any sizes: as long as a
/// byte is missing the buffer reads as incomplete, and with the last piece
/// it reads as the frame that was written.
pub proof fn lemma_text_frame_in_pieces(
    tag: u32,
    text: Seq<char>,
    pieces: Seq<Seq<u8>>,
    arrived: int,
)
    requires
        TYPE_LEN + encode_utf8(text).len() <= MAX_LEN,
        gathered(pieces) == text_frame(tag, text),
        0 <= arrived <= pieces.len(),
    ensures
        scan_text(gathered(pieces.take(arrived))) == if gathered(pieces.take(arrived)).len()
            < text_frame(tag, text).len() {
            TextScan::Incomplete
        } else {
            TextScan::Frame {
                tag: tag as int,
                text,
                consumed: text_frame(tag, text).len() as int,
            }
        },
{
    lemma_frame_in_pieces(text_body(tag, text), pieces, arrived);
    let front = gathered(pieces.take(arrived));
    if front.len() >= text_frame(tag, text).len() {
        lemma_text_frame_round_trip(tag, text, Seq::empty());
        assert(front =~= text_frame(tag, text) + Seq::<u8>::empty());
    }
}

} // verus!
