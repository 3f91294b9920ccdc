//! Frames of serialized messages: a length field, then the message.

use crate::net::buffer::{advance, buffered, copy_range, put_u32_le};
use crate::net::frame::{declared_length, framed, scan, FrameError, Scan, HEADER_LEN, MAX_LEN};
use bytes::BytesMut;
use vstd::prelude::*;

verus! {

/// Frames serialized messages: each goes on the wire behind the length of
/// its bytes. What the bytes of a frame mean is for the caller to say: a
/// frame is read in two steps, so that it leaves the buffer only after its
/// payload was found valid.
pub struct ProtobufCodec;

impl ProtobufCodec {
    pub fn new() -> (codec: Self) {
        ProtobufCodec {  }
    }

    /// The bytes of the frame at the front of `src`, if a whole one is
    /// there. Nothing leaves the buffer: the frame stays until its payload
    /// was looked at and [`ProtobufCodec::settle_frame`] is told the outcome.
    ///
    /// `Ok(None)` asks for more bytes.
    pub fn front_frame(&mut self, src: &mut BytesMut) -> (result: Result<
        Option<Vec<u8>>,
        FrameError,
    >)
        ensures
            buffered(*final(src)) == buffered(*old(src)),
            match scan(buffered(*old(src))) {
                Scan::Incomplete => result == Ok::<Option<Vec<u8>>, FrameError>(None),
                Scan::Oversized { length } => {
                    &&& result matches Err(FrameError::TooLarge { length: refused })
                    &&& refused == length
                },
                Scan::Whole { body } => result matches Ok(Some(data)) && data@ == body,
            },
    {
        let length = match declared_length(src) {
            Err(error) => {
                return Err(error);
            },
            Ok(None) => {
                return Ok(None);
            },
            Ok(Some(length)) => length,
        };
        Ok(Some(copy_range(src, HEADER_LEN, HEADER_LEN + length)))
    }

    /// Settles the frame at the front of `src` once its payload was looked
    /// at. A frame whose payload was accepted leaves the buffer, with its
    /// length field. One whose payload was refused is a framing error, and
    /// stays: no byte leaves the buffer that was not found valid.
    ///
    /// Where no whole frame stands at the front there is nothing to settle:
    /// that is an error too, and the buffer is left as it was.
    pub fn settle_frame(&mut self, src: &mut BytesMut, accepted: bool) -> (result: Result<
        (),
        FrameError,
    >)
        ensures
            match scan(buffered(*old(src))) {
                Scan::Whole { body } => if accepted {
                    &&& result == Ok::<(), FrameError>(())
                    &&& buffered(*final(src)) == buffered(*old(src)).skip(
                        HEADER_LEN + body.len(),
                    )
                } else {
                    &&& result == Err::<(), FrameError>(FrameError::InvalidPayload)
                    &&& buffered(*final(src)) == buffered(*old(src))
                },
                Scan::Oversized { length } => {
                    &&& result matches Err(FrameError::TooLarge { length: refused })
                    &&& refused == length
                    &&& buffered(*final(src)) == buffered(*old(src))
                },
                Scan::Incomplete => {
                    &&& result == Err::<(), FrameError>(FrameError::NoFrame)
                    &&& buffered(*final(src)) == buffered(*old(src))
                },
            },
    {
        match declared_length(src) {
            Err(error) => Err(error),
            Ok(None) => Err(FrameError::NoFrame),
            Ok(Some(length)) => {
                if accepted {
                    advance(src, HEADER_LEN + length);
                    Ok(())
                } else {
                    Err(FrameError::InvalidPayload)
                }
            },
        }
    }

    /// Appends to `dst` the length of `item` and then its bytes.
    ///
    /// More than [`MAX_LEN`] bytes are refused, and `dst` is then left as it
    /// was. The buffer has to have room for the frame.
    pub fn encode(&mut self, item: &[u8], dst: &mut BytesMut) -> (result: Result<(), FrameError>)
        requires
            item@.len() <= MAX_LEN ==> buffered(*old(dst)).len() + HEADER_LEN + item@.len()
                <= isize::MAX,
        ensures
            item@.len() > MAX_LEN ==> {
                &&& result matches Err(FrameError::TooLarge { length })
                &&& length == item@.len()
                &&& buffered(*final(dst)) == buffered(*old(dst))
            },
            item@.len() <= MAX_LEN ==> result == Ok::<(), FrameError>(()) && buffered(*final(dst))
                == buffered(*old(dst)) + framed(item@),
    {
        let len = item.len();
        if len > MAX_LEN {
            return Err(FrameError::TooLarge { length: len });
        }
        dst.reserve(HEADER_LEN + len);
        put_u32_le(dst, len as u32);
        dst.extend_from_slice(item);
        proof {
            assert(buffered(*dst) =~= buffered(*old(dst)) + framed(item@));
        }
        Ok(())
    }
}

} // verus!
