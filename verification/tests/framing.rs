use bytes::BytesMut;
use tokio_im::net::frame::{FrameError, HEADER_LEN, MAX_LEN, TYPE_LEN};
use tokio_im::net::message_codec::{MessageDecoder, MessageEncoder};
use tokio_im::net::protobuf_codec::ProtobufCodec;

fn text_frame(tag: u32, text: &str) -> Vec<u8> {
    let mut bytes = Vec::new();
    bytes.extend_from_slice(&((text.len() + 4) as u32).to_le_bytes());
    bytes.extend_from_slice(&tag.to_le_bytes());
    bytes.extend_from_slice(text.as_bytes());
    bytes
}

#[test]
fn constants_are_those_of_the_wire_format() {
    assert_eq!(HEADER_LEN, 4);
    assert_eq!(TYPE_LEN, 4);
    assert_eq!(MAX_LEN, 8_388_608);
}

#[test]
fn encode_writes_length_tag_and_text() {
    let mut dst = BytesMut::new();
    let mut encoder = MessageEncoder {};
    assert_eq!(encoder.encode((1, "hi".to_string()), &mut dst), Ok(()));
    assert_eq!(&dst[..], &[6, 0, 0, 0, 1, 0, 0, 0, b'h', b'i'][..]);
}

#[test]
fn encode_writes_little_endian_fields() {
    let mut dst = BytesMut::new();
    let mut encoder = MessageEncoder {};
    let text = "x".repeat(0x0102);
    assert_eq!(encoder.encode((0x0A0B0C0D, text.clone()), &mut dst), Ok(()));
    assert_eq!(&dst[..4], &[0x06, 0x01, 0x00, 0x00][..]);
    assert_eq!(&dst[4..8], &[0x0D, 0x0C, 0x0B, 0x0A][..]);
    assert_eq!(&dst[8..], text.as_bytes());
}

#[test]
fn encode_appends_behind_what_the_buffer_holds() {
    let mut dst = BytesMut::from(&b"abc"[..]);
    let mut encoder = MessageEncoder {};
    assert_eq!(encoder.encode((3, "".to_string()), &mut dst), Ok(()));
    assert_eq!(&dst[..], &[b'a', b'b', b'c', 4, 0, 0, 0, 3, 0, 0, 0][..]);
}

#[test]
fn encode_counts_bytes_not_characters() {
    let mut dst = BytesMut::new();
    let mut encoder = MessageEncoder {};
    assert_eq!(encoder.encode((2, "é€".to_string()), &mut dst), Ok(()));
    assert_eq!(&dst[..], &[9, 0, 0, 0, 2, 0, 0, 0, 0xC3, 0xA9, 0xE2, 0x82, 0xAC][..]);
}

#[test]
fn encode_keeps_the_low_bits_of_a_wide_tag() {
    if usize::BITS > 32 {
        let wide = (1u64 << 32) as usize + 5;
        let mut dst = BytesMut::new();
        let mut encoder = MessageEncoder {};
        assert_eq!(encoder.encode((wide, "a".to_string()), &mut dst), Ok(()));
        assert_eq!(&dst[..], &[5, 0, 0, 0, 5, 0, 0, 0, b'a'][..]);
    }
}

#[test]
fn encode_takes_the_largest_frame() {
    let mut dst = BytesMut::new();
    let mut encoder = MessageEncoder {};
    let text = "a".repeat(MAX_LEN - TYPE_LEN);
    assert_eq!(encoder.encode((1, text), &mut dst), Ok(()));
    assert_eq!(dst.len(), HEADER_LEN + MAX_LEN);
    assert_eq!(&dst[..4], &[0x00, 0x00, 0x80, 0x00][..]);
    let mut decoder = MessageDecoder {};
    let frame = decoder.decode(&mut dst).unwrap().unwrap();
    assert_eq!(frame.0, 1);
    assert_eq!(frame.1.len(), MAX_LEN - TYPE_LEN);
    assert!(dst.is_empty());
}

#[test]
fn encode_refuses_a_frame_over_the_limit() {
    let mut dst = BytesMut::from(&b"kept"[..]);
    let mut encoder = MessageEncoder {};
    let text = "a".repeat(MAX_LEN - TYPE_LEN + 1);
    assert_eq!(
        encoder.encode((1, text), &mut dst),
        Err(FrameError::TooLarge { length: MAX_LEN - TYPE_LEN + 1 })
    );
    assert_eq!(&dst[..], b"kept");
}

#[test]
fn encode_refuses_a_payload_over_the_limit() {
    let mut dst = BytesMut::new();
    let mut encoder = MessageEncoder {};
    let text = "a".repeat(MAX_LEN + 1);
    assert_eq!(
        encoder.encode((1, text), &mut dst),
        Err(FrameError::TooLarge { length: MAX_LEN + 1 })
    );
    assert!(dst.is_empty());
}

#[test]
fn decode_reads_back_what_encode_wrote() {
    let mut buffer = BytesMut::new();
    let mut encoder = MessageEncoder {};
    let mut decoder = MessageDecoder {};
    encoder.encode((3, "alice#bob#hello, wörld".to_string()), &mut buffer).unwrap();
    assert_eq!(
        decoder.decode(&mut buffer),
        Ok(Some((3, "alice#bob#hello, wörld".to_string())))
    );
    assert!(buffer.is_empty());
    assert_eq!(decoder.decode(&mut buffer), Ok(None));
}

#[test]
fn decode_reads_an_empty_text() {
    let mut buffer = BytesMut::from(&[4u8, 0, 0, 0, 2, 0, 0, 0][..]);
    let mut decoder = MessageDecoder {};
    assert_eq!(decoder.decode(&mut buffer), Ok(Some((2, String::new()))));
    assert!(buffer.is_empty());
}

#[test]
fn decode_reads_the_tag_little_endian() {
    let mut buffer = BytesMut::from(&[5u8, 0, 0, 0, 0x0D, 0x0C, 0x0B, 0x0A, b'z'][..]);
    let mut decoder = MessageDecoder {};
    assert_eq!(decoder.decode(&mut buffer), Ok(Some((0x0A0B0C0D, "z".to_string()))));
}

#[test]
fn decode_waits_for_the_length_field() {
    let mut decoder = MessageDecoder {};
    for have in 0..4 {
        let bytes = [6u8, 0, 0, 0];
        let mut buffer = BytesMut::from(&bytes[..have]);
        assert_eq!(decoder.decode(&mut buffer), Ok(None));
        assert_eq!(&buffer[..], &bytes[..have]);
    }
}

#[test]
fn decode_waits_for_every_byte_of_the_frame() {
    let frame = text_frame(1, "hello");
    let mut decoder = MessageDecoder {};
    for have in 0..frame.len() {
        let mut buffer = BytesMut::from(&frame[..have]);
        assert_eq!(decoder.decode(&mut buffer), Ok(None));
        assert_eq!(&buffer[..], &frame[..have]);
    }
    let mut buffer = BytesMut::from(&frame[..]);
    assert_eq!(decoder.decode(&mut buffer), Ok(Some((1, "hello".to_string()))));
}

#[test]
fn decode_takes_a_frame_that_arrives_byte_by_byte() {
    let frame = text_frame(1, "split me");
    let mut decoder = MessageDecoder {};
    let mut buffer = BytesMut::new();
    for (at, byte) in frame.iter().enumerate() {
        buffer.extend_from_slice(&[*byte]);
        let got = decoder.decode(&mut buffer);
        if at + 1 < frame.len() {
            assert_eq!(got, Ok(None));
        } else {
            assert_eq!(got, Ok(Some((1, "split me".to_string()))));
        }
    }
    assert!(buffer.is_empty());
}

#[test]
fn decode_takes_a_frame_that_arrives_in_two_pieces() {
    let frame = text_frame(0, "zhangsan#123");
    for cut in 0..=frame.len() {
        let mut decoder = MessageDecoder {};
        let mut buffer = BytesMut::new();
        buffer.extend_from_slice(&frame[..cut]);
        let first = decoder.decode(&mut buffer);
        if cut < frame.len() {
            assert_eq!(first, Ok(None));
            buffer.extend_from_slice(&frame[cut..]);
            assert_eq!(decoder.decode(&mut buffer), Ok(Some((0, "zhangsan#123".to_string()))));
        } else {
            assert_eq!(first, Ok(Some((0, "zhangsan#123".to_string()))));
        }
        assert!(buffer.is_empty());
    }
}

#[test]
fn decode_takes_one_frame_at_a_time() {
    let mut buffer = BytesMut::new();
    buffer.extend_from_slice(&text_frame(1, "one"));
    buffer.extend_from_slice(&text_frame(2, "two"));
    buffer.extend_from_slice(&[9, 0]);
    let mut decoder = MessageDecoder {};
    assert_eq!(decoder.decode(&mut buffer), Ok(Some((1, "one".to_string()))));
    assert_eq!(&buffer[..], &[&text_frame(2, "two")[..], &[9, 0][..]].concat()[..]);
    assert_eq!(decoder.decode(&mut buffer), Ok(Some((2, "two".to_string()))));
    assert_eq!(&buffer[..], &[9, 0][..]);
    assert_eq!(decoder.decode(&mut buffer), Ok(None));
    assert_eq!(&buffer[..], &[9, 0][..]);
}

#[test]
fn decode_refuses_a_length_over_the_limit() {
    let bytes = [0x01u8, 0x00, 0x80, 0x00, 1, 0, 0, 0, b'a'];
    let mut buffer = BytesMut::from(&bytes[..]);
    let mut decoder = MessageDecoder {};
    assert_eq!(
        decoder.decode(&mut buffer),
        Err(FrameError::TooLarge { length: MAX_LEN + 1 })
    );
    assert_eq!(&buffer[..], &bytes[..]);
}

#[test]
fn decode_refuses_the_largest_length_field() {
    let bytes = [0xFFu8, 0xFF, 0xFF, 0xFF];
    let mut buffer = BytesMut::from(&bytes[..]);
    let mut decoder = MessageDecoder {};
    assert_eq!(
        decoder.decode(&mut buffer),
        Err(FrameError::TooLarge { length: 0xFFFF_FFFF })
    );
    assert_eq!(&buffer[..], &bytes[..]);
}

#[test]
fn decode_accepts_a_length_at_the_limit_and_waits() {
    let bytes = [0x00u8, 0x00, 0x80, 0x00, 1, 0, 0, 0];
    let mut buffer = BytesMut::from(&bytes[..]);
    let mut decoder = MessageDecoder {};
    assert_eq!(decoder.decode(&mut buffer), Ok(None));
    assert_eq!(&buffer[..], &bytes[..]);
}

#[test]
fn decode_refuses_a_length_without_room_for_the_tag() {
    for length in 0u8..4 {
        let bytes = [length, 0, 0, 0, 1, 2, 3, 4, 5];
        let mut buffer = BytesMut::from(&bytes[..]);
        let mut decoder = MessageDecoder {};
        assert_eq!(
            decoder.decode(&mut buffer),
            Err(FrameError::TooShort { length: length as usize })
        );
        assert_eq!(&buffer[..], &bytes[..]);
    }
}

#[test]
fn decode_refuses_text_that_is_not_utf8() {
    let bytes = [6u8, 0, 0, 0, 1, 0, 0, 0, 0xFF, 0xFE, 7];
    let mut buffer = BytesMut::from(&bytes[..]);
    let mut decoder = MessageDecoder {};
    assert_eq!(decoder.decode(&mut buffer), Err(FrameError::InvalidUtf8));
    assert_eq!(&buffer[..], &bytes[..]);
}

#[test]
fn decode_refuses_text_cut_inside_a_character() {
    let bytes = [5u8, 0, 0, 0, 1, 0, 0, 0, 0xC3];
    let mut buffer = BytesMut::from(&bytes[..]);
    let mut decoder = MessageDecoder {};
    assert_eq!(decoder.decode(&mut buffer), Err(FrameError::InvalidUtf8));
    assert_eq!(&buffer[..], &bytes[..]);
}

#[test]
fn byte_frames_are_written_behind_their_length() {
    let mut codec = ProtobufCodec::new();
    let mut dst = BytesMut::from(&b"x"[..]);
    assert_eq!(codec.encode(&[8, 1, 18, 2, 10, 0], &mut dst), Ok(()));
    assert_eq!(&dst[..], &[b'x', 6, 0, 0, 0, 8, 1, 18, 2, 10, 0][..]);
}

#[test]
fn byte_frames_may_be_empty() {
    let mut codec = ProtobufCodec::new();
    let mut buffer = BytesMut::new();
    assert_eq!(codec.encode(&[], &mut buffer), Ok(()));
    assert_eq!(&buffer[..], &[0, 0, 0, 0][..]);
    assert_eq!(codec.front_frame(&mut buffer), Ok(Some(Vec::new())));
    assert_eq!(&buffer[..], &[0, 0, 0, 0][..]);
    assert_eq!(codec.settle_frame(&mut buffer, true), Ok(()));
    assert!(buffer.is_empty());
}

#[test]
fn byte_frames_are_read_back() {
    let mut codec = ProtobufCodec::new();
    let mut buffer = BytesMut::new();
    let first: Vec<u8> = (0..=255).collect();
    let second = vec![0xFFu8, 0x00, 0x80];
    codec.encode(&first, &mut buffer).unwrap();
    codec.encode(&second, &mut buffer).unwrap();
    assert_eq!(codec.front_frame(&mut buffer), Ok(Some(first)));
    assert_eq!(codec.settle_frame(&mut buffer, true), Ok(()));
    assert_eq!(codec.front_frame(&mut buffer), Ok(Some(second)));
    assert_eq!(codec.settle_frame(&mut buffer, true), Ok(()));
    assert_eq!(codec.front_frame(&mut buffer), Ok(None));
    assert!(buffer.is_empty());
}

#[test]
fn looking_at_a_byte_frame_takes_nothing() {
    let bytes = [3u8, 0, 0, 0, 7, 8, 9, 42];
    let mut codec = ProtobufCodec::new();
    let mut buffer = BytesMut::from(&bytes[..]);
    assert_eq!(codec.front_frame(&mut buffer), Ok(Some(vec![7, 8, 9])));
    assert_eq!(codec.front_frame(&mut buffer), Ok(Some(vec![7, 8, 9])));
    assert_eq!(&buffer[..], &bytes[..]);
}

#[test]
fn byte_frames_wait_for_every_byte() {
    let frame = [3u8, 0, 0, 0, 7, 8, 9];
    let mut codec = ProtobufCodec::new();
    for have in 0..frame.len() {
        let mut buffer = BytesMut::from(&frame[..have]);
        assert_eq!(codec.front_frame(&mut buffer), Ok(None));
        assert_eq!(&buffer[..], &frame[..have]);
    }
    let mut buffer = BytesMut::from(&[&frame[..], &[42][..]].concat()[..]);
    assert_eq!(codec.front_frame(&mut buffer), Ok(Some(vec![7, 8, 9])));
    assert_eq!(codec.settle_frame(&mut buffer, true), Ok(()));
    assert_eq!(&buffer[..], &[42][..]);
}

#[test]
fn an_accepted_byte_frame_leaves_the_buffer() {
    let mut codec = ProtobufCodec::new();
    let mut buffer = BytesMut::from(&[2u8, 0, 0, 0, 8, 1, 1, 0, 0, 0, 9][..]);
    assert_eq!(codec.settle_frame(&mut buffer, true), Ok(()));
    assert_eq!(&buffer[..], &[1, 0, 0, 0, 9][..]);
    assert_eq!(codec.settle_frame(&mut buffer, true), Ok(()));
    assert!(buffer.is_empty());
}

#[test]
fn a_refused_byte_frame_stays_in_the_buffer() {
    let bytes = [1u8, 0, 0, 0, 0xFF];
    let mut codec = ProtobufCodec::new();
    let mut buffer = BytesMut::from(&bytes[..]);
    assert_eq!(codec.front_frame(&mut buffer), Ok(Some(vec![0xFF])));
    assert_eq!(codec.settle_frame(&mut buffer, false), Err(FrameError::InvalidPayload));
    assert_eq!(&buffer[..], &bytes[..]);
    assert_eq!(codec.front_frame(&mut buffer), Ok(Some(vec![0xFF])));
}

#[test]
fn there_is_nothing_to_settle_before_a_frame_is_whole() {
    let frame = [3u8, 0, 0, 0, 7, 8, 9];
    let mut codec = ProtobufCodec::new();
    for have in 0..frame.len() {
        for accepted in [true, false] {
            let mut buffer = BytesMut::from(&frame[..have]);
            assert_eq!(codec.settle_frame(&mut buffer, accepted), Err(FrameError::NoFrame));
            assert_eq!(&buffer[..], &frame[..have]);
        }
    }
}

#[test]
fn a_byte_frame_over_the_limit_is_not_settled() {
    let bytes = [0x01u8, 0x00, 0x80, 0x00, 1, 2];
    let mut codec = ProtobufCodec::new();
    for accepted in [true, false] {
        let mut buffer = BytesMut::from(&bytes[..]);
        assert_eq!(
            codec.settle_frame(&mut buffer, accepted),
            Err(FrameError::TooLarge { length: MAX_LEN + 1 })
        );
        assert_eq!(&buffer[..], &bytes[..]);
    }
}

#[test]
fn byte_frames_over_the_limit_are_refused() {
    let mut codec = ProtobufCodec::new();
    let mut dst = BytesMut::from(&b"kept"[..]);
    let body = vec![0u8; MAX_LEN + 1];
    assert_eq!(
        codec.encode(&body, &mut dst),
        Err(FrameError::TooLarge { length: MAX_LEN + 1 })
    );
    assert_eq!(&dst[..], b"kept");
    let bytes = [0x01u8, 0x00, 0x80, 0x00, 1, 2];
    let mut buffer = BytesMut::from(&bytes[..]);
    assert_eq!(
        codec.front_frame(&mut buffer),
        Err(FrameError::TooLarge { length: MAX_LEN + 1 })
    );
    assert_eq!(&buffer[..], &bytes[..]);
}

#[test]
fn byte_frames_at_the_limit_pass() {
    let mut codec = ProtobufCodec::new();
    let mut buffer = BytesMut::new();
    let body = vec![7u8; MAX_LEN];
    assert_eq!(codec.encode(&body, &mut buffer), Ok(()));
    assert_eq!(buffer.len(), MAX_LEN + HEADER_LEN);
    assert_eq!(codec.front_frame(&mut buffer), Ok(Some(body)));
    assert_eq!(codec.settle_frame(&mut buffer, true), Ok(()));
    assert!(buffer.is_empty());
}
