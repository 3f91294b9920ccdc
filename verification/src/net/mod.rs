//! The wire: frames behind a length field, with text or serialized
//! messages inside.

pub mod buffer;
pub mod frame;
pub mod message_codec;
pub mod protobuf_codec;
pub mod text_payload;
