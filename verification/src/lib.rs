//! The core of a small instant-messaging relay: length-prefixed framing of a
//! byte stream, the directory of users that are online, and the decisions a
//! connection takes for each message it reads.

pub mod common;
pub mod model;
pub mod net;
pub mod relay;
pub mod router;
pub mod service;
pub mod session;
