//! The values that travel through the relay.

pub mod message;
pub mod message_type;
pub mod user;
