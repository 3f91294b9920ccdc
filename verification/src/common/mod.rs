//! What the connections share: the directory of who is online, and helpers.

pub mod io_utils;
pub mod text;
pub mod user_manager;
