//! What the relay asks of others.

pub mod user_service;
