//! Decoding an array into a channel of its own.

pub mod channel_deserializer;
