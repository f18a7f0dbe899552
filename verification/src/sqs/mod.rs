//! Listening to a message queue.

pub mod sqs_queue_listener;
