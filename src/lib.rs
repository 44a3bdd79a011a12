//! Decision logic of an event relay between two topic streams, with a
//! durable FIFO list store in between.

pub mod buffer;
pub mod codec;
pub mod inbound;
pub mod message;
pub mod outbox;
pub mod secret;
pub mod settings;
