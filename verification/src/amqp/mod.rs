//! AMQP 0-9-1 protocol pieces: method identifiers, wire primitives and frames.

pub mod method;
pub mod types;
pub mod codec;
pub mod table;
pub mod connection;
pub mod args;
pub mod properties;
pub mod content;
pub mod session;
pub mod adapter;
pub mod queue_class;
pub mod publish;
pub mod handshake;
pub mod dispatch;
pub mod basic_class;
pub mod exchange_class;
pub mod delivery;
pub mod frame_loop;
