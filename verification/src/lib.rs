//! A message broker core: AMQP 0-9-1 framing, exchange routing, queues,
//! stream storage, write-ahead-log encoding and schema bookkeeping.

pub mod amqp;
pub mod routing;
pub mod schema;
pub mod queue;
pub mod storage;
pub mod text;
pub mod headers;
pub mod state;
