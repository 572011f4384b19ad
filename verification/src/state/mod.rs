//! Broker-wide state: the queues, exchanges and the per-connection
//! bookkeeping that lets a connection be cleaned up when it goes away.

pub mod broker;
pub mod tx;
pub mod settle;
pub mod declare;
pub mod consume;
pub mod place;
pub mod publish_flow;
pub mod native;
pub mod nack;
pub mod replies;
pub mod amqp_publish;
pub mod native_tx;
