//! The protocol adapters the broker can run, and the channel summary and
//! delivery sink they share with the rest of the broker.

use vstd::prelude::*;

verus! {

/// A channel's state as reported to the management side.
#[derive(Debug, Clone)]
pub struct ChannelMeta {
    pub id: u16,
    pub prefetch_count: u16,
    pub unacked_count: u16,
    pub confirm_mode: bool,
    pub flow_active: bool,
}

/// A connection's state as reported to the management side.
pub trait ConnectionMeta {
    fn username(&self) -> String;
    fn vhost(&self) -> String;
    fn channels_count(&self) -> usize;
    fn get_channels(&self) -> Vec<ChannelMeta>;
    fn heartbeat(&self) -> u16;
    fn frame_max(&self) -> u32;
    fn channel_max(&self) -> u16;
    fn tx_mode(&self) -> bool;
}

/// Where deliveries for a connection are handed to be written out.
pub trait DeliverySink {
    /// Hands over encoded frames; whether they were taken.
    fn try_deliver(&self, frames: Vec<u8>) -> bool;
    /// Whether the sink no longer takes frames.
    fn is_closed(&self) -> bool;
}

/// The AMQP 0-9-1 protocol.
#[derive(Debug, Clone, Copy)]
pub struct AmqpProtocol;

impl AmqpProtocol {
    /// The AMQP protocol adapter.
    pub fn new() -> (r: Self)
        ensures
            r == AmqpProtocol,
    {
        AmqpProtocol
    }

    /// The protocol's name.
    pub fn name(&self) -> (r: &'static str)
        ensures
            r@ == "AMQP-0-9-1"@,
    {
        "AMQP-0-9-1"
    }
}

impl Default for AmqpProtocol {
    fn default() -> (r: Self) {
        AmqpProtocol::new()
    }
}

/// A protocol the broker can serve.
#[derive(Debug, Clone)]
pub enum ProtocolAdapter {
    Amqp(AmqpProtocol),
}

impl ProtocolAdapter {
    /// The AMQP adapter.
    pub fn create_amqp() -> (r: Self)
        ensures
            r == ProtocolAdapter::Amqp(AmqpProtocol),
    {
        ProtocolAdapter::Amqp(AmqpProtocol::new())
    }

    /// The name of the protocol served.
    pub fn name(&self) -> (r: &'static str)
        ensures
            self is Amqp ==> r@ == "AMQP-0-9-1"@,
    {
        match self {
            ProtocolAdapter::Amqp(p) => p.name(),
        }
    }
}

} // verus!
