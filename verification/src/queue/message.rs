//! Messages held by queues, either materialized or as references into a
//! write-ahead-log segment.
//!
//! Times are milliseconds on the broker's monotonic clock.

use vstd::prelude::*;

verus! {

/// A message with its payload in memory.
#[derive(Clone, Debug)]
pub struct Message {
    pub id: u64,
    pub headers: Vec<u8>,
    pub body: Vec<u8>,
    pub priority: u8,
    pub expiration: Option<u64>,
    pub redelivered: bool,
    pub delivery_count: u32,
    pub exchange: String,
    pub routing_key: String,
}

/// Whether an expiration time has passed at `now`.
pub open spec fn expired_at(expiration: Option<u64>, now: u64) -> bool {
    match expiration {
        Some(exp) => now >= exp,
        None => false,
    }
}

/// The message `new_routed` makes: priority 0, no expiration, not yet
/// delivered.
pub open spec fn routed_message(id: u64, headers: Vec<u8>, body: Vec<u8>, exchange: String, routing_key: String) -> Message {
    Message {
        id,
        headers,
        body,
        priority: 0,
        expiration: None,
        redelivered: false,
        delivery_count: 0,
        exchange,
        routing_key,
    }
}

impl Message {
    /// A message with the given ID, serialized headers and body; priority
    /// 0, no expiration, not redelivered, no exchange or routing key.
    pub fn new(id: u64, headers: Vec<u8>, body: Vec<u8>) -> (r: Self)
        ensures
            r.id == id,
            r.headers@ == headers@,
            r.body@ == body@,
            r.priority == 0,
            r.expiration is None,
            !r.redelivered,
            r.delivery_count == 0,
            r.exchange@ == Seq::<char>::empty(),
            r.routing_key@ == Seq::<char>::empty(),
    {
        Message {
            id,
            headers,
            body,
            priority: 0,
            expiration: None,
            redelivered: false,
            delivery_count: 0,
            exchange: String::new(),
            routing_key: String::new(),
        }
    }

    /// A message that records the exchange and routing key it was
    /// published with.
    pub fn new_routed(
        id: u64,
        headers: Vec<u8>,
        body: Vec<u8>,
        exchange: String,
        routing_key: String,
    ) -> (r: Self)
        ensures
            r.id == id,
            r.headers@ == headers@,
            r.body@ == body@,
            r.priority == 0,
            r.expiration is None,
            !r.redelivered,
            r.delivery_count == 0,
            r.exchange == exchange,
            r.routing_key == routing_key,
            r == routed_message(id, headers, body, exchange, routing_key),
    {
        Message {
            id,
            headers,
            body,
            priority: 0,
            expiration: None,
            redelivered: false,
            delivery_count: 0,
            exchange,
            routing_key,
        }
    }

    /// Whether the message has expired at time `now`.
    pub fn is_expired(&self, now: u64) -> (r: bool)
        ensures
            r == expired_at(self.expiration, now),
    {
        match self.expiration {
            Some(exp) => now >= exp,
            None => false,
        }
    }
}

/// Where a message's payload sits in the write-ahead log, with the
/// metadata kept in memory.
#[derive(Clone, Debug)]
pub struct MessageRef {
    pub id: u64,
    pub segment_id: u64,
    pub offset: u64,
    pub length: u32,
    pub priority: u8,
    pub expiration: Option<u64>,
    pub redelivered: bool,
    pub delivery_count: u32,
    pub exchange: String,
    pub routing_key: String,
}

/// A message stored in a queue, fully materialized or referenced.
#[derive(Clone, Debug)]
pub enum QueueMessage {
    Ref(MessageRef),
    Full(Message),
}

impl QueueMessage {
    /// The message ID.
    pub open spec fn id_spec(&self) -> u64 {
        match self {
            QueueMessage::Ref(r) => r.id,
            QueueMessage::Full(m) => m.id,
        }
    }

    /// The message priority.
    pub open spec fn priority_spec(&self) -> u8 {
        match self {
            QueueMessage::Ref(r) => r.priority,
            QueueMessage::Full(m) => m.priority,
        }
    }

    /// The message expiration.
    pub open spec fn expiration_spec(&self) -> Option<u64> {
        match self {
            QueueMessage::Ref(r) => r.expiration,
            QueueMessage::Full(m) => m.expiration,
        }
    }

    /// The redelivered flag.
    pub open spec fn redelivered_spec(&self) -> bool {
        match self {
            QueueMessage::Ref(r) => r.redelivered,
            QueueMessage::Full(m) => m.redelivered,
        }
    }

    /// The delivery count.
    pub open spec fn delivery_count_spec(&self) -> u32 {
        match self {
            QueueMessage::Ref(r) => r.delivery_count,
            QueueMessage::Full(m) => m.delivery_count,
        }
    }

    /// The message ID.
    pub fn id(&self) -> (r: u64)
        ensures
            r == self.id_spec(),
    {
        match self {
            QueueMessage::Ref(r) => r.id,
            QueueMessage::Full(m) => m.id,
        }
    }

    /// The message priority.
    pub fn priority(&self) -> (r: u8)
        ensures
            r == self.priority_spec(),
    {
        match self {
            QueueMessage::Ref(r) => r.priority,
            QueueMessage::Full(m) => m.priority,
        }
    }

    /// The message expiration time.
    pub fn expiration(&self) -> (r: Option<u64>)
        ensures
            r == self.expiration_spec(),
    {
        match self {
            QueueMessage::Ref(r) => r.expiration,
            QueueMessage::Full(m) => m.expiration,
        }
    }

    /// Whether the message has expired at time `now`.
    pub fn is_expired(&self, now: u64) -> (r: bool)
        ensures
            r == expired_at(self.expiration_spec(), now),
    {
        match self.expiration() {
            Some(exp) => now >= exp,
            None => false,
        }
    }

    /// The redelivered flag.
    pub fn redelivered(&self) -> (r: bool)
        ensures
            r == self.redelivered_spec(),
    {
        match self {
            QueueMessage::Ref(r) => r.redelivered,
            QueueMessage::Full(m) => m.redelivered,
        }
    }

    /// Sets the redelivered flag, leaving everything else as it was.
    pub fn set_redelivered(&mut self, val: bool)
        ensures
            match (*old(self), *final(self)) {
                (QueueMessage::Ref(a), QueueMessage::Ref(b)) => b == (MessageRef {
                    redelivered: val,
                    ..a
                }),
                (QueueMessage::Full(a), QueueMessage::Full(b)) => b == (Message {
                    redelivered: val,
                    ..a
                }),
                _ => false,
            },
    {
        match self {
            QueueMessage::Ref(r) => r.redelivered = val,
            QueueMessage::Full(m) => m.redelivered = val,
        }
    }

    /// The delivery count.
    pub fn delivery_count(&self) -> (r: u32)
        ensures
            r == self.delivery_count_spec(),
    {
        match self {
            QueueMessage::Ref(r) => r.delivery_count,
            QueueMessage::Full(m) => m.delivery_count,
        }
    }

    /// Sets the delivery count, leaving everything else as it was.
    pub fn set_delivery_count(&mut self, val: u32)
        ensures
            match (*old(self), *final(self)) {
                (QueueMessage::Ref(a), QueueMessage::Ref(b)) => b == (MessageRef {
                    delivery_count: val,
                    ..a
                }),
                (QueueMessage::Full(a), QueueMessage::Full(b)) => b == (Message {
                    delivery_count: val,
                    ..a
                }),
                _ => false,
            },
    {
        match self {
            QueueMessage::Ref(r) => r.delivery_count = val,
            QueueMessage::Full(m) => m.delivery_count = val,
        }
    }

    /// Materializes the message. A referenced message has its headers and
    /// body read by `fetch` from (segment, offset, length); its in-memory
    /// metadata is kept, and a failed read is passed on.
    pub fn resolve<E, F: FnOnce(u64, u64, usize) -> Result<(Vec<u8>, Vec<u8>), E>>(
        self,
        fetch: F,
    ) -> (r: Result<Message, E>)
        requires
            self matches QueueMessage::Ref(m) ==> fetch.requires(
                (m.segment_id, m.offset, m.length as usize),
            ),
        ensures
            match self {
                QueueMessage::Full(m) => r == Ok::<Message, E>(m),
                QueueMessage::Ref(m) => exists|out: Result<(Vec<u8>, Vec<u8>), E>|
                    #[trigger] fetch.ensures((m.segment_id, m.offset, m.length as usize), out)
                        && match out {
                        Ok((h, b)) => r matches Ok(msg) && msg.id == m.id && msg.headers@ == h@
                            && msg.body@ == b@ && msg.priority == m.priority && msg.expiration
                            == m.expiration && msg.redelivered == m.redelivered
                            && msg.delivery_count == m.delivery_count && msg.exchange
                            == m.exchange && msg.routing_key == m.routing_key,
                        Err(e) => r matches Err(e2) && e2 == e,
                    },
            },
    {
        match self {
            QueueMessage::Full(m) => Ok(m),
            QueueMessage::Ref(r) => {
                let out = fetch(r.segment_id, r.offset, r.length as usize);
                match out {
                    Ok((headers, body)) => {
                        let mut msg = Message::new_routed(
                            r.id,
                            headers,
                            body,
                            r.exchange,
                            r.routing_key,
                        );
                        msg.priority = r.priority;
                        msg.expiration = r.expiration;
                        msg.redelivered = r.redelivered;
                        msg.delivery_count = r.delivery_count;
                        Ok(msg)
                    },
                    Err(e) => Err(e),
                }
            },
        }
    }

    /// The materialized message; only for a `Full` message.
    pub fn unwrap_full(self) -> (r: Message)
        requires
            self is Full,
        ensures
            self == QueueMessage::Full(r),
    {
        match self {
            QueueMessage::Full(m) => m,
            QueueMessage::Ref(_) => vstd::pervasive::unreached(),
        }
    }
}

} // verus!
