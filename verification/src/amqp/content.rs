//! Reassembly of a published message: a `Basic.Publish` method, then a
//! content header announcing the body size, then body frames until that
//! many bytes have arrived.

use vstd::prelude::*;
use crate::amqp::codec::{decode_content_header, decode_header_spec};
use crate::amqp::properties::BasicProperties;
use crate::amqp::args::parse_publish_args;

verus! {

/// A publish waiting for its content.
#[derive(Debug)]
pub struct ContentState {
    pub exchange: String,
    pub routing_key: String,
    pub mandatory: bool,
    pub properties: BasicProperties,
    pub body_size: u64,
    pub body_received: Vec<u8>,
    pub channel: u16,
}

/// What a content frame did to the publish in progress.
#[derive(Debug, Clone, Copy, PartialEq, Eq, Structural)]
pub enum ContentStep {
    /// No publish was waiting; the frame is ignored.
    NoPublish,
    /// The header did not read; the publish in progress is dropped.
    Dropped,
    /// More body is expected.
    Waiting,
    /// The whole body has arrived; the publish can be handed on.
    Complete,
}

impl ContentState {
    /// Starts waiting for the content of a `Basic.Publish` with the given
    /// arguments on `channel`; properties and body size are set by the
    /// header that follows.
    pub fn start(channel: u16, publish_args: &[u8]) -> (r: Self)
        ensures
            r.channel == channel,
            r.body_size == 0,
            r.body_received@ == Seq::<u8>::empty(),
            forall|i: int| 0 <= i < 14 ==> (#[trigger] r.properties.slots()[i]) is None,
            ({
                let (ex, rk, m) = crate::amqp::args::publish_fields(publish_args@);
                &&& vstd::utf8::encode_utf8(r.exchange@) == ex
                &&& vstd::utf8::encode_utf8(r.routing_key@) == rk
                &&& r.mandatory == (m % 2 == 1)
            }),
    {
        let (exchange, routing_key, mandatory, _immediate) = parse_publish_args(publish_args);
        ContentState {
            exchange,
            routing_key,
            mandatory,
            properties: BasicProperties::default(),
            body_size: 0,
            body_received: Vec::new(),
            channel,
        }
    }

    /// Whether every announced body byte has arrived.
    pub fn is_complete(&self) -> (r: bool)
        ensures
            r == (self.body_received@.len() >= self.body_size),
    {
        self.body_received.len() as u64 >= self.body_size
    }
}

/// Handles a content header frame: records the body size and properties
/// of the publish in progress; it is complete at once when the body is
/// empty. A header that does not read drops the publish.
pub fn content_header(state: &mut Option<ContentState>, payload: &[u8]) -> (r: ContentStep)
    ensures
        (*old(state)) is None ==> r == ContentStep::NoPublish && *final(state) == *old(state),
        (*old(state)) is Some && decode_header_spec(payload@) is Err ==> r == ContentStep::Dropped
            && (*final(state)) is None,
        (*old(state)) is Some && decode_header_spec(payload@) is Ok ==> ({
            let (_, n, sl) = decode_header_spec(payload@)->Ok_0;
            let o = (*old(state))->Some_0;
            &&& (*final(state)) matches Some(s) && s.body_size == n && s.properties.slots() == sl
                && s.body_received@ == o.body_received@ && s.channel == o.channel && s.exchange
                == o.exchange && s.routing_key == o.routing_key && s.mandatory == o.mandatory
            &&& r == if n == 0 { ContentStep::Complete } else { ContentStep::Waiting }
        }),
{
    if state.is_none() {
        return ContentStep::NoPublish;
    }
    match decode_content_header(payload) {
        Err(_) => {
            *state = None;
            ContentStep::Dropped
        },
        Ok(header) => {
            let mut cs = state.take().unwrap();
            cs.body_size = header.body_size;
            cs.properties = header.properties;
            let done = header.body_size == 0;
            *state = Some(cs);
            if done {
                ContentStep::Complete
            } else {
                ContentStep::Waiting
            }
        },
    }
}

/// Handles a content body frame: appends its bytes to the publish in
/// progress, which is complete once the announced size is reached.
pub fn content_body(state: &mut Option<ContentState>, payload: &[u8]) -> (r: ContentStep)
    ensures
        (*old(state)) is None ==> r == ContentStep::NoPublish && *final(state) == *old(state),
        (*old(state)) is Some ==> ({
            let o = (*old(state))->Some_0;
            &&& (*final(state)) matches Some(s) && s.body_received@ == o.body_received@ + payload@
                && s.body_size == o.body_size && s.channel == o.channel && s.exchange == o.exchange
                && s.routing_key == o.routing_key && s.mandatory == o.mandatory && s.properties
                == o.properties
            &&& r == if o.body_received@.len() + payload@.len() >= o.body_size {
                ContentStep::Complete
            } else {
                ContentStep::Waiting
            }
        }),
{
    if state.is_none() {
        return ContentStep::NoPublish;
    }
    let mut cs = state.take().unwrap();
    crate::amqp::types::push_all(&mut cs.body_received, payload);
    let done = cs.is_complete();
    *state = Some(cs);
    if done {
        ContentStep::Complete
    } else {
        ContentStep::Waiting
    }
}

} // verus!
