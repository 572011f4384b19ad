//! The frames that deliver a queued message to a consumer.

use vstd::prelude::*;
use vstd::utf8::*;
use vstd::string::*;
use crate::amqp::args::build_deliver_args;
use crate::amqp::codec::{
    encode_body_frame, encode_content_header, encode_method_frame, frame_bytes, header_payload,
    method_payload, FRAME_BODY, FRAME_HEADER, FRAME_METHOD,
};
use crate::amqp::method::{CLASS_BASIC, METHOD_BASIC_DELIVER};
use crate::amqp::properties::{decode_properties, encode_properties, BasicProperties, PropValue};
use crate::amqp::types::{be64, push_all, shortstr_bytes, WireReader};
use crate::queue::message::Message;

verus! {

/// A property list with no property present.
pub open spec fn no_properties() -> Seq<Option<PropValue>> {
    Seq::new(14, |i: int| None)
}

/// The properties a delivery carries: those the stored header bytes
/// decode to, or none when there are no header bytes or they do not
/// decode.
pub open spec fn delivery_properties(headers: Seq<u8>) -> Seq<Option<PropValue>> {
    if headers.len() == 0 {
        no_properties()
    } else {
        match decode_properties(headers) {
            Ok((sl, _)) => sl,
            Err(_) => no_properties(),
        }
    }
}

/// The arguments of the `Basic.Deliver` for `msg` under `consumer_tag`.
pub open spec fn deliver_args(consumer_tag: Seq<u8>, msg: Message) -> Seq<u8> {
    shortstr_bytes(consumer_tag) + be64(msg.id) + seq![if msg.redelivered { 1u8 } else { 0u8 }]
        + shortstr_bytes(encode_utf8(msg.exchange@)) + shortstr_bytes(encode_utf8(msg.routing_key@))
}

/// The frames that deliver `msg`: the `Basic.Deliver` method, the content
/// header, and one body frame unless the body is empty.
pub open spec fn delivery_frames(channel: u16, consumer_tag: Seq<u8>, msg: Message) -> Seq<u8> {
    frame_bytes(FRAME_METHOD, channel, method_payload(CLASS_BASIC, METHOD_BASIC_DELIVER, deliver_args(consumer_tag, msg)))
        + frame_bytes(
        FRAME_HEADER,
        channel,
        header_payload(CLASS_BASIC, msg.body@.len() as u64, encode_properties(delivery_properties(msg.headers@))->Ok_0),
    ) + if msg.body@.len() == 0 {
        Seq::<u8>::empty()
    } else {
        frame_bytes(FRAME_BODY, channel, msg.body@)
    }
}

/// Encodes the full frame set that delivers `msg` on `channel` under
/// `consumer_tag`, with the delivery tag the message id.
pub fn encode_delivery_frames(channel: u16, consumer_tag: &str, msg: &Message) -> (r: Vec<u8>)
    requires
        consumer_tag.spec_bytes().len() <= 255,
        encode_utf8(msg.exchange@).len() <= 255,
        encode_utf8(msg.routing_key@).len() <= 255,
        msg.body@.len() <= u32::MAX,
        encode_properties(delivery_properties(msg.headers@)) is Ok,
        encode_properties(delivery_properties(msg.headers@))->Ok_0.len() + 12 <= u32::MAX,
    ensures
        r@ == delivery_frames(channel, consumer_tag.spec_bytes(), *msg),
{
    let properties = if msg.headers.len() == 0 {
        BasicProperties::default()
    } else {
        let mut rd = WireReader::new(msg.headers.as_slice());
        assert(rd.rest() =~= msg.headers@);
        match BasicProperties::decode(&mut rd) {
            Ok(p) => p,
            Err(_) => BasicProperties::default(),
        }
    };
    assert(properties.slots() =~= delivery_properties(msg.headers@));
    let args = build_deliver_args(
        consumer_tag,
        msg.id,
        msg.redelivered,
        msg.exchange.as_str(),
        msg.routing_key.as_str(),
    );
    assert(args@ =~= deliver_args(consumer_tag.spec_bytes(), *msg));
    let method_frame = encode_method_frame(channel, CLASS_BASIC, METHOD_BASIC_DELIVER, args.as_slice());
    let header_frame = encode_content_header(channel, CLASS_BASIC, msg.body.len() as u64, &properties);
    let mut combined: Vec<u8> = Vec::new();
    push_all(&mut combined, method_frame.as_slice());
    push_all(&mut combined, header_frame.as_slice());
    if msg.body.len() > 0 {
        let body_frame = encode_body_frame(channel, msg.body.as_slice());
        push_all(&mut combined, body_frame.as_slice());
    }
    assert(combined@ =~= delivery_frames(channel, consumer_tag.spec_bytes(), *msg));
    combined
}

} // verus!
