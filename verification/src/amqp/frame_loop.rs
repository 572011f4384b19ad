//! The decisions of a connection's read loop: what to do with each frame
//! read, and when the peer has been silent too long. The loop itself
//! (reading, writing, waiting) is the caller's.
//!
//! Frames are checked as AMQP 0-9-1 asks: the type must be one the
//! protocol defines, the payload must fit the negotiated frame size (the
//! 7-octet header and the end octet count towards it), the channel must
//! not exceed the negotiated channel maximum, and a heartbeat must come on
//! channel 0 with an empty payload.

use vstd::prelude::*;
use crate::amqp::codec::{FRAME_BODY, FRAME_HEADER, FRAME_HEARTBEAT, FRAME_METHOD};
use crate::amqp::method::{CHANNEL_ERROR, FRAME_ERROR, UNEXPECTED_FRAME};

verus! {

/// What the loop does with a frame.
#[derive(Debug, Clone, Copy, PartialEq, Eq, Structural)]
pub enum FrameVerdict {
    /// Close the connection: a frame type the protocol does not define.
    UnexpectedFrame,
    /// Close the connection: the frame exceeds the negotiated size.
    FrameTooLarge,
    /// Close the connection: the channel exceeds the negotiated maximum.
    InvalidChannel,
    /// Close the connection: a heartbeat off channel 0 or with a payload.
    InvalidHeartbeat,
    /// Hand the payload to method dispatch.
    Method,
    /// Hand the payload to the content being assembled, as its header.
    Header,
    /// Hand the payload to the content being assembled, as body.
    Body,
    /// A heartbeat: nothing to do.
    Heartbeat,
}

/// The verdict on a frame of type `frame_type` on `channel` carrying
/// `payload_len` octets, under the negotiated `frame_max` (0: no limit)
/// and `channel_max`: the checks in the loop's order.
pub open spec fn frame_verdict(frame_type: u8, channel: u16, payload_len: nat, frame_max: u32, channel_max: u16) -> FrameVerdict {
    if frame_type != FRAME_METHOD && frame_type != FRAME_HEADER && frame_type != FRAME_BODY && frame_type != FRAME_HEARTBEAT {
        FrameVerdict::UnexpectedFrame
    } else if frame_max > 0 && payload_len + 8 > frame_max {
        FrameVerdict::FrameTooLarge
    } else if channel > channel_max {
        FrameVerdict::InvalidChannel
    } else if frame_type == FRAME_METHOD {
        FrameVerdict::Method
    } else if frame_type == FRAME_HEADER {
        FrameVerdict::Header
    } else if frame_type == FRAME_BODY {
        FrameVerdict::Body
    } else if channel != 0 || payload_len != 0 {
        FrameVerdict::InvalidHeartbeat
    } else {
        FrameVerdict::Heartbeat
    }
}

/// Decides what to do with a frame read.
pub fn frame_step(frame_type: u8, channel: u16, payload_len: usize, frame_max: u32, channel_max: u16) -> (r: FrameVerdict)
    ensures
        r == frame_verdict(frame_type, channel, payload_len as nat, frame_max, channel_max),
{
    if frame_type != FRAME_METHOD && frame_type != FRAME_HEADER && frame_type != FRAME_BODY && frame_type != FRAME_HEARTBEAT {
        FrameVerdict::UnexpectedFrame
    } else if frame_max > 0 && (payload_len as u128) + 8 > frame_max as u128 {
        FrameVerdict::FrameTooLarge
    } else if channel > channel_max {
        FrameVerdict::InvalidChannel
    } else if frame_type == FRAME_METHOD {
        FrameVerdict::Method
    } else if frame_type == FRAME_HEADER {
        FrameVerdict::Header
    } else if frame_type == FRAME_BODY {
        FrameVerdict::Body
    } else if channel != 0 || payload_len != 0 {
        FrameVerdict::InvalidHeartbeat
    } else {
        FrameVerdict::Heartbeat
    }
}

/// The reply code the connection is closed with, for a verdict that
/// closes it.
pub open spec fn verdict_close_code(v: FrameVerdict) -> Option<u16> {
    match v {
        FrameVerdict::UnexpectedFrame => Some(UNEXPECTED_FRAME),
        FrameVerdict::FrameTooLarge => Some(FRAME_ERROR),
        FrameVerdict::InvalidChannel => Some(CHANNEL_ERROR),
        FrameVerdict::InvalidHeartbeat => Some(FRAME_ERROR),
        _ => None,
    }
}

/// The reply code to close the connection with, or `None` to go on.
pub fn close_code(v: FrameVerdict) -> (r: Option<u16>)
    ensures
        r == verdict_close_code(v),
{
    match v {
        FrameVerdict::UnexpectedFrame => Some(UNEXPECTED_FRAME),
        FrameVerdict::FrameTooLarge => Some(FRAME_ERROR),
        FrameVerdict::InvalidChannel => Some(CHANNEL_ERROR),
        FrameVerdict::InvalidHeartbeat => Some(FRAME_ERROR),
        _ => None,
    }
}

/// How long the peer may stay silent, in milliseconds: twice the
/// heartbeat interval, which is the negotiated heartbeat, or the
/// fallback when none was negotiated.
pub open spec fn silence_limit(heartbeat_secs: u16, fallback_secs: u64) -> int {
    2 * 1000 * (if heartbeat_secs > 0 { heartbeat_secs as int } else { fallback_secs as int })
}

/// The heartbeat interval and the silence limit, in milliseconds.
pub fn heartbeat_timing(heartbeat_secs: u16, fallback_secs: u64) -> (r: (u64, u64))
    requires
        2 * 1000 * fallback_secs <= u64::MAX,
    ensures
        2 * r.0 == silence_limit(heartbeat_secs, fallback_secs),
        r.1 == silence_limit(heartbeat_secs, fallback_secs),
{
    let secs: u64 = if heartbeat_secs > 0 { heartbeat_secs as u64 } else { fallback_secs };
    assert(secs * 2000 <= u64::MAX) by (nonlinear_arith)
        requires
            secs == fallback_secs || secs <= 65535,
            2 * 1000 * fallback_secs <= u64::MAX,
    ;
    let interval = secs * 1000;
    (interval, interval * 2)
}

/// At a heartbeat tick: whether the peer has been silent longer than the
/// limit (then the connection ends; otherwise a heartbeat is sent).
pub fn silence_exceeded(idle_ms: u64, limit_ms: u64) -> (r: bool)
    ensures
        r == (idle_ms > limit_ms),
{
    idle_ms > limit_ms
}

/// Once a connection's frames pass the checks, no frame that is not a
/// heartbeat on channel 0 with an empty payload is taken for one.
pub proof fn lemma_only_clean_heartbeats_pass(frame_type: u8, channel: u16, payload_len: nat, frame_max: u32, channel_max: u16)
    ensures
        frame_verdict(frame_type, channel, payload_len, frame_max, channel_max) == FrameVerdict::Heartbeat ==> frame_type
            == FRAME_HEARTBEAT && channel == 0 && payload_len == 0,
        verdict_close_code(frame_verdict(frame_type, channel, payload_len, frame_max, channel_max)) is None ==> channel
            <= channel_max && (frame_max == 0 || payload_len + 8 <= frame_max),
{
}

} // verus!
