//! The opening handshake of an AMQP connection as a state machine: each
//! step takes what the client sent (or what an outside check answered)
//! and gives the next state and what to do.
//!
//! Protocol header, then `Start` / `Start-Ok` (credentials, checked
//! outside), `Tune` / `Tune-Ok`, `Open` (virtual host, checked outside),
//! and `Open-Ok`.

use vstd::prelude::*;
use vstd::utf8::*;
use vstd::string::*;
use crate::amqp::codec::{
    decode_method, encode_method_frame, frame_bytes, method_payload, protocol_header,
    DEFAULT_CHANNEL_MAX, DEFAULT_FRAME_MAX, DEFAULT_HEARTBEAT, FRAME_METHOD,
};
use crate::amqp::connection::{
    build_connection_close, build_connection_open_ok, build_connection_start,
    build_connection_tune, connection_start_bytes, negotiated, parse_connection_open,
    parse_start_ok_credentials, parse_tune_ok, start_ok_credentials,
};
use crate::amqp::method::{
    ACCESS_REFUSED, CLASS_CONNECTION, METHOD_CONNECTION_CLOSE, METHOD_CONNECTION_OPEN,
    METHOD_CONNECTION_OPEN_OK, METHOD_CONNECTION_START, METHOD_CONNECTION_START_OK,
    METHOD_CONNECTION_TUNE, METHOD_CONNECTION_TUNE_OK, NOT_ALLOWED,
};
use crate::amqp::types::{be16, be32, from_be16, from_be32, shortstr_bytes, utf8_lossy};
use crate::routing::topic::bytes_eq;
use crate::text::slices::lemma_encode_utf8_concat;

verus! {

/// Where a connection's handshake stands.
#[derive(Debug, Clone, Copy, PartialEq, Eq, Structural)]
pub enum HandshakeState {
    /// Waiting for the eight-byte protocol header.
    AwaitingHeader,
    /// `Connection.Start` sent; waiting for `Start-Ok`.
    AwaitingStartOk,
    /// Credentials received; waiting for the outcome of their check.
    Authenticating,
    /// `Connection.Tune` sent; waiting for `Tune-Ok`.
    AwaitingTuneOk,
    /// Tuned; waiting for `Connection.Open`.
    AwaitingOpen,
    /// Virtual host named; waiting for the outcome of its check.
    CheckingVhost,
    /// `Open-Ok` sent: the connection is open.
    Open,
    /// The handshake failed; the connection is to be dropped.
    Failed,
}

/// What the handshake is given.
pub enum HandshakeEvent {
    /// The first eight bytes read from the client.
    Header(Vec<u8>),
    /// The payload of a frame read from the client.
    Frame(Vec<u8>),
    /// The outcome of checking the credentials: the reason when refused.
    Authenticated(Result<(), String>),
    /// The outcome of checking the virtual host: whether it exists and
    /// whether the user may use it.
    VhostChecked { exists: bool, allowed: bool },
}

/// What to do after a step.
pub enum HandshakeAction {
    /// Send these bytes and wait for the next frame.
    Send(Vec<u8>),
    /// Send the server's protocol header and close the connection.
    RejectHeader(Vec<u8>),
    /// Check these credentials and report with `Authenticated`.
    Authenticate { user: String, password: String },
    /// Record the tuned limits and wait for the next frame.
    Tuned { channel_max: u16, frame_max: u32, heartbeat: u16 },
    /// Check this virtual host for the user and report with
    /// `VhostChecked`.
    CheckVhost(String),
    /// Send this `Connection.Close` frame and close the connection.
    Close(Vec<u8>),
    /// Close the connection without a word.
    Abort,
}

/// The bytes of a method frame of the connection class on channel 0.
pub open spec fn connection_frame(method_id: u16, args: Seq<u8>) -> Seq<u8> {
    frame_bytes(FRAME_METHOD, 0, method_payload(CLASS_CONNECTION, method_id, args))
}

/// The arguments of `Connection.Close` for a refusal of `method_id`.
pub open spec fn close_args(code: u16, text: Seq<u8>, method_id: u16) -> Seq<u8> {
    be16(code) + shortstr_bytes(text) + be16(CLASS_CONNECTION) + be16(method_id)
}

/// Whether a frame payload is the connection-class method `method_id`.
pub open spec fn is_connection_method(p: Seq<u8>, method_id: u16) -> bool {
    p.len() >= 4 && from_be16(p.subrange(0, 2)) == CLASS_CONNECTION && from_be16(p.subrange(2, 4))
        == method_id
}

/// The arguments of a method frame payload.
pub open spec fn method_args(p: Seq<u8>) -> Seq<u8> {
    p.subrange(4, p.len() as int)
}

/// The protocol header of AMQP 0-9-1.
pub open spec fn amqp_header() -> Seq<u8> {
    seq![65u8, 77u8, 81u8, 80u8, 0u8, 0u8, 9u8, 1u8]
}

/// Whether a step's requirement on what it is given holds: a refusal
/// reason must fit a close frame's reply text after its prefix.
pub open spec fn event_fits(e: &HandshakeEvent) -> bool {
    match e {
        HandshakeEvent::Authenticated(Err(reason)) => encode_utf8(reason@).len() + 17 <= 255,
        _ => true,
    }
}

/// The text `ACCESS_REFUSED - ` that starts an authentication refusal.
pub open spec fn refusal_prefix() -> Seq<char> {
    "ACCESS_REFUSED - "@
}

/// Whether a `Connection.Open` payload names a virtual host that reads.
pub open spec fn open_names_vhost(p: Seq<u8>) -> bool {
    let a = method_args(p);
    let n = a[0] as int;
    is_connection_method(p, METHOD_CONNECTION_OPEN) && a.len() >= 1 && a.len() >= 1 + n && valid_utf8(
        a.subrange(1, 1 + n),
    )
}

/// The state a step leads to.
pub open spec fn handshake_next(s: HandshakeState, e: HandshakeEvent) -> HandshakeState {
    match (s, e) {
        (HandshakeState::AwaitingHeader, HandshakeEvent::Header(h)) => if h@ == amqp_header() {
            HandshakeState::AwaitingStartOk
        } else {
            HandshakeState::Failed
        },
        (HandshakeState::AwaitingStartOk, HandshakeEvent::Frame(p)) => if is_connection_method(
            p@,
            METHOD_CONNECTION_START_OK,
        ) && start_ok_credentials(method_args(p@)) is Some {
            HandshakeState::Authenticating
        } else {
            HandshakeState::Failed
        },
        (HandshakeState::Authenticating, HandshakeEvent::Authenticated(o)) => if o is Ok {
            HandshakeState::AwaitingTuneOk
        } else {
            HandshakeState::Failed
        },
        (HandshakeState::AwaitingTuneOk, HandshakeEvent::Frame(p)) => if is_connection_method(
            p@,
            METHOD_CONNECTION_TUNE_OK,
        ) && method_args(p@).len() >= 8 {
            HandshakeState::AwaitingOpen
        } else {
            HandshakeState::Failed
        },
        (HandshakeState::AwaitingOpen, HandshakeEvent::Frame(p)) => if open_names_vhost(p@) {
            HandshakeState::CheckingVhost
        } else {
            HandshakeState::Failed
        },
        (HandshakeState::CheckingVhost, HandshakeEvent::VhostChecked { exists, allowed }) => if exists
            && allowed {
            HandshakeState::Open
        } else {
            HandshakeState::Failed
        },
        _ => HandshakeState::Failed,
    }
}

/// The state after a run of steps from the start.
pub open spec fn handshake_run(events: Seq<HandshakeEvent>) -> HandshakeState
    decreases events.len(),
{
    if events.len() == 0 {
        HandshakeState::AwaitingHeader
    } else {
        handshake_next(handshake_run(events.drop_last()), events.last())
    }
}

/// Whether an event accepts the credentials.
pub open spec fn accepts_credentials(e: HandshakeEvent) -> bool {
    e matches HandshakeEvent::Authenticated(Ok(()))
}

/// Whether an event accepts the virtual host.
pub open spec fn accepts_vhost(e: HandshakeEvent) -> bool {
    e matches HandshakeEvent::VhostChecked { exists: true, allowed: true }
}

/// Whether a state comes after the credentials were accepted.
pub open spec fn past_authentication(s: HandshakeState) -> bool {
    s == HandshakeState::AwaitingTuneOk || s == HandshakeState::AwaitingOpen || s
        == HandshakeState::CheckingVhost || s == HandshakeState::Open
}

/// Along any run, a state past authentication was reached through an
/// accepted check of the credentials, and the open state through an
/// accepted check of the virtual host.
proof fn lemma_run_invariant(events: Seq<HandshakeEvent>)
    ensures
        past_authentication(handshake_run(events)) ==> exists|i: int|
            0 <= i < events.len() && accepts_credentials(#[trigger] events[i]),
        handshake_run(events) == HandshakeState::Open ==> exists|j: int|
            0 <= j < events.len() && accepts_vhost(#[trigger] events[j]),
    decreases events.len(),
{
    if events.len() > 0 {
        let prev = events.drop_last();
        lemma_run_invariant(prev);
        let s = handshake_run(prev);
        let e = events.last();
        let n = events.len() - 1;
        assert(events[n] == e);
        if past_authentication(s) {
            let i = choose|i: int| 0 <= i < prev.len() && accepts_credentials(#[trigger] prev[i]);
            assert(events[i] == prev[i]);
        }
    }
}

/// A connection opens only after its credentials and its virtual host
/// were both accepted.
pub proof fn lemma_open_only_after_checks(events: Seq<HandshakeEvent>)
    requires
        handshake_run(events) == HandshakeState::Open,
    ensures
        exists|i: int| 0 <= i < events.len() && accepts_credentials(#[trigger] events[i]),
        exists|j: int| 0 <= j < events.len() && accepts_vhost(#[trigger] events[j]),
{
    lemma_run_invariant(events);
}

/// Builds a connection-class method frame on channel 0.
fn connection_method_frame(method_id: u16, args: &[u8]) -> (r: Vec<u8>)
    requires
        args@.len() + 4 <= u32::MAX,
    ensures
        r@ == connection_frame(method_id, args@),
{
    encode_method_frame(0, CLASS_CONNECTION, method_id, args)
}

/// Builds the `Connection.Close` frame refusing `method_id`.
fn close_frame(code: u16, text: &str, method_id: u16) -> (r: Vec<u8>)
    requires
        text.spec_bytes().len() <= 255,
    ensures
        r@ == connection_frame(METHOD_CONNECTION_CLOSE, close_args(code, text.spec_bytes(), method_id)),
{
    let args = build_connection_close(code, text, CLASS_CONNECTION, method_id);
    connection_method_frame(METHOD_CONNECTION_CLOSE, args.as_slice())
}

/// The UTF-8 length of the refusal prefix.
proof fn lemma_prefix_len()
    ensures
        encode_utf8(refusal_prefix()).len() == 17,
        refusal_prefix().len() == 17,
{
    reveal_strlit("ACCESS_REFUSED - ");
    is_ascii_chars_encode_utf8(refusal_prefix());
}

/// Takes one step of the handshake.
///
/// From `AwaitingHeader`, a header equal to AMQP 0-9-1's leads to
/// `AwaitingStartOk` and sending `Connection.Start`; another is answered
/// with the server's header and the connection fails. From
/// `AwaitingStartOk`, a `Start-Ok` carrying credentials leads to
/// checking them. A refusal closes with `ACCESS_REFUSED - <reason>`;
/// acceptance sends `Connection.Tune` with the server's limits. A
/// `Tune-Ok` settles the limits; `Connection.Open` names the virtual
/// host to check. A missing host closes with `NOT_ALLOWED`, a forbidden
/// one with `ACCESS_REFUSED`; otherwise `Open-Ok` is sent and the
/// connection is open. Anything else fails without a reply.
pub fn handshake_step(state: HandshakeState, event: HandshakeEvent) -> (r: (
    HandshakeState,
    HandshakeAction,
))
    requires
        event_fits(&event),
    ensures
        r.0 == handshake_next(state, event),
        match (state, event) {
            (HandshakeState::AwaitingHeader, HandshakeEvent::Header(h)) => if h@ == amqp_header() {
                r.0 == HandshakeState::AwaitingStartOk && (r.1 matches HandshakeAction::Send(f)
                    && f@ == connection_frame(METHOD_CONNECTION_START, connection_start_bytes()))
            } else {
                r.0 == HandshakeState::Failed && (r.1 matches HandshakeAction::RejectHeader(b)
                    && b@ == amqp_header())
            },
            (HandshakeState::AwaitingStartOk, HandshakeEvent::Frame(p)) => if is_connection_method(
                p@,
                METHOD_CONNECTION_START_OK,
            ) && start_ok_credentials(method_args(p@)) is Some {
                let (u, pw) = start_ok_credentials(method_args(p@))->Some_0;
                r.0 == HandshakeState::Authenticating && (r.1 matches HandshakeAction::Authenticate {
                    user,
                    password,
                } && user@ == utf8_lossy(u) && password@ == utf8_lossy(pw))
            } else {
                r.0 == HandshakeState::Failed && r.1 is Abort
            },
            (HandshakeState::Authenticating, HandshakeEvent::Authenticated(outcome)) => match outcome {
                Ok(()) => r.0 == HandshakeState::AwaitingTuneOk && (r.1 matches HandshakeAction::Send(
                    f,
                ) && f@ == connection_frame(
                    METHOD_CONNECTION_TUNE,
                    be16(DEFAULT_CHANNEL_MAX) + be32(DEFAULT_FRAME_MAX) + be16(DEFAULT_HEARTBEAT),
                )),
                Err(reason) => r.0 == HandshakeState::Failed && (r.1 matches HandshakeAction::Close(
                    f,
                ) && f@ == connection_frame(
                    METHOD_CONNECTION_CLOSE,
                    close_args(
                        ACCESS_REFUSED,
                        encode_utf8(refusal_prefix() + reason@),
                        METHOD_CONNECTION_START_OK,
                    ),
                )),
            },
            (HandshakeState::AwaitingTuneOk, HandshakeEvent::Frame(p)) => if is_connection_method(
                p@,
                METHOD_CONNECTION_TUNE_OK,
            ) && method_args(p@).len() >= 8 {
                let a = method_args(p@);
                r.0 == HandshakeState::AwaitingOpen && (r.1 matches HandshakeAction::Tuned {
                    channel_max,
                    frame_max,
                    heartbeat,
                } && channel_max == negotiated(
                    from_be16(a.subrange(0, 2)) as int,
                    DEFAULT_CHANNEL_MAX as int,
                ) && frame_max == negotiated(
                    from_be32(a.subrange(2, 6)) as int,
                    DEFAULT_FRAME_MAX as int,
                ) && heartbeat == from_be16(a.subrange(6, 8)))
            } else {
                r.0 == HandshakeState::Failed && r.1 is Abort
            },
            (HandshakeState::AwaitingOpen, HandshakeEvent::Frame(p)) => {
                let a = method_args(p@);
                let n = a[0] as int;
                if is_connection_method(p@, METHOD_CONNECTION_OPEN) && a.len() >= 1 && a.len() >= 1
                    + n && valid_utf8(a.subrange(1, 1 + n)) {
                    r.0 == HandshakeState::CheckingVhost && (r.1 matches HandshakeAction::CheckVhost(v)
                        && encode_utf8(v@) == a.subrange(1, 1 + n))
                } else {
                    r.0 == HandshakeState::Failed && r.1 is Abort
                }
            },
            (HandshakeState::CheckingVhost, HandshakeEvent::VhostChecked { exists, allowed }) => if !exists {
                r.0 == HandshakeState::Failed && (r.1 matches HandshakeAction::Close(f) && f@
                    == connection_frame(
                    METHOD_CONNECTION_CLOSE,
                    close_args(
                        NOT_ALLOWED,
                        "NOT_ALLOWED - vhost not found".spec_bytes(),
                        METHOD_CONNECTION_OPEN,
                    ),
                ))
            } else if !allowed {
                r.0 == HandshakeState::Failed && (r.1 matches HandshakeAction::Close(f) && f@
                    == connection_frame(
                    METHOD_CONNECTION_CLOSE,
                    close_args(
                        ACCESS_REFUSED,
                        "ACCESS_REFUSED - no access to vhost".spec_bytes(),
                        METHOD_CONNECTION_OPEN,
                    ),
                ))
            } else {
                r.0 == HandshakeState::Open && (r.1 matches HandshakeAction::Send(f) && f@
                    == connection_frame(METHOD_CONNECTION_OPEN_OK, seq![0u8]))
            },
            _ => r.0 == HandshakeState::Failed && r.1 is Abort,
        },
{
    match (state, event) {
        (HandshakeState::AwaitingHeader, HandshakeEvent::Header(h)) => {
            let ours = protocol_header();
            if bytes_eq(h.as_slice(), &ours) {
                let args = build_connection_start();
                let f = connection_method_frame(METHOD_CONNECTION_START, args.as_slice());
                (HandshakeState::AwaitingStartOk, HandshakeAction::Send(f))
            } else {
                let mut b: Vec<u8> = Vec::new();
                let mut i: usize = 0;
                while i < 8
                    invariant
                        i <= 8,
                        ours@ == amqp_header(),
                        b@ == ours@.subrange(0, i as int),
                    decreases 8 - i,
                {
                    b.push(ours[i]);
                    i = i + 1;
                    assert(b@ =~= ours@.subrange(0, i as int));
                }
                assert(b@ =~= amqp_header());
                (HandshakeState::Failed, HandshakeAction::RejectHeader(b))
            }
        },
        (HandshakeState::AwaitingStartOk, HandshakeEvent::Frame(p)) => {
            let m = match decode_method(p.as_slice()) {
                Ok(m) => m,
                Err(_) => {
                    return (HandshakeState::Failed, HandshakeAction::Abort);
                },
            };
            if m.class_id != CLASS_CONNECTION || m.method_id != METHOD_CONNECTION_START_OK {
                return (HandshakeState::Failed, HandshakeAction::Abort);
            }
            match parse_start_ok_credentials(m.arguments.as_slice()) {
                Ok((user, password)) => (
                    HandshakeState::Authenticating,
                    HandshakeAction::Authenticate { user, password },
                ),
                Err(_) => (HandshakeState::Failed, HandshakeAction::Abort),
            }
        },
        (HandshakeState::Authenticating, HandshakeEvent::Authenticated(outcome)) => match outcome {
            Ok(()) => {
                let args = build_connection_tune(
                    DEFAULT_CHANNEL_MAX,
                    DEFAULT_FRAME_MAX,
                    DEFAULT_HEARTBEAT,
                );
                let f = connection_method_frame(METHOD_CONNECTION_TUNE, args.as_slice());
                (HandshakeState::AwaitingTuneOk, HandshakeAction::Send(f))
            },
            Err(reason) => {
                let mut text = String::from_str("ACCESS_REFUSED - ");
                text.append(reason.as_str());
                proof {
                    lemma_prefix_len();
                    lemma_encode_utf8_concat(refusal_prefix(), reason@);
                }
                let f = close_frame(ACCESS_REFUSED, text.as_str(), METHOD_CONNECTION_START_OK);
                (HandshakeState::Failed, HandshakeAction::Close(f))
            },
        },
        (HandshakeState::AwaitingTuneOk, HandshakeEvent::Frame(p)) => {
            let m = match decode_method(p.as_slice()) {
                Ok(m) => m,
                Err(_) => {
                    return (HandshakeState::Failed, HandshakeAction::Abort);
                },
            };
            if m.class_id != CLASS_CONNECTION || m.method_id != METHOD_CONNECTION_TUNE_OK {
                return (HandshakeState::Failed, HandshakeAction::Abort);
            }
            match parse_tune_ok(m.arguments.as_slice()) {
                Ok((channel_max, frame_max, heartbeat)) => (
                    HandshakeState::AwaitingOpen,
                    HandshakeAction::Tuned { channel_max, frame_max, heartbeat },
                ),
                Err(_) => (HandshakeState::Failed, HandshakeAction::Abort),
            }
        },
        (HandshakeState::AwaitingOpen, HandshakeEvent::Frame(p)) => {
            let m = match decode_method(p.as_slice()) {
                Ok(m) => m,
                Err(_) => {
                    return (HandshakeState::Failed, HandshakeAction::Abort);
                },
            };
            if m.class_id != CLASS_CONNECTION || m.method_id != METHOD_CONNECTION_OPEN {
                return (HandshakeState::Failed, HandshakeAction::Abort);
            }
            match parse_connection_open(m.arguments.as_slice()) {
                Ok(vhost) => (HandshakeState::CheckingVhost, HandshakeAction::CheckVhost(vhost)),
                Err(_) => (HandshakeState::Failed, HandshakeAction::Abort),
            }
        },
        (HandshakeState::CheckingVhost, HandshakeEvent::VhostChecked { exists, allowed }) => {
            if !exists {
                proof {
                    reveal_strlit("NOT_ALLOWED - vhost not found");
                    is_ascii_chars_encode_utf8("NOT_ALLOWED - vhost not found"@);
                }
                let f = close_frame(NOT_ALLOWED, "NOT_ALLOWED - vhost not found", METHOD_CONNECTION_OPEN);
                (HandshakeState::Failed, HandshakeAction::Close(f))
            } else if !allowed {
                proof {
                    reveal_strlit("ACCESS_REFUSED - no access to vhost");
                    is_ascii_chars_encode_utf8("ACCESS_REFUSED - no access to vhost"@);
                }
                let f = close_frame(
                    ACCESS_REFUSED,
                    "ACCESS_REFUSED - no access to vhost",
                    METHOD_CONNECTION_OPEN,
                );
                (HandshakeState::Failed, HandshakeAction::Close(f))
            } else {
                let args = build_connection_open_ok();
                let f = connection_method_frame(METHOD_CONNECTION_OPEN_OK, args.as_slice());
                (HandshakeState::Open, HandshakeAction::Send(f))
            }
        },
        _ => (HandshakeState::Failed, HandshakeAction::Abort),
    }
}

} // verus!
