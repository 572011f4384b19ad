use rocketmq::amqp::codec::{decode_frame, decode_method, protocol_header, DEFAULT_CHANNEL_MAX, DEFAULT_FRAME_MAX};
use rocketmq::amqp::dispatch::{
    build_channel_open_ok, build_flow_ok, channel_close_code, flow_requested, route_method,
    stays_open, MethodRoute,
};
use rocketmq::amqp::handshake::{handshake_step, HandshakeAction, HandshakeEvent, HandshakeState};
use rocketmq::amqp::method::{
    ACCESS_REFUSED, CLASS_BASIC, CLASS_CHANNEL, CLASS_CONFIRM, CLASS_CONNECTION, CLASS_QUEUE,
    METHOD_BASIC_RECOVER_ASYNC, METHOD_CHANNEL_FLOW, METHOD_CONFIRM_SELECT,
    METHOD_CONNECTION_CLOSE, METHOD_CONNECTION_CLOSE_OK, METHOD_CONNECTION_OPEN,
    METHOD_CONNECTION_OPEN_OK, METHOD_CONNECTION_START, METHOD_CONNECTION_START_OK,
    METHOD_CONNECTION_TUNE, METHOD_CONNECTION_TUNE_OK, METHOD_QUEUE_DECLARE, NOT_ALLOWED,
};
use rocketmq::amqp::table::write_field_table;
use rocketmq::amqp::types::{write_long, write_longstr, write_short, write_shortstr, WireReader};

fn method_payload(class_id: u16, method_id: u16, args: &[u8]) -> Vec<u8> {
    let mut p = Vec::new();
    write_short(&mut p, class_id);
    write_short(&mut p, method_id);
    p.extend_from_slice(args);
    p
}

fn sent_method(action: &HandshakeAction) -> (u16, u16, Vec<u8>) {
    let bytes = match action {
        HandshakeAction::Send(f) | HandshakeAction::Close(f) => f,
        _ => panic!("expected a frame to send"),
    };
    let (frame, _) = decode_frame(bytes).unwrap();
    assert_eq!(frame.channel, 0);
    let m = decode_method(&frame.payload).unwrap();
    (m.class_id, m.method_id, m.arguments)
}

fn start_ok(user: &str, pass: &str) -> Vec<u8> {
    let mut args = Vec::new();
    write_field_table(&mut args, &[]).unwrap();
    write_shortstr(&mut args, "PLAIN").unwrap();
    let mut resp = vec![0u8];
    resp.extend_from_slice(user.as_bytes());
    resp.push(0);
    resp.extend_from_slice(pass.as_bytes());
    write_longstr(&mut args, &resp).unwrap();
    write_shortstr(&mut args, "en_US").unwrap();
    method_payload(CLASS_CONNECTION, METHOD_CONNECTION_START_OK, &args)
}

#[test]
fn handshake_runs_to_open() {
    let (s, a) = handshake_step(HandshakeState::AwaitingHeader, HandshakeEvent::Header(protocol_header().to_vec()));
    assert_eq!(s, HandshakeState::AwaitingStartOk);
    let (c, m, _) = sent_method(&a);
    assert_eq!((c, m), (CLASS_CONNECTION, METHOD_CONNECTION_START));

    let (s, a) = handshake_step(s, HandshakeEvent::Frame(start_ok("guest", "secret")));
    assert_eq!(s, HandshakeState::Authenticating);
    match a {
        HandshakeAction::Authenticate { user, password } => {
            assert_eq!(user, "guest");
            assert_eq!(password, "secret");
        }
        _ => panic!("expected an authentication request"),
    }

    let (s, a) = handshake_step(s, HandshakeEvent::Authenticated(Ok(())));
    assert_eq!(s, HandshakeState::AwaitingTuneOk);
    let (c, m, args) = sent_method(&a);
    assert_eq!((c, m), (CLASS_CONNECTION, METHOD_CONNECTION_TUNE));
    let mut r = WireReader::new(&args);
    assert_eq!(r.read_short().unwrap(), DEFAULT_CHANNEL_MAX);
    assert_eq!(r.read_long().unwrap(), DEFAULT_FRAME_MAX);
    assert_eq!(r.read_short().unwrap(), 60);

    let mut tune = Vec::new();
    write_short(&mut tune, 100);
    write_long(&mut tune, 0);
    write_short(&mut tune, 30);
    let (s, a) = handshake_step(s, HandshakeEvent::Frame(method_payload(CLASS_CONNECTION, METHOD_CONNECTION_TUNE_OK, &tune)));
    assert_eq!(s, HandshakeState::AwaitingOpen);
    match a {
        HandshakeAction::Tuned { channel_max, frame_max, heartbeat } => {
            assert_eq!((channel_max, frame_max, heartbeat), (100, DEFAULT_FRAME_MAX, 30));
        }
        _ => panic!("expected tuned limits"),
    }

    let mut open = Vec::new();
    write_shortstr(&mut open, "/").unwrap();
    write_shortstr(&mut open, "").unwrap();
    let (s, a) = handshake_step(s, HandshakeEvent::Frame(method_payload(CLASS_CONNECTION, METHOD_CONNECTION_OPEN, &open)));
    assert_eq!(s, HandshakeState::CheckingVhost);
    match a {
        HandshakeAction::CheckVhost(v) => assert_eq!(v, "/"),
        _ => panic!("expected a vhost check"),
    }

    let (s, a) = handshake_step(s, HandshakeEvent::VhostChecked { exists: true, allowed: true });
    assert_eq!(s, HandshakeState::Open);
    let (c, m, args) = sent_method(&a);
    assert_eq!((c, m, args), (CLASS_CONNECTION, METHOD_CONNECTION_OPEN_OK, vec![0]));
}

#[test]
fn handshake_refusals() {
    let (s, a) = handshake_step(HandshakeState::AwaitingHeader, HandshakeEvent::Header(b"HTTP/1.1".to_vec()));
    assert_eq!(s, HandshakeState::Failed);
    match a {
        HandshakeAction::RejectHeader(h) => assert_eq!(h, protocol_header().to_vec()),
        _ => panic!("expected our header back"),
    }

    let (s, a) = handshake_step(HandshakeState::Authenticating, HandshakeEvent::Authenticated(Err("bad password".to_string())));
    assert_eq!(s, HandshakeState::Failed);
    let (_, m, args) = sent_method(&a);
    assert_eq!(m, METHOD_CONNECTION_CLOSE);
    let mut r = WireReader::new(&args);
    assert_eq!(r.read_short().unwrap(), ACCESS_REFUSED);
    assert_eq!(r.read_shortstr().unwrap(), "ACCESS_REFUSED - bad password");
    assert_eq!(r.read_short().unwrap(), CLASS_CONNECTION);
    assert_eq!(r.read_short().unwrap(), METHOD_CONNECTION_START_OK);

    let (_, a) = handshake_step(HandshakeState::CheckingVhost, HandshakeEvent::VhostChecked { exists: false, allowed: true });
    let (_, _, args) = sent_method(&a);
    let mut r = WireReader::new(&args);
    assert_eq!(r.read_short().unwrap(), NOT_ALLOWED);
    assert_eq!(r.read_shortstr().unwrap(), "NOT_ALLOWED - vhost not found");

    let (_, a) = handshake_step(HandshakeState::CheckingVhost, HandshakeEvent::VhostChecked { exists: true, allowed: false });
    let (_, _, args) = sent_method(&a);
    let mut r = WireReader::new(&args);
    assert_eq!(r.read_short().unwrap(), ACCESS_REFUSED);
    assert_eq!(r.read_shortstr().unwrap(), "ACCESS_REFUSED - no access to vhost");

    // A method other than the one awaited ends the handshake silently.
    let (s, a) = handshake_step(HandshakeState::AwaitingStartOk, HandshakeEvent::Frame(method_payload(CLASS_QUEUE, METHOD_QUEUE_DECLARE, &[])));
    assert_eq!(s, HandshakeState::Failed);
    assert!(matches!(a, HandshakeAction::Abort));
    let (s, a) = handshake_step(HandshakeState::Open, HandshakeEvent::Frame(vec![]));
    assert_eq!(s, HandshakeState::Failed);
    assert!(matches!(a, HandshakeAction::Abort));
}

#[test]
fn dispatch_routes_methods() {
    assert_eq!(route_method(CLASS_CONNECTION, METHOD_CONNECTION_CLOSE), MethodRoute::ConnectionClose);
    assert_eq!(route_method(CLASS_QUEUE, METHOD_QUEUE_DECLARE), MethodRoute::QueueDeclare);
    assert_eq!(route_method(CLASS_BASIC, METHOD_BASIC_RECOVER_ASYNC), MethodRoute::BasicRecover);
    assert_eq!(route_method(CLASS_CONFIRM, METHOD_CONFIRM_SELECT), MethodRoute::ConfirmSelect);
    assert_eq!(route_method(CLASS_CHANNEL, METHOD_CHANNEL_FLOW), MethodRoute::ChannelFlow);
    assert_eq!(route_method(CLASS_CHANNEL, 99), MethodRoute::Unhandled);
    assert_eq!(route_method(999, 10), MethodRoute::Unhandled);
    assert!(!stays_open(route_method(CLASS_CONNECTION, METHOD_CONNECTION_CLOSE)));
    assert!(!stays_open(route_method(CLASS_CONNECTION, METHOD_CONNECTION_CLOSE_OK)));
    assert!(stays_open(route_method(CLASS_CHANNEL, 99)));
}

#[test]
fn channel_class_replies() {
    assert!(flow_requested(&[]));
    assert!(flow_requested(&[2]));
    assert!(!flow_requested(&[0, 1]));
    assert_eq!(build_flow_ok(true), vec![1]);
    assert_eq!(build_flow_ok(false), vec![0]);
    assert_eq!(build_channel_open_ok(), vec![0, 0, 0, 0]);
    assert_eq!(channel_close_code(&[0, 200, 0, 0]), Some(200));
    assert_eq!(channel_close_code(&[1, 0, 0]), None);
}
