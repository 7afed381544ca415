use bytes::BytesMut;
use rcon_rs::codec::PacketCodec;
use rcon_rs::packet::{Packet, PacketError, PacketType};
use rcon_rs::server::{Request, ServerSession, AUTH_REFUSED_ID};

fn auth(id: i32, password: &str) -> Packet {
    Packet { ptype: PacketType::Auth, id, body: String::from(password) }
}

fn exec(id: i32, command: &str) -> Packet {
    Packet { ptype: PacketType::ExecCommand, id, body: String::from(command) }
}

fn is_skip(r: &Request) -> bool {
    matches!(r, Request::Skip)
}

#[test]
fn session_starts_unauthenticated() {
    assert!(!ServerSession::new().authenticated());
}

#[test]
fn password_is_passed_to_the_handler() {
    let s = ServerSession::new();
    match s.on_message(Some(Ok(auth(42, "secret")))) {
        Request::Authenticate { password, id } => {
            assert_eq!(password, "secret");
            assert_eq!(id, 42);
        }
        _ => panic!("expected an authentication request"),
    }
    assert!(!s.authenticated());
}

#[test]
fn accepted_password_authenticates() {
    let mut s = ServerSession::new();
    let reply = s.auth_reply(42, true);
    assert_eq!(reply, Packet { ptype: PacketType::ResponseValue, id: 42, body: String::new() });
    assert!(s.authenticated());
}

#[test]
fn refused_password_gets_the_refusal_id() {
    let mut s = ServerSession::new();
    let reply = s.auth_reply(7, false);
    assert_eq!(AUTH_REFUSED_ID, -1);
    assert_eq!(reply, Packet { ptype: PacketType::ResponseValue, id: -1, body: String::new() });
    assert!(!s.authenticated());
}

#[test]
fn authentication_is_never_undone() {
    let mut s = ServerSession::new();
    s.auth_reply(1, true);
    let reply = s.auth_reply(2, false);
    assert_eq!(reply.id, -1);
    assert!(s.authenticated());
    assert!(is_skip(&s.on_message(Some(Err(PacketError::UndefinedType)))));
    assert!(s.authenticated());
}

#[test]
fn command_before_authentication_is_dropped() {
    let s = ServerSession::new();
    assert!(is_skip(&s.on_message(Some(Ok(exec(5, "stop"))))));
    assert!(!s.authenticated());
}

#[test]
fn command_after_authentication_is_executed() {
    let mut s = ServerSession::new();
    s.auth_reply(1, true);
    match s.on_message(Some(Ok(exec(5, "say hi")))) {
        Request::Execute { command, id } => {
            assert_eq!(command, "say hi");
            assert_eq!(id, 5);
        }
        _ => panic!("expected an execute request"),
    }
    let reply = s.command_reply(5, Some(String::from("hi"))).unwrap();
    assert_eq!(reply, Packet { ptype: PacketType::ResponseValue, id: 5, body: String::from("hi") });
}

#[test]
fn failed_handler_gets_no_reply() {
    let mut s = ServerSession::new();
    s.auth_reply(1, true);
    assert_eq!(s.command_reply(5, None), None);
}

#[test]
fn password_after_authentication_is_ignored() {
    let mut s = ServerSession::new();
    s.auth_reply(1, true);
    assert!(is_skip(&s.on_message(Some(Ok(auth(2, "again"))))));
}

#[test]
fn other_frames_are_ignored_in_both_states() {
    let mut s = ServerSession::new();
    for ptype in [PacketType::ResponseValue, PacketType::AuthResponse] {
        let p = Packet { ptype, id: 1, body: String::from("x") };
        assert!(is_skip(&s.on_message(Some(Ok(p)))));
    }
    s.auth_reply(1, true);
    for ptype in [PacketType::ResponseValue, PacketType::AuthResponse] {
        let p = Packet { ptype, id: 1, body: String::from("x") };
        assert!(is_skip(&s.on_message(Some(Ok(p)))));
    }
}

#[test]
fn decode_error_does_not_end_the_session() {
    let s = ServerSession::new();
    assert!(is_skip(&s.on_message(Some(Err(PacketError::InvalidLength)))));
    assert!(is_skip(&s.on_message(Some(Err(PacketError::UndefinedType)))));
    let io = std::io::Error::new(std::io::ErrorKind::InvalidData, "bad text");
    assert!(is_skip(&s.on_message(Some(Err(PacketError::Io(io))))));
}

#[test]
fn end_of_stream_ends_the_session() {
    let mut s = ServerSession::new();
    assert!(matches!(s.on_message(None), Request::Stop));
    s.auth_reply(1, true);
    assert!(matches!(s.on_message(None), Request::Stop));
}

#[test]
fn scenario_accepted_login_over_the_wire() {
    let mut to_server = BytesMut::new();
    let mut to_client = BytesMut::new();
    let mut client_codec = PacketCodec::new_client();
    let mut server_codec = PacketCodec::new_server();
    let mut session = ServerSession::new();

    client_codec.encode(auth(42, "secret"), &mut to_server).unwrap();
    let frame = server_codec.decode(&mut to_server);
    let (password, id) = match session.on_message(Some(frame.map(|f| f.unwrap()))) {
        Request::Authenticate { password, id } => (password, id),
        _ => panic!("expected an authentication request"),
    };
    assert_eq!((password.as_str(), id), ("secret", 42));
    let reply = session.auth_reply(id, true);
    server_codec.encode(reply, &mut to_client).unwrap();
    let seen = client_codec.decode(&mut to_client).unwrap().unwrap();
    assert_eq!(seen, Packet { ptype: PacketType::ResponseValue, id: 42, body: String::new() });
    assert!(session.authenticated());
}

#[test]
fn scenario_refused_login_over_the_wire() {
    let mut to_server = BytesMut::new();
    let mut to_client = BytesMut::new();
    let mut client_codec = PacketCodec::new_client();
    let mut server_codec = PacketCodec::new_server();
    let mut session = ServerSession::new();

    client_codec.encode(auth(7, "wrong"), &mut to_server).unwrap();
    let frame = server_codec.decode(&mut to_server).unwrap().unwrap();
    let id = match session.on_message(Some(Ok(frame))) {
        Request::Authenticate { password, id } => {
            assert_eq!(password, "wrong");
            id
        }
        _ => panic!("expected an authentication request"),
    };
    let reply = session.auth_reply(id, false);
    server_codec.encode(reply, &mut to_client).unwrap();
    let seen = client_codec.decode(&mut to_client).unwrap().unwrap();
    assert_eq!(seen, Packet { ptype: PacketType::ResponseValue, id: -1, body: String::new() });
    assert!(!session.authenticated());
}

#[test]
fn scenario_command_without_login_gets_no_reply() {
    let mut to_server = BytesMut::new();
    let mut client_codec = PacketCodec::new_client();
    let mut server_codec = PacketCodec::new_server();
    let session = ServerSession::new();

    client_codec.encode(exec(9, "stop"), &mut to_server).unwrap();
    let frame = server_codec.decode(&mut to_server).unwrap().unwrap();
    assert_eq!(frame.ptype, PacketType::ExecCommand);
    assert!(is_skip(&session.on_message(Some(Ok(frame)))));
    assert!(!session.authenticated());

    client_codec.encode(auth(10, "secret"), &mut to_server).unwrap();
    let frame = server_codec.decode(&mut to_server).unwrap().unwrap();
    assert!(matches!(session.on_message(Some(Ok(frame))), Request::Authenticate { .. }));
}
