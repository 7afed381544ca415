use bytes::{BufMut, Bytes, BytesMut};
use rcon_rs::packet::{CodecType, Packet, PacketError, PacketType};

const AUTH_PACKET: [u8; 18] = [10, 0, 0, 0, 3, 0, 0, 0, 112, 97, 115, 115, 119, 111, 114, 100, 0, 0];
const EMPTY_AUTH_PACKET: [u8; 10] = [10, 0, 0, 0, 3, 0, 0, 0, 0, 0];

fn payload_of(packet: Packet) -> Vec<u8> {
    let mut buf = BytesMut::new();
    packet.write_bytes(&mut buf);
    buf.to_vec()
}

fn payload(id: i32, code: i32, body: &[u8]) -> Bytes {
    let mut buf = BytesMut::new();
    buf.put_i32_le(id);
    buf.put_i32_le(code);
    buf.put_slice(body);
    buf.put_slice(&[0, 0]);
    buf.freeze()
}

#[test]
fn empty_auth_packet_encode() {
    let packet = Packet { ptype: PacketType::Auth, id: 10, body: String::new() };

    let mut packet_bytes = BytesMut::new();
    let mut test_bytes = BytesMut::new();
    packet.write_bytes(&mut packet_bytes);
    test_bytes.put_slice(&EMPTY_AUTH_PACKET);
    assert_eq!(packet_bytes.freeze(), test_bytes.freeze());
}

#[test]
fn auth_packet_encode() {
    let packet = Packet { ptype: PacketType::Auth, id: 10, body: String::from("password") };

    let mut packet_bytes = BytesMut::new();
    let mut test_bytes = BytesMut::new();
    packet.write_bytes(&mut packet_bytes);
    test_bytes.put_slice(&AUTH_PACKET);
    assert_eq!(packet_bytes.freeze(), test_bytes.freeze());
}

#[test]
fn auth_packet_decode_client() {
    let packet = Packet { ptype: PacketType::Auth, id: 10, body: String::from("password") };

    let mut packet_bytes = BytesMut::new();
    packet_bytes.put_slice(&AUTH_PACKET);

    let p = Packet::from_bytes(packet_bytes.freeze(), CodecType::Client).unwrap();
    assert_eq!(p, packet);
}

#[test]
fn exec_packet_decode() {
    let p = Packet::from_bytes(payload(77, 2, b"list"), CodecType::Server).unwrap();
    assert_eq!(p, Packet { ptype: PacketType::ExecCommand, id: 77, body: String::from("list") });
}

#[test]
fn type_codes() {
    assert_eq!(PacketType::ResponseValue.bytes(), 0);
    assert_eq!(PacketType::AuthResponse.bytes(), 2);
    assert_eq!(PacketType::ExecCommand.bytes(), 2);
    assert_eq!(PacketType::Auth.bytes(), 3);
}

#[test]
fn type_code_two_depends_on_role() {
    assert_eq!(PacketType::from_i32(2, CodecType::Client), Some(PacketType::AuthResponse));
    assert_eq!(PacketType::from_i32(2, CodecType::Server), Some(PacketType::ExecCommand));
    assert_eq!(PacketType::from_i32(0, CodecType::Client), Some(PacketType::ResponseValue));
    assert_eq!(PacketType::from_i32(0, CodecType::Server), Some(PacketType::ResponseValue));
    assert_eq!(PacketType::from_i32(3, CodecType::Client), Some(PacketType::Auth));
    assert_eq!(PacketType::from_i32(3, CodecType::Server), Some(PacketType::Auth));
    assert_eq!(PacketType::from_i32(1, CodecType::Client), None);
    assert_eq!(PacketType::from_i32(4, CodecType::Server), None);
    assert_eq!(PacketType::from_i32(-1, CodecType::Server), None);
}

#[test]
fn same_bytes_decode_by_role() {
    let client = Packet::from_bytes(payload(5, 2, b"x"), CodecType::Client).unwrap();
    let server = Packet::from_bytes(payload(5, 2, b"x"), CodecType::Server).unwrap();
    assert_eq!(client.ptype, PacketType::AuthResponse);
    assert_eq!(server.ptype, PacketType::ExecCommand);
    assert_eq!(client.id, server.id);
    assert_eq!(client.body, server.body);
}

#[test]
fn negative_id_is_little_endian_twos_complement() {
    let bytes = payload_of(Packet { ptype: PacketType::ResponseValue, id: -1, body: String::new() });
    assert_eq!(bytes, vec![0xff, 0xff, 0xff, 0xff, 0, 0, 0, 0, 0, 0]);
    let bytes = payload_of(Packet { ptype: PacketType::ExecCommand, id: 0x0102_0304, body: String::from("a") });
    assert_eq!(bytes, vec![4, 3, 2, 1, 2, 0, 0, 0, 97, 0, 0]);
    let p = Packet::from_bytes(payload(i32::MIN, 0, b""), CodecType::Client).unwrap();
    assert_eq!(p.id, i32::MIN);
    let p = Packet::from_bytes(Bytes::from(vec![0xfe, 0xff, 0xff, 0xff, 3, 0, 0, 0, 0, 0]), CodecType::Client).unwrap();
    assert_eq!(p.id, -2);
}

#[test]
fn encoded_len_is_body_plus_ten() {
    let p = Packet { ptype: PacketType::Auth, id: 1, body: String::new() };
    assert_eq!(p.encoded_len(), 10);
    let p = Packet { ptype: PacketType::Auth, id: 1, body: String::from("password") };
    assert_eq!(p.encoded_len(), 18);
    let p = Packet { ptype: PacketType::Auth, id: 1, body: String::from("h\u{e9}llo") };
    assert_eq!(p.encoded_len(), 16);
    let mut buf = BytesMut::new();
    buf.put_slice(b"abc");
    assert_eq!(p.clone().write_bytes(&mut buf), 16);
    assert_eq!(buf.len(), 3 + 16);
    assert_eq!(&buf[..3], b"abc");
}

#[test]
fn round_trip_each_type() {
    let cases = vec![
        (PacketType::Auth, CodecType::Client),
        (PacketType::Auth, CodecType::Server),
        (PacketType::ResponseValue, CodecType::Client),
        (PacketType::ResponseValue, CodecType::Server),
        (PacketType::AuthResponse, CodecType::Client),
        (PacketType::ExecCommand, CodecType::Server),
    ];
    for (ptype, role) in cases {
        for body in ["", "say hi", "z\u{fc}rich \u{1f600}"] {
            let p = Packet { ptype, id: -12345, body: String::from(body) };
            let back = Packet::from_bytes(Bytes::from(payload_of(p.clone())), role).unwrap();
            assert_eq!(back, p);
        }
    }
}

#[test]
fn round_trip_longest_body() {
    let p = Packet { ptype: PacketType::ExecCommand, id: 9, body: "a".repeat(4086) };
    assert!(p.is_sendable());
    let bytes = payload_of(p.clone());
    assert_eq!(bytes.len(), 4096);
    assert_eq!(Packet::from_bytes(Bytes::from(bytes), CodecType::Server).unwrap(), p);
    let p = Packet { ptype: PacketType::ExecCommand, id: 9, body: "a".repeat(4087) };
    assert!(!p.is_sendable());
}

#[test]
fn length_out_of_range_is_refused() {
    for n in [0usize, 1, 9, 4097, 5000] {
        let r = Packet::from_bytes(Bytes::from(vec![0u8; n]), CodecType::Client);
        assert!(matches!(r, Err(PacketError::InvalidLength)));
    }
    let r = Packet::from_bytes(Bytes::from(vec![0u8; 10]), CodecType::Client).unwrap();
    assert_eq!(r, Packet { ptype: PacketType::ResponseValue, id: 0, body: String::new() });
    let r = Packet::from_bytes(Bytes::from(vec![0u8; 4096]), CodecType::Client).unwrap();
    assert_eq!(r.body.len(), 4086);
}

#[test]
fn undefined_type_is_refused() {
    for code in [1, 4, -1, 256, i32::MAX] {
        for role in [CodecType::Client, CodecType::Server] {
            let r = Packet::from_bytes(payload(1, code, b"body"), role);
            assert!(matches!(r, Err(PacketError::UndefinedType)));
        }
    }
}

#[test]
fn undefined_type_comes_before_bad_text() {
    let r = Packet::from_bytes(payload(1, 7, &[0xff, 0xfe]), CodecType::Server);
    assert!(matches!(r, Err(PacketError::UndefinedType)));
}

#[test]
fn body_that_is_not_utf8_is_an_io_error() {
    let r = Packet::from_bytes(payload(1, 0, &[0xc3, 0x28]), CodecType::Client);
    assert!(matches!(r, Err(PacketError::Io(_))));
    let r = Packet::from_bytes(payload(1, 0, &[0xff]), CodecType::Client);
    assert!(matches!(r, Err(PacketError::Io(_))));
}

#[test]
fn terminator_content_is_not_looked_at() {
    let mut buf = BytesMut::new();
    buf.put_i32_le(3);
    buf.put_i32_le(3);
    buf.put_slice(b"pw");
    buf.put_slice(&[0x41, 0xff]);
    let p = Packet::from_bytes(buf.freeze(), CodecType::Server).unwrap();
    assert_eq!(p, Packet { ptype: PacketType::Auth, id: 3, body: String::from("pw") });
}

#[test]
fn only_the_body_is_read_as_text() {
    let p = Packet::from_bytes(payload(0x6162_6364, 3, b"efgh"), CodecType::Client).unwrap();
    assert_eq!(p.body, "efgh");
    assert_eq!(p.id, 0x6162_6364);
}

#[test]
fn packet_error_messages() {
    assert_eq!(PacketError::InvalidLength.message(), "Invalid Packet Length");
    assert_eq!(PacketError::UndefinedType.message(), "Undefined Packet Type ");
    let io = std::io::Error::new(std::io::ErrorKind::Other, "x");
    assert_eq!(PacketError::from(io).message(), "Io Error");
}
