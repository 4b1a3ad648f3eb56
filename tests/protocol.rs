use bytes::BytesMut;
use openssl::pkey::Private;
use openssl::rsa::{Padding, Rsa};
use openssl::symm::{Cipher, Crypter, Mode};

use mcserver::auth::{digest_hex, profile_uuid, server_hash};
use mcserver::codec::{take_frame, ClientboundEncoder, DecoderError, ServerboundDecoder};
use mcserver::connection::{Connection, Phase, ProtocolError, Reply};
use mcserver::data_types::{DataType, SizedDataType};
use mcserver::packets::handshake::{Handshake, NextState};
use mcserver::packets::status::{Pong, Response};
use mcserver::packets::{ClientboundPacket, FromPacket, IntoPacket, PacketError, ServerboundPacket};
use mcserver::varint::VarInt;

const STATUS_HANDSHAKE: [u8; 17] = [
    0x10, 0x00, 0xF2, 0x05, 0x09, 0x6C, 0x6F, 0x63, 0x61, 0x6C, 0x68, 0x6F, 0x73, 0x74, 0x63, 0xDD, 0x01,
];

fn buffer(bytes: &[u8]) -> BytesMut {
    let mut b = BytesMut::new();
    b.extend_from_slice(bytes);
    b
}

fn key() -> Rsa<Private> {
    Rsa::generate(1024).unwrap()
}

/// A serverbound frame for `id` and `body`.
fn frame(id: i32, body: &[u8]) -> Vec<u8> {
    let mut inner = BytesMut::new();
    VarInt::new(id).write_to(&mut inner);
    inner.extend_from_slice(body);
    let mut out = BytesMut::new();
    VarInt::new(inner.len() as i32).write_to(&mut out);
    out.extend_from_slice(&inner);
    out.to_vec()
}

fn handshake_frame(next: u8) -> Vec<u8> {
    let mut bytes = STATUS_HANDSHAKE.to_vec();
    bytes[16] = next;
    bytes
}

/// Every packet that the decoder yields from `src`.
fn drain(decoder: &mut ServerboundDecoder, src: &mut BytesMut) -> Vec<(i32, Vec<u8>)> {
    let mut out = Vec::new();
    while let Some(p) = decoder.decode(src).unwrap() {
        let id = p.packet_id();
        out.push((id, p.data().to_vec()));
    }
    out
}

fn sent(reply: Reply) -> ClientboundPacket {
    match reply {
        Reply::Send(p) => p,
        _ => panic!("expected a packet to send"),
    }
}

fn packet(id: i32, body: &[u8]) -> ServerboundPacket {
    ServerboundPacket::new(id, buffer(body))
}

fn status_ping_bytes() -> Vec<u8> {
    let mut bytes = STATUS_HANDSHAKE.to_vec();
    bytes.extend_from_slice(&[0x01, 0x00]);
    bytes.extend_from_slice(&frame(0x01, &0x0123_4567_89ab_cdefi64.to_be_bytes()));
    bytes
}

#[test]
fn status_ping_scenario() {
    let key = key();
    let mut decoder = ServerboundDecoder::new();
    let mut encoder = ClientboundEncoder::new();
    let mut conn = Connection::new();
    let mut src = buffer(&status_ping_bytes());
    let packets = drain(&mut decoder, &mut src);
    assert_eq!(packets.len(), 3);

    let mut out = BytesMut::new();
    let mut replies = Vec::new();
    for (id, body) in packets {
        match conn.handle_packet(packet(id, &body), &key).unwrap() {
            Reply::Send(p) => {
                replies.push((p.packet_id(), p.data().to_vec()));
            },
            Reply::Nothing => {},
            Reply::Authenticate { .. } => panic!("no login here"),
        }
    }
    assert_eq!(conn.phase(), Phase::Status);
    assert_eq!(replies.len(), 2);
    assert_eq!(replies[0].0, 0x00);
    let mut body = buffer(&replies[0].1);
    let document = String::read_from_sized(&mut body, 32767).unwrap();
    assert_eq!(
        document,
        "{\"version\":{\"name\":\"MC Server 1.15.2\",\"protocol\":578},\"players\":{\"max\":1337,\"online\":69},\"description\":{\"text\":\"Hello World\"},\"favicon\":\"\"}"
    );
    assert!(serde_json::from_str::<serde_json::Value>(&document).is_ok());
    assert_eq!(replies[1].0, 0x01);
    assert_eq!(replies[1].1, 0x0123_4567_89ab_cdefi64.to_be_bytes().to_vec());

    let pong = ClientboundPacket::new(replies[1].0, buffer(&replies[1].1));
    encoder.encode(pong, &mut out).unwrap();
    let mut expected = vec![0x09, 0x01];
    expected.extend_from_slice(&0x0123_4567_89ab_cdefi64.to_be_bytes());
    assert_eq!(out.as_ref(), expected.as_slice());
}

#[test]
fn malformed_next_state_scenario() {
    let key = key();
    let mut decoder = ServerboundDecoder::new();
    let mut conn = Connection::new();
    let mut src = buffer(&handshake_frame(0x03));
    let packets = drain(&mut decoder, &mut src);
    assert_eq!(packets.len(), 1);
    let (id, body) = &packets[0];
    let err = conn.handle_packet(packet(*id, body), &key).unwrap_err();
    assert!(matches!(err, ProtocolError::Packet(PacketError::UnknownNextState(3))));
    assert_eq!(conn.phase(), Phase::Handshaking);
}

#[test]
fn partial_frame_delivery_scenario() {
    let bytes = status_ping_bytes();
    let mut whole_decoder = ServerboundDecoder::new();
    let mut whole = buffer(&bytes);
    let expected = drain(&mut whole_decoder, &mut whole);

    let mut decoder = ServerboundDecoder::new();
    let mut src = BytesMut::new();
    let mut got = Vec::new();
    for b in bytes {
        src.extend_from_slice(&[b]);
        got.extend(drain(&mut decoder, &mut src));
    }
    assert_eq!(got, expected);
    assert_eq!(got.len(), 3);
    assert!(src.is_empty());
}

struct Login {
    conn: Connection,
    key: Rsa<Private>,
    public_key: Vec<u8>,
    token: Vec<u8>,
}

/// Runs the handshake and login start for "Notch", and reads the
/// encryption request that the server sends.
fn start_login() -> Login {
    let key = key();
    let mut conn = Connection::new();
    let mut decoder = ServerboundDecoder::new();
    let mut bytes = handshake_frame(0x02);
    bytes.extend_from_slice(&frame(0x00, &[5, b'N', b'o', b't', b'c', b'h']));
    let mut src = buffer(&bytes);
    let packets = drain(&mut decoder, &mut src);
    assert!(matches!(
        conn.handle_packet(packet(packets[0].0, &packets[0].1), &key).unwrap(),
        Reply::Nothing
    ));
    assert_eq!(conn.phase(), Phase::Login);
    let request = sent(conn.handle_packet(packet(packets[1].0, &packets[1].1), &key).unwrap());
    assert_eq!(conn.phase(), Phase::Encrypt);
    assert_eq!(request.packet_id(), 0x01);
    let mut body = request.data();
    assert_eq!(String::read_from_sized(&mut body, 20).unwrap(), "");
    let public_key = Vec::<u8>::read_from_sized(&mut body, 1024).unwrap();
    let token = Vec::<u8>::read_from_sized(&mut body, 16).unwrap();
    assert_eq!(token.len(), 4);
    assert_eq!(public_key, key.public_key_to_der().unwrap());
    Login { conn, key, public_key, token }
}

fn encrypt_for(public_key: &[u8], data: &[u8]) -> Vec<u8> {
    let rsa = Rsa::public_key_from_der(public_key).unwrap();
    let mut out = vec![0u8; rsa.size() as usize];
    let n = rsa.public_encrypt(data, &mut out, Padding::PKCS1).unwrap();
    out.truncate(n);
    out
}

fn response_body(secret: &[u8], token: &[u8]) -> Vec<u8> {
    let mut body = BytesMut::new();
    secret.to_vec().write_to(&mut body);
    token.to_vec().write_to(&mut body);
    body.to_vec()
}

const SECRET: [u8; 16] = [7, 1, 2, 3, 4, 5, 6, 7, 8, 9, 10, 11, 12, 13, 14, 15];

#[test]
fn login_happy_path_scenario() {
    let mut login = start_login();
    let secret = encrypt_for(&login.public_key, &SECRET);
    let token = encrypt_for(&login.public_key, &login.token);
    let reply = login
        .conn
        .handle_packet(packet(0x01, &response_body(&secret, &token)), &login.key)
        .unwrap();
    let (shared_secret, username, hash) = match reply {
        Reply::Authenticate { shared_secret, username, server_hash } => (shared_secret, username, server_hash),
        _ => panic!("expected authentication"),
    };
    assert_eq!(shared_secret, SECRET);
    assert_eq!(username, "Notch");
    assert_eq!(hash, server_hash(&SECRET, &login.public_key));
    // Play starts only once the session service has vouched for the player.
    assert_eq!(login.conn.phase(), Phase::Encrypt);

    let mut encoder = ClientboundEncoder::new();
    encoder.enable_encryption(&shared_secret).unwrap();
    assert!(matches!(login.conn.finish_login("not-a-uuid"), Err(ProtocolError::ProfileId(_))));
    assert_eq!(login.conn.phase(), Phase::Encrypt);
    let packets = login.conn.finish_login("069a79f4-44e9-4726-a5be-fca90e38aaf5").unwrap();
    assert_eq!(login.conn.phase(), Phase::Play);
    assert_eq!(packets.len(), 2);
    let mut wire = BytesMut::new();
    for p in packets {
        encoder.encode(p, &mut wire).unwrap();
    }

    // The client decrypts the stream with the same key and IV.
    let mut client = Crypter::new(Cipher::aes_128_cfb8(), Mode::Decrypt, &SECRET, Some(&SECRET)).unwrap();
    let mut plain = vec![0u8; wire.len() + 16];
    let n = client.update(&wire, &mut plain).unwrap();
    plain.truncate(n);
    assert_ne!(plain, wire.to_vec());
    let mut plain = buffer(&plain);

    let success = take_frame(&mut plain).unwrap().unwrap();
    assert_eq!(success.packet_id(), 0x02);
    let mut body = success.data();
    assert_eq!(
        mcserver::data_types::Uuid::read_from(&mut body).unwrap().as_u128(),
        0x069a79f4_44e9_4726_a5be_fca90e38aaf5
    );
    assert_eq!(String::read_from_sized(&mut body, 16).unwrap(), "Notch");

    let join = take_frame(&mut plain).unwrap().unwrap();
    assert_eq!(join.packet_id(), 0x24);
    assert!(plain.is_empty());
    let mut body = join.data();
    assert_eq!(i32::read_from(&mut body).unwrap(), 0);
    assert!(!bool::read_from(&mut body).unwrap());
}

#[test]
fn verify_token_mismatch_scenario() {
    let mut login = start_login();
    let secret = encrypt_for(&login.public_key, &SECRET);
    let wrong: Vec<u8> = login.token.iter().map(|b| b ^ 0xff).collect();
    let token = encrypt_for(&login.public_key, &wrong);
    let err = login
        .conn
        .handle_packet(packet(0x01, &response_body(&secret, &token)), &login.key)
        .unwrap_err();
    assert!(matches!(err, ProtocolError::VerifyTokenMismatch));
    assert_eq!(err.describe(), "Verify token does not match");
    assert_eq!(login.conn.phase(), Phase::Encrypt);
}

#[test]
fn short_rsa_plaintext_scenario() {
    let mut login = start_login();
    let secret = encrypt_for(&login.public_key, &SECRET[..8]);
    let token = encrypt_for(&login.public_key, &login.token);
    let err = login
        .conn
        .handle_packet(packet(0x01, &response_body(&secret, &token)), &login.key)
        .unwrap_err();
    assert!(matches!(err, ProtocolError::SharedSecretDecryption));
    assert_eq!(err.describe(), "Decryption of shared secret failed");
}

#[test]
fn short_verify_token_is_rejected() {
    let mut login = start_login();
    let secret = encrypt_for(&login.public_key, &SECRET);
    let token = encrypt_for(&login.public_key, &login.token[..2]);
    let err = login
        .conn
        .handle_packet(packet(0x01, &response_body(&secret, &token)), &login.key)
        .unwrap_err();
    assert!(matches!(err, ProtocolError::VerifyTokenDecryption));
}

#[test]
fn unexpected_packets_are_fatal() {
    let key = key();
    let mut conn = Connection::new();
    let err = conn.handle_packet(packet(0x05, &[]), &key).unwrap_err();
    assert!(matches!(err, ProtocolError::UnexpectedPacket(Phase::Handshaking, 5)));
    assert!(matches!(conn.finish_login("069a79f444e94726a5befca90e38aaf5"), Err(ProtocolError::NotAuthenticating)));

    conn.handle_packet(packet(0x00, &STATUS_HANDSHAKE[2..]), &key).unwrap();
    let err = conn.handle_packet(packet(0x00, &[1]), &key).unwrap_err();
    assert!(matches!(err, ProtocolError::Packet(PacketError::TrailingBytes)));
    let err = conn.handle_packet(packet(0x02, &[]), &key).unwrap_err();
    assert!(matches!(err, ProtocolError::UnexpectedPacket(Phase::Status, 2)));
}

#[test]
fn decoder_decrypts_after_enabling() {
    let mut decoder = ServerboundDecoder::new();
    decoder.enable_encryption(&SECRET).unwrap();
    let mut client = Crypter::new(Cipher::aes_128_cfb8(), Mode::Encrypt, &SECRET, Some(&SECRET)).unwrap();
    let mut plain = frame(0x01, &[1, 2, 3]);
    plain.extend_from_slice(&frame(0x02, &[]));
    let mut sealed = vec![0u8; plain.len() + 16];
    let n = client.update(&plain, &mut sealed).unwrap();
    sealed.truncate(n);
    let mut got = Vec::new();
    let mut src = BytesMut::new();
    for b in sealed {
        src.extend_from_slice(&[b]);
        got.extend(drain(&mut decoder, &mut src));
    }
    assert_eq!(got, vec![(0x01, vec![1, 2, 3]), (0x02, vec![])]);
}

#[test]
fn decoder_errors() {
    let mut decoder = ServerboundDecoder::new();
    let mut src = buffer(&[0xff, 0xff, 0xff, 0xff, 0x0f]);
    assert!(matches!(decoder.decode(&mut src), Err(DecoderError::NegativeLength(-1))));
    let mut src = buffer(&[0x80, 0x80, 0x80, 0x80, 0x80, 0x01]);
    assert!(matches!(decoder.decode(&mut src), Err(DecoderError::Data(_))));
    let mut src = buffer(&[0x00]);
    assert!(matches!(decoder.decode(&mut src), Err(DecoderError::Data(_))));
    let mut src = buffer(&[0x03, 0x00, 0x01]);
    assert!(decoder.decode(&mut src).unwrap().is_none());
    assert_eq!(src.len(), 3);
}

#[test]
fn server_hash_vectors() {
    assert_eq!(server_hash(b"Notch", b""), "4ed1f46bbe04bc756bcb17c0c7ce3e4632f06a48");
    assert_eq!(server_hash(b"jeb", b"_"), "-7c9d5b0044c130109a5d7b5fb5c317c02b4e28c1");
    assert_eq!(server_hash(b"", b"simon"), "88e16a1019277b15d58faf0541e11910eb756f6");
}

#[test]
fn digest_hex_forms() {
    assert_eq!(digest_hex(&[0x00, 0x0f]), "f");
    assert_eq!(digest_hex(&[0xff, 0xff]), "-1");
    assert_eq!(digest_hex(&[0x80, 0x00]), "-8000");
    assert_eq!(digest_hex(&[0x00]), "0");
}

#[test]
fn profile_ids() {
    assert_eq!(
        profile_uuid("069a79f444e94726a5befca90e38aaf5").unwrap().as_u128(),
        0x069a79f4_44e9_4726_a5be_fca90e38aaf5
    );
    assert_eq!(
        profile_uuid("069a79f4-44e9-4726-a5be-fca90e38aaf5").unwrap().as_u128(),
        0x069a79f4_44e9_4726_a5be_fca90e38aaf5
    );
    assert!(profile_uuid("not a uuid").is_err());
}

#[test]
fn status_response_escapes_text() {
    let response = Response::new(10, 2, "say \"hi\"".to_string(), Some("icon".to_string()));
    assert!(response.fits());
    let p = response.into_packet();
    assert_eq!(p.packet_id(), 0x00);
    let mut body = p.data();
    let document = String::read_from_sized(&mut body, 32767).unwrap();
    assert!(document.contains("\"text\":\"say \\\"hi\\\"\""));
    assert!(document.contains("\"favicon\":\"icon\""));
    assert!(document.contains("\"max\":10,\"online\":2"));
}

#[test]
fn handshake_fields_and_parse() {
    let h = packet(0x00, &STATUS_HANDSHAKE[2..]).parse::<Handshake>().ok().unwrap();
    assert_eq!(h.protocol_version().value(), 754);
    assert_eq!(h.server_address(), "localhost");
    assert_eq!(h.server_port(), 25565);
    assert_eq!(h.next_state(), NextState::Status);
    assert!(Handshake::from_packet(packet(0x00, &STATUS_HANDSHAKE[2..10])).is_err());
}

#[test]
fn pong_echoes_ping() {
    let ping = mcserver::packets::status::Ping::from_packet(packet(0x01, &42i64.to_be_bytes())).ok().unwrap();
    let p = Pong::new(ping).into_packet();
    assert_eq!(p.packet_id(), 0x01);
    assert_eq!(p.data().as_ref(), &42i64.to_be_bytes());
}

#[test]
fn nothing_is_taken_while_authenticating() {
    let mut login = start_login();
    let secret = encrypt_for(&login.public_key, &SECRET);
    let token = encrypt_for(&login.public_key, &login.token);
    let body = response_body(&secret, &token);
    assert!(matches!(
        login.conn.handle_packet(packet(0x01, &body), &login.key),
        Ok(Reply::Authenticate { .. })
    ));
    let err = login.conn.handle_packet(packet(0x01, &body), &login.key).unwrap_err();
    assert!(matches!(err, ProtocolError::UnexpectedPacket(Phase::Encrypt, 1)));
    assert_eq!(login.conn.phase(), Phase::Encrypt);
}

#[test]
fn status_response_escapes_control_characters() {
    let response = Response::new(1, 0, "a\nb\u{1}c\\/".to_string(), None);
    let mut body = response.into_packet().data();
    let document = String::read_from_sized(&mut body, 32767).unwrap();
    assert!(document.contains("\"text\":\"a\\nb\\u0001c\\\\/\""));
}
