//! The per-connection protocol state machine: which packets each phase
//! takes, what the server answers, and when the phase changes.
use vstd::prelude::*;

use openssl::error::ErrorStack;
use openssl::pkey::Private;
use openssl::rsa::Rsa;
use vstd::utf8::{encode_utf8, is_ascii_chars, is_ascii_chars_encode_utf8};

use crate::auth::{profile_uuid, server_hash, sha1_of, signed_hex, uuid_text_value};
use crate::arrays::{array_decoding, lemma_array_decoding_len};
use crate::data_types::{DataType, Uuid, WireRead};
use crate::packets::handshake::{handshake_fields, Handshake, NextState};
use crate::packets::login::{EncryptionRequest, EncryptionResponse, Start, Success, MAX_ENCRYPTED_FIELD, MAX_USERNAME};
use crate::packets::play::JoinGame;
use crate::packets::status::{lemma_status_document_fits, status_document, Ping, Pong, Request, Response};
use crate::packets::{ClientboundPacket, FromPacket, IntoPacket, PacketError, ServerboundPacket};
use crate::text::{lemma_string_decoding_within, string_bytes, string_decoding, Identifier, MAX_STRING_LENGTH};
use crate::varint::VarInt;

verus! {

#[verifier::external_type_specification]
#[verifier::external_body]
#[verifier::reject_recursive_types(T)]
pub struct ExRsa<T>(openssl::rsa::Rsa<T>);

#[verifier::external_type_specification]
#[verifier::external_body]
pub struct ExPrivate(openssl::pkey::Private);

/// Relies on `RsaRef::public_key_to_der`: the key's public half in DER.
#[verifier::external_body]
fn public_key_der(key: &Rsa<Private>) -> (r: Result<Vec<u8>, ErrorStack>) {
    key.public_key_to_der()
}

/// Relies on `RsaRef::private_decrypt` with PKCS#1 v1.5 padding: the
/// plaintext that `data` decrypts to (it panics on an output buffer smaller
/// than the key, or an input longer than `i32::MAX`).
#[verifier::external_body]
fn rsa_decrypt(key: &Rsa<Private>, data: &[u8]) -> (r: Result<Vec<u8>, ErrorStack>)
    requires
        data@.len() <= i32::MAX,
{
    let mut out = vec![0u8; key.size() as usize];
    let n = key.private_decrypt(data, &mut out, openssl::rsa::Padding::PKCS1)?;
    out.truncate(n);
    Ok(out)
}

/// Relies on `rand::random`: a value drawn from the thread's generator;
/// nothing is promised of it. The verify token is drawn this way.
pub assume_specification<T>[ rand::random::<T> ]() -> T
    where
        rand::distributions::Standard: rand::distributions::Distribution<T>,
;

/// The five phases of a connection.
#[derive(Clone, Copy, Debug, PartialEq, Eq, Structural)]
pub enum Phase {
    Handshaking,
    Status,
    Login,
    Encrypt,
    Play,
}

/// What the connection's owner is to do after a packet.
#[derive(Debug)]
pub enum Reply {
    /// Nothing.
    Nothing,
    /// Send this packet.
    Send(ClientboundPacket),
    /// Turn encryption on in both directions with `shared_secret` as key
    /// and IV, then ask the session service whether `username` has joined
    /// with `server_hash`, and hand its answer to `finish_login`.
    Authenticate { shared_secret: [u8; 16], username: String, server_hash: String },
}

/// Why a connection must close.
#[derive(Debug)]
pub enum ProtocolError {
    /// The packet id is not one that the phase takes.
    UnexpectedPacket(Phase, i32),
    /// The packet's body is malformed.
    Packet(PacketError),
    /// The RSA key could not be used.
    Key(ErrorStack),
    /// The shared secret decrypted to fewer than 16 bytes.
    SharedSecretDecryption,
    /// The verify token decrypted to fewer than 4 bytes.
    VerifyTokenDecryption,
    /// The verify token came back changed.
    VerifyTokenMismatch,
    /// `finish_login` was called before the key exchange.
    NotAuthenticating,
    /// The session service's id is not a UUID.
    ProfileId(uuid::Error),
    /// The public key is too long for an encryption request.
    PublicKeyTooLong,
}

impl ProtocolError {
    /// A one-line description of the error.
    pub fn describe(&self) -> &'static str {
        match self {
            ProtocolError::UnexpectedPacket(_, _) => "Unrecognized packet id for the connection's phase",
            ProtocolError::Packet(_) => "Malformed packet",
            ProtocolError::Key(_) => "RSA operation failed",
            ProtocolError::SharedSecretDecryption => "Decryption of shared secret failed",
            ProtocolError::VerifyTokenDecryption => "Decryption of verify token failed",
            ProtocolError::VerifyTokenMismatch => "Verify token does not match",
            ProtocolError::NotAuthenticating => "No login is waiting for authentication",
            ProtocolError::ProfileId(_) => "Malformed profile id from the session service",
            ProtocolError::PublicKeyTooLong => "Public key too long",
        }
    }
}

/// The phase that a handshake leads to.
pub open spec fn phase_after(next: NextState) -> Phase {
    match next {
        NextState::Status => Phase::Status,
        NextState::Login => Phase::Login,
    }
}

/// The packet ids that each phase takes.
pub open spec fn expects(phase: Phase, id: i32) -> bool {
    match phase {
        Phase::Handshaking => id == 0x00,
        Phase::Status => id == 0x00 || id == 0x01,
        Phase::Login => id == 0x00,
        Phase::Encrypt => id == 0x01,
        Phase::Play => false,
    }
}

/// The numbers that the status document reports.
pub const MAX_PLAYERS: usize = 1337;

pub const ONLINE_PLAYERS: usize = 69;

/// The status document's message of the day.
pub open spec fn motd() -> Seq<char> {
    "Hello World"@
}

/// The state of one connection: its phase and what the login has told it.
pub struct Connection {
    phase: Phase,
    username: Option<String>,
    verify_token: Option<[u8; 4]>,
    /// The key exchange has passed and the session service is being asked;
    /// the connection stays in `Encrypt` until its answer arrives.
    authenticating: bool,
}

impl Connection {
    #[verifier::type_invariant]
    spec fn inv(self) -> bool {
        &&& (self.phase == Phase::Encrypt || self.phase == Phase::Play) ==> self.username is Some
            && self.verify_token is Some
        &&& self.username matches Some(n) ==> encode_utf8(n@).len() <= MAX_USERNAME
        &&& self.authenticating ==> self.phase == Phase::Encrypt
    }

    /// The key exchange has passed and the session service's answer is
    /// awaited.
    pub closed spec fn awaiting_auth(&self) -> bool {
        self.authenticating
    }

    /// Username, verify token and the wait for authentication are as in
    /// `other`.
    pub open spec fn same_login(&self, other: &Connection) -> bool {
        &&& self.username_of() == other.username_of()
        &&& self.token_of() == other.token_of()
        &&& self.awaiting_auth() == other.awaiting_auth()
    }

    pub closed spec fn phase_of(&self) -> Phase {
        self.phase
    }

    pub closed spec fn username_of(&self) -> Option<Seq<char>> {
        match self.username {
            Some(n) => Some(n@),
            None => None,
        }
    }

    pub closed spec fn token_of(&self) -> Option<[u8; 4]> {
        self.verify_token
    }

    /// A connection that has just been accepted.
    pub fn new() -> (r: Connection)
        ensures
            r.phase_of() == Phase::Handshaking,
            r.username_of() is None,
            r.token_of() is None,
            !r.awaiting_auth(),
    {
        Connection { phase: Phase::Handshaking, username: None, verify_token: None, authenticating: false }
    }

    pub fn phase(&self) -> (r: Phase)
        ensures
            r == self.phase_of(),
    {
        self.phase
    }

    /// Handles one packet from the client: checks that the phase takes
    /// its id, reads it, and moves the phase on.
    pub fn handle_packet(&mut self, packet: ServerboundPacket, key: &Rsa<Private>) -> (r: Result<
        Reply,
        ProtocolError,
    >)
        ensures
            !expects(old(self).phase_of(), packet.id()) ==> (r matches Err(ProtocolError::UnexpectedPacket(p, id))
                && p == old(self).phase_of() && id == packet.id()),
            r is Err ==> final(self).phase_of() == old(self).phase_of() && final(self).same_login(&*old(self)),
            old(self).awaiting_auth() ==> (r matches Err(ProtocolError::UnexpectedPacket(p, id)) && p
                == old(self).phase_of() && id == packet.id()),
            old(self).phase_of() == Phase::Handshaking && packet.id() == 0x00 ==> {
                &&& r is Ok <==> handshake_fields(packet.body()) is Some
                &&& (handshake_fields(packet.body()) matches Some(f) ==> (r matches Ok(Reply::Nothing)
                    && final(self).phase_of() == phase_after(f.3)))
                &&& final(self).same_login(&*old(self))
            },
            old(self).phase_of() == Phase::Status && packet.id() == 0x00 ==> {
                &&& r is Ok <==> packet.body().len() == 0
                &&& (r matches Ok(reply) ==> (reply matches Reply::Send(p) && p.id() == 0x00 && p.body()
                    == string_bytes(status_document(MAX_PLAYERS as nat, ONLINE_PLAYERS as nat, motd(), Seq::empty()))))
                &&& final(self).phase_of() == Phase::Status
                &&& final(self).same_login(&*old(self))
            },
            old(self).phase_of() == Phase::Status && packet.id() == 0x01 ==> {
                &&& r is Ok <==> <i64 as DataType>::decoding(packet.body()) is Value
                &&& (<i64 as DataType>::decoding(packet.body()) matches WireRead::Value(payload, _) ==> (r matches Ok(
                    reply,
                ) && reply matches Reply::Send(p) && p.id() == 0x01 && p.body() == <i64 as DataType>::encoding(
                    payload,
                )))
                &&& final(self).phase_of() == Phase::Status
                &&& final(self).same_login(&*old(self))
            },
            old(self).phase_of() == Phase::Login && packet.id() == 0x00 && r is Ok ==> final(self).phase_of()
                == Phase::Encrypt && !final(self).awaiting_auth(),
            old(self).phase_of() == Phase::Login && packet.id() == 0x00 && r is Ok ==> (string_decoding(
                packet.body(),
                MAX_USERNAME as nat,
            ) matches WireRead::Value(name, _) && final(self).username_of() == Some(name)),
            old(self).phase_of() == Phase::Login && packet.id() == 0x00 && r is Ok ==> requests_key_exchange(
                r,
                final(self).token_of(),
            ),
            old(self).phase_of() == Phase::Login && packet.id() == 0x00 && !(string_decoding(
                packet.body(),
                MAX_USERNAME as nat,
            ) is Value) ==> r is Err,
            old(self).phase_of() == Phase::Encrypt && packet.id() == 0x01 && r is Ok ==> {
                &&& final(self).phase_of() == Phase::Encrypt
                &&& final(self).awaiting_auth()
                &&& final(self).username_of() == old(self).username_of()
                &&& final(self).token_of() == old(self).token_of()
                &&& r matches Ok(reply) && reply matches Reply::Authenticate { username, .. } && Some(username@)
                    == old(self).username_of()
            },
            old(self).phase_of() == Phase::Encrypt && packet.id() == 0x01 && !EncryptionResponse::accepts(
                packet.body(),
            ) ==> r is Err,
    {
        proof {
            use_type_invariant(&*self);
        }
        let id = packet.packet_id();
        match self.phase {
            Phase::Handshaking => {
                if id != 0x00 {
                    return Err(ProtocolError::UnexpectedPacket(Phase::Handshaking, id));
                }
                let handshake = match Handshake::from_packet(packet) {
                    Ok(h) => h,
                    Err(e) => return Err(ProtocolError::Packet(e)),
                };
                self.phase = match handshake.next_state() {
                    NextState::Status => Phase::Status,
                    NextState::Login => Phase::Login,
                };
                Ok(Reply::Nothing)
            },
            Phase::Status => {
                if id == 0x00 {
                    match Request::from_packet(packet) {
                        Ok(_) => {},
                        Err(e) => return Err(ProtocolError::Packet(e)),
                    }
                    let motd_text = "Hello World".to_string();
                    assert(motd_text@ == motd());
                    proof {
                        reveal_strlit("Hello World");
                        lemma_status_document_fits(MAX_PLAYERS as nat, ONLINE_PLAYERS as nat, motd());
                    }
                    let response = Response::new(MAX_PLAYERS, ONLINE_PLAYERS, motd_text, None);
                    Ok(Reply::Send(response.into_packet()))
                } else if id == 0x01 {
                    let ping = match Ping::from_packet(packet) {
                        Ok(p) => p,
                        Err(e) => return Err(ProtocolError::Packet(e)),
                    };
                    Ok(Reply::Send(Pong::new(ping).into_packet()))
                } else {
                    Err(ProtocolError::UnexpectedPacket(Phase::Status, id))
                }
            },
            Phase::Login => {
                if id != 0x00 {
                    return Err(ProtocolError::UnexpectedPacket(Phase::Login, id));
                }
                let ghost body = packet.body();
                let start = match Start::from_packet(packet) {
                    Ok(s) => s,
                    Err(e) => return Err(ProtocolError::Packet(e)),
                };
                proof {
                    lemma_string_decoding_within(body, MAX_USERNAME as nat);
                }
                let public_key = match public_key_der(key) {
                    Ok(der) => der,
                    Err(e) => return Err(ProtocolError::Key(e)),
                };
                let verify_token: [u8; 4] = rand::random();
                let ghost der = public_key@;
                let r = self.begin_encryption(start.username(), verify_token, public_key);
                proof {
                    if r is Ok {
                        assert(self.token_of()->0@ == verify_token@);
                        assert(r->Ok_0->Send_0.body() == login_request_body(der, self.token_of()->0@));
                        assert(requests_key_exchange(r, self.token_of()));
                    }
                }
                r
            },
            Phase::Encrypt => {
                if self.authenticating || id != 0x01 {
                    return Err(ProtocolError::UnexpectedPacket(Phase::Encrypt, id));
                }
                let ghost body = packet.body();
                let response = match EncryptionResponse::from_packet(packet) {
                    Ok(r) => r,
                    Err(e) => return Err(ProtocolError::Packet(e)),
                };
                let (encrypted_secret, encrypted_token) = response.into_parts();
                proof {
                    lemma_array_decoding_len::<u8>(body, MAX_ENCRYPTED_FIELD as nat);
                    let rest = match array_decoding::<u8>(body, MAX_ENCRYPTED_FIELD as nat) {
                        WireRead::Value(_, n) => body.skip(n as int),
                        _ => body,
                    };
                    lemma_array_decoding_len::<u8>(rest, MAX_ENCRYPTED_FIELD as nat);
                }
                let shared_secret = match rsa_decrypt(key, encrypted_secret.as_slice()) {
                    Ok(s) => s,
                    Err(e) => return Err(ProtocolError::Key(e)),
                };
                let verify_token = match rsa_decrypt(key, encrypted_token.as_slice()) {
                    Ok(t) => t,
                    Err(e) => return Err(ProtocolError::Key(e)),
                };
                let public_key = match public_key_der(key) {
                    Ok(der) => der,
                    Err(e) => return Err(ProtocolError::Key(e)),
                };
                self.accept_key_exchange(shared_secret.as_slice(), verify_token.as_slice(), public_key.as_slice())
            },
            Phase::Play => Err(ProtocolError::UnexpectedPacket(Phase::Play, id)),
        }
    }
}

impl Connection {
    /// Answers a login start: remembers the player's name and the verify
    /// token, sends the public key and the token, and waits for the key
    /// exchange.
    pub fn begin_encryption(&mut self, username: String, verify_token: [u8; 4], public_key: Vec<u8>) -> (r: Result<
        Reply,
        ProtocolError,
    >)
        requires
            old(self).phase_of() == Phase::Login,
            encode_utf8(username@).len() <= MAX_USERNAME,
        ensures
            r is Ok <==> public_key@.len() <= i32::MAX,
            r is Err ==> (r matches Err(ProtocolError::PublicKeyTooLong) && final(self).phase_of() == Phase::Login
                && final(self).same_login(&*old(self))),
            r matches Ok(reply) ==> {
                &&& final(self).phase_of() == Phase::Encrypt
                &&& final(self).username_of() == Some(username@)
                &&& final(self).token_of() == Some(verify_token)
                &&& !final(self).awaiting_auth()
                &&& reply matches Reply::Send(p) && p.id() == 0x01 && p.body() == login_request_body(
                    public_key@,
                    verify_token@,
                )
            },
    {
        if public_key.len() > 0x7fff_ffff {
            return Err(ProtocolError::PublicKeyTooLong);
        }
        proof {
            use_type_invariant(&*self);
        }
        let request = EncryptionRequest::new(public_key, verify_token);
        self.username = Some(username);
        self.verify_token = Some(verify_token);
        self.phase = Phase::Encrypt;
        proof {
            assert(encode_utf8(Seq::<char>::empty()) =~= Seq::<u8>::empty()) by {
                reveal_with_fuel(encode_utf8, 1);
            }
        }
        Ok(Reply::Send(request.into_packet()))
    }

    /// Checks the decrypted key exchange: a shared secret of at least 16
    /// bytes, and a verify token whose first 4 bytes are the ones sent. On
    /// success the first 16 bytes of the secret become the session key and
    /// the reply asks for authentication; the connection stays in `Encrypt`
    /// until `finish_login` hears that it passed.
    pub fn accept_key_exchange(&mut self, shared_secret: &[u8], verify_token: &[u8], public_key: &[u8]) -> (r: Result<
        Reply,
        ProtocolError,
    >)
        requires
            old(self).phase_of() == Phase::Encrypt,
            !old(self).awaiting_auth(),
        ensures
            shared_secret@.len() < 16 ==> r matches Err(ProtocolError::SharedSecretDecryption),
            shared_secret@.len() >= 16 && verify_token@.len() < 4 ==> r matches Err(
                ProtocolError::VerifyTokenDecryption,
            ),
            shared_secret@.len() >= 16 && verify_token@.len() >= 4 && !token_matches(
                verify_token@,
                old(self).token_of(),
            ) ==> r matches Err(ProtocolError::VerifyTokenMismatch),
            shared_secret@.len() >= 16 && verify_token@.len() >= 4 && token_matches(
                verify_token@,
                old(self).token_of(),
            ) ==> r is Ok,
            r is Err ==> final(self).phase_of() == old(self).phase_of() && final(self).same_login(&*old(self)),
            r matches Ok(reply) ==> {
                &&& final(self).phase_of() == Phase::Encrypt
                &&& final(self).awaiting_auth()
                &&& final(self).username_of() == old(self).username_of()
                &&& final(self).token_of() == old(self).token_of()
                &&& reply matches Reply::Authenticate { shared_secret: key, username, server_hash } && key@
                    == shared_secret@.take(16) && Some(username@) == old(self).username_of() && server_hash@
                    == signed_hex(sha1_of(shared_secret@.take(16) + public_key@))
            },
    {
        proof {
            use_type_invariant(&*self);
        }
        if shared_secret.len() < 16 {
            return Err(ProtocolError::SharedSecretDecryption);
        }
        if verify_token.len() < 4 {
            return Err(ProtocolError::VerifyTokenDecryption);
        }
        let expected = match &self.verify_token {
            Some(t) => *t,
            None => return Err(ProtocolError::VerifyTokenMismatch),
        };
        if verify_token[0] != expected[0] || verify_token[1] != expected[1] || verify_token[2] != expected[2]
            || verify_token[3] != expected[3] {
            proof {
                assert(verify_token@.take(4) != expected@) by {
                    if verify_token@.take(4) == expected@ {
                        assert(verify_token@.take(4)[0] == verify_token@[0]);
                        assert(verify_token@.take(4)[1] == verify_token@[1]);
                        assert(verify_token@.take(4)[2] == verify_token@[2]);
                        assert(verify_token@.take(4)[3] == verify_token@[3]);
                    }
                }
            }
            return Err(ProtocolError::VerifyTokenMismatch);
        }
        proof {
            assert(verify_token@.take(4) =~= expected@);
        }
        let key: [u8; 16] = [
            shared_secret[0],
            shared_secret[1],
            shared_secret[2],
            shared_secret[3],
            shared_secret[4],
            shared_secret[5],
            shared_secret[6],
            shared_secret[7],
            shared_secret[8],
            shared_secret[9],
            shared_secret[10],
            shared_secret[11],
            shared_secret[12],
            shared_secret[13],
            shared_secret[14],
            shared_secret[15],
        ];
        assert(key@ =~= shared_secret@.take(16));
        let username = match &self.username {
            Some(n) => n.clone(),
            None => return Err(ProtocolError::VerifyTokenMismatch),
        };
        let hash = server_hash(&key, public_key);
        self.authenticating = true;
        Ok(Reply::Authenticate { shared_secret: key, username, server_hash: hash })
    }

    /// Ends the login once the session service has answered with the
    /// player's `id`: the connection enters play, and the login success and
    /// join game packets are to be sent. A failed authentication never
    /// reaches here: the connection closes outside play.
    pub fn finish_login(&mut self, profile_id: &str) -> (r: Result<Vec<ClientboundPacket>, ProtocolError>)
        ensures
            !old(self).awaiting_auth() ==> r matches Err(ProtocolError::NotAuthenticating),
            old(self).awaiting_auth() && uuid_text_value(profile_id@) is None ==> r matches Err(
                ProtocolError::ProfileId(_),
            ),
            old(self).awaiting_auth() && uuid_text_value(profile_id@) is Some ==> r is Ok,
            r is Err ==> final(self).phase_of() == old(self).phase_of() && final(self).same_login(&*old(self)),
            r matches Ok(packets) ==> {
                &&& final(self).phase_of() == Phase::Play
                &&& !final(self).awaiting_auth()
                &&& final(self).username_of() == old(self).username_of()
                &&& uuid_text_value(profile_id@) matches Some(id) && old(self).username_of() matches Some(name)
                    && login_packets(packets@, id, name)
            },
    {
        if !self.authenticating {
            return Err(ProtocolError::NotAuthenticating);
        }
        let uuid = match profile_uuid(profile_id) {
            Ok(u) => u,
            Err(e) => return Err(ProtocolError::ProfileId(e)),
        };
        Ok(self.complete_login(uuid))
    }

    /// Enters play as the player `uuid`: the login success and join game
    /// packets to send.
    pub fn complete_login(&mut self, uuid: Uuid) -> (r: Vec<ClientboundPacket>)
        requires
            old(self).awaiting_auth(),
        ensures
            final(self).phase_of() == Phase::Play,
            !final(self).awaiting_auth(),
            final(self).username_of() == old(self).username_of(),
            final(self).token_of() == old(self).token_of(),
            old(self).username_of() matches Some(name) && login_packets(r@, uuid@, name),
    {
        proof {
            use_type_invariant(&*self);
        }
        let success = match &self.username {
            Some(n) => Success::new(&uuid, n.as_str()),
            None => Success::new(&uuid, ""),
        };
        let join_game = join_game();
        self.authenticating = false;
        self.phase = Phase::Play;
        let mut packets: Vec<ClientboundPacket> = Vec::new();
        packets.push(success.into_packet());
        packets.push(join_game.into_packet());
        packets
    }
}

/// The first four bytes of the decrypted token are the token sent.
pub open spec fn token_matches(decrypted: Seq<u8>, sent: Option<[u8; 4]>) -> bool {
    sent matches Some(t) && decrypted.take(4) == t@
}

/// The packets that end a login: success with the player's UUID and name,
/// then join game.
pub open spec fn login_packets(packets: Seq<ClientboundPacket>, uuid: u128, name: Seq<char>) -> bool {
    &&& packets.len() == 2
    &&& packets[0].id() == 0x02
    &&& packets[0].body() == <Uuid as DataType>::encoding(uuid) + string_bytes(name)
    &&& packets[1].id() == 0x24
    &&& packets[1].body() == join_game_body()
}

/// The join game that every player receives: a survival player in a flat
/// overworld, with a view distance of four chunks.
pub open spec fn join_game_body() -> Seq<u8> {
    <i32 as DataType>::encoding(0) + <bool as DataType>::encoding(false) + <u8 as DataType>::encoding(0)
        + <i8 as DataType>::encoding(0) + crate::arrays::array_bytes::<Identifier>(seq!["minecraft:overworld"@])
        + string_bytes("minecraft:overworld"@) + <i64 as DataType>::encoding(0) + <u8 as DataType>::encoding(0)
        + string_bytes("flat"@) + crate::varint::varint_bytes(4) + <bool as DataType>::encoding(false)
        + <bool as DataType>::encoding(true)
}

/// The join game's strings are ASCII, one byte per character.
proof fn lemma_join_game_text()
    ensures
        encode_utf8("minecraft:overworld"@).len() == 19,
        encode_utf8("flat"@).len() == 4,
{
    reveal_strlit("minecraft:overworld");
    reveal_strlit("flat");
    assert(is_ascii_chars("minecraft:overworld"@));
    assert(is_ascii_chars("flat"@));
    is_ascii_chars_encode_utf8("minecraft:overworld"@);
    is_ascii_chars_encode_utf8("flat"@);
}

fn join_game() -> (r: JoinGame)
    ensures
        r.wire_body() == join_game_body(),
        r.sendable(),
{
    let world_names: Vec<Identifier> = vec![Identifier::new("minecraft:overworld".to_string())];
    assert(world_names.deep_view() =~= seq!["minecraft:overworld"@]);
    proof {
        lemma_join_game_text();
        let names = seq!["minecraft:overworld"@];
        assert(names.drop_last() =~= Seq::<Seq<char>>::empty());
        assert(crate::arrays::elems_encoding::<Identifier>(names.drop_last()) =~= Seq::<u8>::empty());
        crate::varint::lemma_varint_round_trip(1, Seq::empty());
        crate::varint::lemma_varint_round_trip(19, Seq::empty());
        assert(crate::arrays::elems_encoding::<Identifier>(names).len() == string_bytes(names[0]).len());
        assert(crate::arrays::array_bytes::<Identifier>(names).len() <= 1000);
    }
    JoinGame::new(
        0,
        false,
        0,
        0,
        world_names,
        Identifier::new("minecraft:overworld".to_string()),
        0,
        0,
        "flat".to_string(),
        VarInt::new(4),
        false,
        true,
    )
}

/// The reply sends an encryption request with some public key and the
/// verify token that the connection holds.
pub open spec fn requests_key_exchange(r: Result<Reply, ProtocolError>, token: Option<[u8; 4]>) -> bool {
    &&& r matches Ok(Reply::Send(p))
    &&& token is Some
    &&& r->Ok_0->Send_0.id() == 0x01
    &&& exists|der: Seq<u8>| r->Ok_0->Send_0.body() == #[trigger] login_request_body(der, token->0@)
}

/// The body of an encryption request for a public key and a verify token.
pub open spec fn login_request_body(public_key: Seq<u8>, token: Seq<u8>) -> Seq<u8> {
    string_bytes(Seq::empty()) + crate::arrays::array_bytes::<u8>(public_key) + crate::arrays::array_bytes::<u8>(
        token,
    )
}

} // verus!
