//! The packets of the login phase: the player's name, the key exchange and
//! its outcome.
use vstd::prelude::*;

use bytes::BytesMut;
use vstd::utf8::encode_utf8;

use crate::arrays::{array_bytes, array_decoding, elems_encoding};
use crate::buffer::bytes_held;
use crate::data_types::{DataType, SizedDataType, Uuid, WireRead};
use crate::packets::{ClientboundPacket, FromPacket, IntoPacket, PacketError, ServerboundPacket};
use crate::text::{string_bytes, string_decoding};

verus! {

/// The longest player name, in bytes.
pub const MAX_USERNAME: usize = 16;

/// The longest field of an encryption response, in bytes.
pub const MAX_ENCRYPTED_FIELD: usize = 128;

/// Login start `0x00`: the player's name.
pub struct Start {
    username: String,
}

impl Start {
    pub closed spec fn name(&self) -> Seq<char> {
        self.username@
    }

    pub fn username(self) -> (r: String)
        ensures
            r@ == self.name(),
    {
        self.username
    }
}

impl FromPacket for Start {
    open spec fn accepts(body: Seq<u8>) -> bool {
        string_decoding(body, MAX_USERNAME as nat) is Value
    }

    open spec fn read_from_body(&self, body: Seq<u8>) -> bool {
        string_decoding(body, MAX_USERNAME as nat) matches WireRead::Value(name, _) && name == self.name()
    }

    fn from_packet(packet: ServerboundPacket) -> (r: Result<Start, PacketError>) {
        let mut data = packet.data();
        match String::read_from_sized(&mut data, MAX_USERNAME) {
            Ok(username) => Ok(Start { username }),
            Err(e) => Err(PacketError::Data(e)),
        }
    }
}

/// Byte arrays take one byte per element after their count.
pub proof fn lemma_byte_array_len(v: Seq<u8>)
    ensures
        elems_encoding::<u8>(v).len() == v.len(),
    decreases v.len(),
{
    if v.len() > 0 {
        lemma_byte_array_len(v.drop_last());
        assert(<u8 as DataType>::encoding(v.last()).len() == 1) by {
            reveal_with_fuel(crate::data_types::be_bytes, 2);
        }
    }
}

/// Encryption request `0x01`: the server's public key and the token that
/// the client must send back encrypted with it.
pub struct EncryptionRequest {
    server_id: String,
    public_key: Vec<u8>,
    verify_token: Vec<u8>,
}

impl EncryptionRequest {
    pub closed spec fn fields(&self) -> (Seq<char>, Seq<u8>, Seq<u8>) {
        (self.server_id@, self.public_key@, self.verify_token@)
    }

    pub fn new(rsa: Vec<u8>, verify_token: [u8; 4]) -> (r: EncryptionRequest)
        ensures
            r.fields() == (Seq::<char>::empty(), rsa@, verify_token@),
    {
        let token: Vec<u8> = vec![verify_token[0], verify_token[1], verify_token[2], verify_token[3]];
        assert(token@ =~= verify_token@);
        EncryptionRequest { server_id: String::new(), public_key: rsa, verify_token: token }
    }
}

impl IntoPacket for EncryptionRequest {
    open spec fn id() -> i32 {
        0x01
    }

    open spec fn body(&self) -> Seq<u8> {
        string_bytes(self.fields().0) + array_bytes::<u8>(self.fields().1) + array_bytes::<u8>(self.fields().2)
    }

    open spec fn sendable(&self) -> bool {
        &&& encode_utf8(self.fields().0).len() <= i32::MAX
        &&& self.fields().1.len() <= i32::MAX
        &&& self.fields().2.len() <= i32::MAX
    }

    fn into_packet(self) -> (r: ClientboundPacket) {
        proof {
            lemma_byte_array_len(self.public_key@);
            lemma_byte_array_len(self.verify_token@);
            crate::varint::lemma_varint_round_trip(self.public_key@.len() as i32, Seq::empty());
            crate::varint::lemma_varint_round_trip(self.verify_token@.len() as i32, Seq::empty());
            assert(self.public_key.deep_view() =~= self.public_key@);
            assert(self.verify_token.deep_view() =~= self.verify_token@);
        }
        let mut data = BytesMut::new();
        self.server_id.write_to(&mut data);
        self.public_key.write_to(&mut data);
        self.verify_token.write_to(&mut data);
        ClientboundPacket::new(0x01, data)
    }
}

/// The two fields of an encryption response, each an array of at most 128
/// bytes, or `None`.
pub open spec fn encryption_response_fields(b: Seq<u8>) -> Option<(Seq<u8>, Seq<u8>)> {
    match array_decoding::<u8>(b, MAX_ENCRYPTED_FIELD as nat) {
        WireRead::Value(secret, n) => match array_decoding::<u8>(b.skip(n as int), MAX_ENCRYPTED_FIELD as nat) {
            WireRead::Value(token, _) => Some((secret, token)),
            _ => None,
        },
        _ => None,
    }
}

/// Encryption response `0x01`: the shared secret and the verify token,
/// both encrypted with the server's public key.
pub struct EncryptionResponse {
    shared_secret: Vec<u8>,
    verify_token: Vec<u8>,
}

impl EncryptionResponse {
    pub closed spec fn fields(&self) -> (Seq<u8>, Seq<u8>) {
        (self.shared_secret@, self.verify_token@)
    }

    pub fn into_parts(self) -> (r: (Vec<u8>, Vec<u8>))
        ensures
            (r.0@, r.1@) == self.fields(),
    {
        (self.shared_secret, self.verify_token)
    }
}

impl FromPacket for EncryptionResponse {
    open spec fn accepts(body: Seq<u8>) -> bool {
        encryption_response_fields(body) is Some
    }

    open spec fn read_from_body(&self, body: Seq<u8>) -> bool {
        encryption_response_fields(body) == Some(self.fields())
    }

    fn from_packet(packet: ServerboundPacket) -> (r: Result<EncryptionResponse, PacketError>) {
        let mut data = packet.data();
        let ghost b = bytes_held(data);
        let shared_secret = match Vec::<u8>::read_from_sized(&mut data, MAX_ENCRYPTED_FIELD) {
            Ok(v) => v,
            Err(e) => return Err(PacketError::Data(e)),
        };
        let verify_token = match Vec::<u8>::read_from_sized(&mut data, MAX_ENCRYPTED_FIELD) {
            Ok(v) => v,
            Err(e) => return Err(PacketError::Data(e)),
        };
        proof {
            assert(shared_secret.deep_view() =~= shared_secret@);
            assert(verify_token.deep_view() =~= verify_token@);
        }
        Ok(EncryptionResponse { shared_secret, verify_token })
    }
}

/// Login success `0x02`: the player's UUID and name.
pub struct Success {
    uuid: Uuid,
    username: String,
}

impl Success {
    pub closed spec fn fields(&self) -> (u128, Seq<char>) {
        (self.uuid@, self.username@)
    }

    pub fn new(uuid: &Uuid, username: &str) -> (r: Success)
        ensures
            r.fields() == (uuid@, username@),
    {
        Success { uuid: *uuid, username: username.to_string() }
    }
}

impl IntoPacket for Success {
    open spec fn id() -> i32 {
        0x02
    }

    open spec fn body(&self) -> Seq<u8> {
        <Uuid as DataType>::encoding(self.fields().0) + string_bytes(self.fields().1)
    }

    open spec fn sendable(&self) -> bool {
        encode_utf8(self.fields().1).len() <= i32::MAX
    }

    fn into_packet(self) -> (r: ClientboundPacket) {
        let mut data = BytesMut::new();
        self.uuid.write_to(&mut data);
        self.username.write_to(&mut data);
        ClientboundPacket::new(0x02, data)
    }
}

} // verus!
