//! The one packet of the handshaking phase.
use vstd::prelude::*;

use crate::buffer::bytes_held;
use crate::data_types::{DataType, DataTypeError, SizedDataType, UnsignedShort, WireRead};
use crate::packets::{FromPacket, PacketError, ServerboundPacket};
use crate::text::string_decoding;
use crate::varint::{varint_decoding, VarInt};

verus! {

/// The phase that a handshake asks for.
#[derive(Clone, Copy, Debug, PartialEq, Eq, Structural)]
pub enum NextState {
    Status,
    Login,
}

/// The phase that a handshake's `next_state` number names: 1 for status,
/// 2 for login.
pub open spec fn next_state_of(n: i32) -> Option<NextState> {
    if n == 1 {
        Some(NextState::Status)
    } else if n == 2 {
        Some(NextState::Login)
    } else {
        None
    }
}

/// The longest server address that a handshake carries, in bytes.
pub const MAX_SERVER_ADDRESS: usize = 255;

/// Handshake `0x00`: protocol version, the address and port the client
/// dialled, and the phase to enter next.
pub struct Handshake {
    protocol_version: VarInt,
    server_address: String,
    server_port: UnsignedShort,
    next_state: NextState,
}

/// The fields that a handshake body reads as, or `None`.
pub open spec fn handshake_fields(b: Seq<u8>) -> Option<(i32, Seq<char>, u16, NextState)> {
    match varint_decoding(b) {
        WireRead::Value(version, n1) => match string_decoding(b.skip(n1 as int), MAX_SERVER_ADDRESS as nat) {
            WireRead::Value(address, n2) => match <u16 as DataType>::decoding(b.skip((n1 + n2) as int)) {
                WireRead::Value(port, n3) => match varint_decoding(b.skip((n1 + n2 + n3) as int)) {
                    WireRead::Value(next, _) => match next_state_of(next) {
                        Some(state) => Some((version, address, port, state)),
                        None => None,
                    },
                    _ => None,
                },
                _ => None,
            },
            _ => None,
        },
        _ => None,
    }
}

impl Handshake {
    pub closed spec fn fields(&self) -> (i32, Seq<char>, u16, NextState) {
        (self.protocol_version@, self.server_address@, self.server_port, self.next_state)
    }

    pub fn protocol_version(&self) -> (r: VarInt)
        ensures
            r@ == self.fields().0,
    {
        self.protocol_version
    }

    pub fn server_address(&self) -> (r: String)
        ensures
            r@ == self.fields().1,
    {
        self.server_address.clone()
    }

    pub fn server_port(&self) -> (r: UnsignedShort)
        ensures
            r == self.fields().2,
    {
        self.server_port
    }

    pub fn next_state(&self) -> (r: NextState)
        ensures
            r == self.fields().3,
    {
        self.next_state
    }
}

impl FromPacket for Handshake {
    open spec fn accepts(body: Seq<u8>) -> bool {
        handshake_fields(body) is Some
    }

    open spec fn read_from_body(&self, body: Seq<u8>) -> bool {
        handshake_fields(body) == Some(self.fields())
    }

    fn from_packet(packet: ServerboundPacket) -> (r: Result<Handshake, PacketError>) {
        let mut buf = packet.data();
        let ghost b = bytes_held(buf);
        let protocol_version = match VarInt::read_from(&mut buf) {
            Ok(v) => v,
            Err(e) => return Err(PacketError::Data(e)),
        };
        let ghost n1 = b.len() - bytes_held(buf).len();
        let ghost b1 = bytes_held(buf);
        let server_address = match String::read_from_sized(&mut buf, MAX_SERVER_ADDRESS) {
            Ok(v) => v,
            Err(e) => return Err(PacketError::Data(e)),
        };
        let ghost n2 = b1.len() - bytes_held(buf).len();
        let ghost b2 = bytes_held(buf);
        proof {
            assert(b1 =~= b.skip(n1));
            assert(b2 =~= b.skip(n1 + n2));
        }
        let server_port = match UnsignedShort::read_from(&mut buf) {
            Ok(v) => v,
            Err(e) => return Err(PacketError::Data(e)),
        };
        let ghost n3 = b2.len() - bytes_held(buf).len();
        proof {
            assert(bytes_held(buf) =~= b.skip(n1 + n2 + n3));
        }
        let next = match VarInt::read_from(&mut buf) {
            Ok(v) => v.value(),
            Err(e) => return Err(PacketError::Data(e)),
        };
        let next_state = if next == 1 {
            NextState::Status
        } else if next == 2 {
            NextState::Login
        } else {
            return Err(PacketError::UnknownNextState(next));
        };
        Ok(Handshake { protocol_version, server_address, server_port, next_state })
    }
}

} // verus!
