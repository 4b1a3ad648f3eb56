//! The packet registry: for each phase of a connection, the packets that
//! the server reads and writes, and their bodies on the wire.
use vstd::prelude::*;

use bytes::BytesMut;

use crate::buffer::bytes_held;
use crate::data_types::DataTypeError;

pub mod handshake;
pub mod login;
pub mod play;
pub mod status;

verus! {

/// Why a packet body could not be read as the packet its id names.
#[derive(Debug)]
pub enum PacketError {
    /// A field could not be read.
    Data(DataTypeError),
    /// The handshake asked for a phase other than status (1) or login (2).
    UnknownNextState(i32),
    /// Bytes remain in a packet that has none.
    TrailingBytes,
}

/// A packet read from a client: its id and its body.
#[derive(Debug)]
pub struct ServerboundPacket {
    packet_id: i32,
    data: BytesMut,
}

impl ServerboundPacket {
    pub closed spec fn id(&self) -> i32 {
        self.packet_id
    }

    pub closed spec fn body(&self) -> Seq<u8> {
        bytes_held(self.data)
    }

    pub fn new(packet_id: i32, data: BytesMut) -> (r: ServerboundPacket)
        ensures
            r.id() == packet_id,
            r.body() == bytes_held(data),
    {
        ServerboundPacket { packet_id, data }
    }

    pub fn packet_id(&self) -> (r: i32)
        ensures
            r == self.id(),
    {
        self.packet_id
    }

    pub fn data(self) -> (r: BytesMut)
        ensures
            bytes_held(r) == self.body(),
    {
        self.data
    }

    /// Reads the body as the packet `T`.
    pub fn parse<T: FromPacket>(self) -> (r: Result<T, PacketError>)
        ensures
            r is Ok <==> T::accepts(self.body()),
            r matches Ok(v) ==> v.read_from_body(self.body()),
    {
        T::from_packet(self)
    }
}

/// A packet to send to a client: its id and its body.
#[derive(Debug)]
pub struct ClientboundPacket {
    packet_id: i32,
    data: BytesMut,
}

impl ClientboundPacket {
    pub closed spec fn id(&self) -> i32 {
        self.packet_id
    }

    pub closed spec fn body(&self) -> Seq<u8> {
        bytes_held(self.data)
    }

    pub fn new(packet_id: i32, data: BytesMut) -> (r: ClientboundPacket)
        ensures
            r.id() == packet_id,
            r.body() == bytes_held(data),
    {
        ClientboundPacket { packet_id, data }
    }

    pub fn packet_id(&self) -> (r: i32)
        ensures
            r == self.id(),
    {
        self.packet_id
    }

    pub fn data(self) -> (r: BytesMut)
        ensures
            bytes_held(r) == self.body(),
    {
        self.data
    }
}

/// A packet that the server reads.
pub trait FromPacket: Sized {
    /// The bodies that form this packet.
    spec fn accepts(body: Seq<u8>) -> bool;

    /// `self` is what `body` reads as.
    spec fn read_from_body(&self, body: Seq<u8>) -> bool;

    fn from_packet(packet: ServerboundPacket) -> (r: Result<Self, PacketError>)
        ensures
            r is Ok <==> Self::accepts(packet.body()),
            r matches Ok(v) ==> v.read_from_body(packet.body()),
    ;
}

/// A packet that the server writes.
pub trait IntoPacket: Sized {
    /// The packet's id.
    spec fn id() -> i32;

    /// The packet's body.
    spec fn body(&self) -> Seq<u8>;

    /// Every field fits its wire type.
    spec fn sendable(&self) -> bool;

    fn into_packet(self) -> (r: ClientboundPacket)
        requires
            self.sendable(),
        ensures
            r.id() == Self::id(),
            r.body() == self.body(),
    ;
}

} // verus!
