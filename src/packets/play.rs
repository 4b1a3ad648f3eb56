//! The first packet of the play phase.
use vstd::prelude::*;

use bytes::BytesMut;
use vstd::utf8::encode_utf8;

use crate::arrays::{array_bytes, elems_encoding, lemma_elems_encoding_prefix};
use crate::data_types::{DataType, SizedDataType};
use crate::packets::{ClientboundPacket, IntoPacket};
use crate::text::{string_bytes, Identifier, MAX_STRING_LENGTH};
use crate::varint::{lemma_varint_round_trip, varint_bytes, VarInt};

verus! {

/// Join game `0x24`: places the player in the world.
pub struct JoinGame {
    entity_id: i32,
    is_hardcore: bool,
    gamemode: u8,
    previous_gamemode: i8,
    world_names: Vec<Identifier>,
    dimension_codec: Identifier,
    hashed_seed: i64,
    max_players: u8,
    level_type: String,
    view_distance: VarInt,
    reduced_debug_info: bool,
    enable_respawn_screen: bool,
}

impl JoinGame {
    pub closed spec fn world_names_model(&self) -> Seq<Seq<char>> {
        self.world_names.deep_view()
    }

    pub closed spec fn dimension_codec_model(&self) -> Seq<char> {
        self.dimension_codec@
    }

    pub closed spec fn level_type_model(&self) -> Seq<char> {
        self.level_type@
    }

    /// The packet's body: its fields in order.
    pub closed spec fn wire_body(&self) -> Seq<u8> {
        <i32 as DataType>::encoding(self.entity_id) + <bool as DataType>::encoding(self.is_hardcore) + <u8 as DataType>::encoding(
            self.gamemode,
        ) + <i8 as DataType>::encoding(self.previous_gamemode) + array_bytes::<Identifier>(
            self.world_names.deep_view(),
        ) + string_bytes(self.dimension_codec@) + <i64 as DataType>::encoding(self.hashed_seed)
            + <u8 as DataType>::encoding(self.max_players) + string_bytes(self.level_type@) + varint_bytes(
            self.view_distance@,
        ) + <bool as DataType>::encoding(self.reduced_debug_info) + <bool as DataType>::encoding(
            self.enable_respawn_screen,
        )
    }

    pub fn new(
        entity_id: i32,
        is_hardcore: bool,
        gamemode: u8,
        previous_gamemode: i8,
        world_names: Vec<Identifier>,
        dimension_codec: Identifier,
        hashed_seed: i64,
        max_players: u8,
        level_type: String,
        view_distance: VarInt,
        reduced_debug_info: bool,
        enable_respawn_screen: bool,
    ) -> (r: JoinGame)
        ensures
            r.world_names_model() == world_names.deep_view(),
            r.dimension_codec_model() == dimension_codec@,
            r.level_type_model() == level_type@,
            r.wire_body() == <i32 as DataType>::encoding(entity_id) + <bool as DataType>::encoding(is_hardcore)
                + <u8 as DataType>::encoding(gamemode) + <i8 as DataType>::encoding(previous_gamemode)
                + array_bytes::<Identifier>(world_names.deep_view()) + string_bytes(dimension_codec@)
                + <i64 as DataType>::encoding(hashed_seed) + <u8 as DataType>::encoding(max_players) + string_bytes(
                level_type@,
            ) + varint_bytes(view_distance@) + <bool as DataType>::encoding(reduced_debug_info)
                + <bool as DataType>::encoding(enable_respawn_screen),
    {
        JoinGame {
            entity_id,
            is_hardcore,
            gamemode,
            previous_gamemode,
            world_names,
            dimension_codec,
            hashed_seed,
            max_players,
            level_type,
            view_distance,
            reduced_debug_info,
            enable_respawn_screen,
        }
    }

    /// Whether every string and array fits its wire type.
    pub fn fits(&self) -> (r: bool)
        ensures
            r == self.sendable(),
    {
        if self.world_names.len() > 0x7fff_ffff {
            return false;
        }
        if !self.dimension_codec.fits() {
            return false;
        }
        if self.level_type.as_str().as_bytes().len() > 0x7fff_ffff {
            return false;
        }
        let ghost names = self.world_names.deep_view();
        let count = VarInt::new(self.world_names.len() as i32);
        proof {
            lemma_varint_round_trip(self.world_names.len() as i32, Seq::empty());
        }
        let mut total: u64 = count.size() as u64;
        let mut i: usize = 0;
        while i < self.world_names.len()
            invariant
                i <= self.world_names.len() <= 0x7fff_ffff,
                names == self.world_names.deep_view(),
                forall|j: int| 0 <= j < i ==> encode_utf8(#[trigger] names[j]).len() <= MAX_STRING_LENGTH,
                total == varint_bytes(names.len() as i32).len() + elems_encoding::<Identifier>(names.take(i as int)).len(),
                total <= 5 + i * (MAX_STRING_LENGTH + 5),
            decreases self.world_names.len() - i,
        {
            if !self.world_names[i].fits() {
                assert(names[i as int] == self.world_names[i as int]@);
                assert(!<Identifier as DataType>::writable(names[i as int]));
                return false;
            }
            proof {
                lemma_elems_encoding_prefix::<Identifier>(names, i as int);
                assert(names[i as int] == self.world_names[i as int]@);
                lemma_varint_round_trip(encode_utf8(names[i as int]).len() as i32, Seq::empty());
            }
            let size = self.world_names[i].size();
            assert(total + size <= 5 + (i + 1) * (MAX_STRING_LENGTH + 5)) by (nonlinear_arith)
                requires
                    total <= 5 + i * (MAX_STRING_LENGTH + 5),
                    size <= MAX_STRING_LENGTH + 5,
            ;
            assert(5 + (i + 1) * (MAX_STRING_LENGTH + 5) <= 0xffff_ffff_ffff) by (nonlinear_arith)
                requires
                    i < 0x8000_0000,
            ;
            total = total + size as u64;
            i = i + 1;
        }
        proof {
            assert(names.take(names.len() as int) =~= names);
        }
        total <= usize::MAX as u64
    }
}

impl IntoPacket for JoinGame {
    open spec fn id() -> i32 {
        0x24
    }

    open spec fn body(&self) -> Seq<u8> {
        self.wire_body()
    }

    open spec fn sendable(&self) -> bool {
        &&& <Vec<Identifier> as SizedDataType>::writable(self.world_names_model())
        &&& encode_utf8(self.dimension_codec_model()).len() <= MAX_STRING_LENGTH
        &&& encode_utf8(self.level_type_model()).len() <= i32::MAX
    }

    fn into_packet(self) -> (r: ClientboundPacket) {
        let mut data = BytesMut::new();
        self.entity_id.write_to(&mut data);
        self.is_hardcore.write_to(&mut data);
        self.gamemode.write_to(&mut data);
        self.previous_gamemode.write_to(&mut data);
        self.world_names.write_to(&mut data);
        self.dimension_codec.write_to(&mut data);
        self.hashed_seed.write_to(&mut data);
        self.max_players.write_to(&mut data);
        self.level_type.write_to(&mut data);
        self.view_distance.write_to(&mut data);
        self.reduced_debug_info.write_to(&mut data);
        self.enable_respawn_screen.write_to(&mut data);
        ClientboundPacket::new(0x24, data)
    }
}

} // verus!
