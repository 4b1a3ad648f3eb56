//! Strings on the wire: a VarInt byte count, then the UTF-8 bytes. Chat
//! messages and identifiers travel the same way.
use vstd::prelude::*;

use bytes::BytesMut;
use vstd::utf8::{
    decode_utf8, decode_utf8_encode_utf8, encode_utf8, encode_utf8_decode_utf8, encode_utf8_valid_utf8, valid_utf8,
};

use crate::buffer::{bytes_held, held_slice};
use crate::data_types::{malformed, out_of_bytes, read_exact, read_outcome, DataType, DataTypeError, SizedDataType, WireRead};
use crate::varint::{lemma_varint_decoding_len, lemma_varint_round_trip, varint_bytes, varint_decoding, VarInt};

verus! {

/// The longest string that any field admits, in bytes.
pub const MAX_STRING_LENGTH: usize = 32767;

/// Relies on `String::from_utf8`: it succeeds exactly on valid UTF-8, and
/// then holds the characters that the bytes encode.
#[verifier::external_body]
fn utf8_string(bytes: &[u8]) -> (r: Option<String>)
    ensures
        r is Some <==> valid_utf8(bytes@),
        r matches Some(s) ==> s@ == decode_utf8(bytes@),
{
    String::from_utf8(bytes.to_vec()).ok()
}

/// The bytes of a string: its UTF-8 length as a VarInt, then its UTF-8.
pub open spec fn string_bytes(s: Seq<char>) -> Seq<u8> {
    varint_bytes(encode_utf8(s).len() as i32) + encode_utf8(s)
}

/// Reading a string of at most `max` bytes.
pub open spec fn string_decoding(b: Seq<u8>, max: nat) -> WireRead<Seq<char>> {
    match varint_decoding(b) {
        WireRead::Value(len, n) => {
            if len < 0 || len > max {
                WireRead::Bad
            } else if b.len() < n + len {
                WireRead::Short
            } else if !valid_utf8(b.subrange(n as int, n + len)) {
                WireRead::Bad
            } else {
                WireRead::Value(decode_utf8(b.subrange(n as int, n + len)), (n + len) as nat)
            }
        },
        WireRead::Short => WireRead::Short,
        WireRead::Bad => WireRead::Bad,
    }
}

/// Every string whose UTF-8 fits the limit comes back from its bytes,
/// whatever follows them.
pub proof fn lemma_string_round_trip(s: Seq<char>, rest: Seq<u8>, max: nat)
    requires
        encode_utf8(s).len() <= max,
        encode_utf8(s).len() <= i32::MAX,
    ensures
        string_decoding(string_bytes(s) + rest, max) == WireRead::Value(s, string_bytes(s).len()),
{
    let u = encode_utf8(s);
    let len = u.len() as i32;
    lemma_varint_round_trip(len, u + rest);
    let b = string_bytes(s) + rest;
    assert(b =~= varint_bytes(len) + (u + rest));
    let n = varint_bytes(len).len();
    assert(b.subrange(n as int, (n + u.len()) as int) =~= u);
    encode_utf8_valid_utf8(s);
    encode_utf8_decode_utf8(s);
}

/// A string read under a limit fits that limit.
pub proof fn lemma_string_decoding_within(b: Seq<u8>, max: nat)
    ensures
        string_decoding(b, max) matches WireRead::Value(s, _) ==> encode_utf8(s).len() <= max,
{
    if let WireRead::Value(len, n) = varint_decoding(b) {
        if 0 <= len <= max && b.len() >= n + len {
            let data = b.subrange(n as int, n + len);
            if valid_utf8(data) {
                decode_utf8_encode_utf8(data);
            }
        }
    }
}

impl SizedDataType for String {
    open spec fn encoding(v: Seq<char>) -> Seq<u8> {
        string_bytes(v)
    }

    open spec fn writable(v: Seq<char>) -> bool {
        encode_utf8(v).len() <= i32::MAX
    }

    open spec fn within(v: Seq<char>, max: nat) -> bool {
        encode_utf8(v).len() <= max
    }

    open spec fn decoding(bytes: Seq<u8>, max: nat) -> WireRead<Seq<char>> {
        string_decoding(bytes, max)
    }

    proof fn lemma_round_trip(v: Seq<char>, rest: Seq<u8>, max: nat) {
        lemma_string_round_trip(v, rest, max);
    }

    fn read_from_sized(src: &mut BytesMut, size: usize) -> (r: Result<String, DataTypeError>)
        ensures
            read_exact(
                string_decoding(bytes_held(*old(src)), size as nat),
                r,
                bytes_held(*old(src)),
                bytes_held(*final(src)),
            ),
    {
        let ghost start = bytes_held(*src);
        let ghost n: int = match varint_decoding(start) {
            WireRead::Value(_, k) => k as int,
            _ => 0,
        };
        proof {
            lemma_varint_decoding_len(start);
            assert(<String as SizedDataType>::decoding(start, size as nat) == string_decoding(start, size as nat));
        }
        // Prefixed with its size in bytes
        let length = match VarInt::read_from(src) {
            Ok(v) => v.value(),
            Err(e) => {
                assert(varint_decoding(start) is Short ==> string_decoding(start, size as nat) is Short);
                assert(varint_decoding(start) is Bad ==> string_decoding(start, size as nat) is Bad);
                return Err(e);
            },
        };
        assert(varint_decoding(start) == WireRead::Value(length, n as nat));
        if length < 0 {
            assert(string_decoding(start, size as nat) == WireRead::<Seq<char>>::Bad);
            return Err(malformed("String", "bad value for length prefix"));
        }
        let length = length as usize;
        if length > size {
            return Err(malformed("String", "length header too large for the field"));
        }
        if src.len() < length {
            return Err(out_of_bytes("String"));
        }
        let data = src.split_to(length);
        proof {
            assert(bytes_held(data) =~= start.subrange(n, n + length as int));
            assert(bytes_held(*src) =~= start.skip(n + length));
        }
        match utf8_string(held_slice(&data)) {
            Some(s) => Ok(s),
            None => Err(malformed("String", "malformed UTF8 string")),
        }
    }

    fn write_to(self, dst: &mut BytesMut) {
        let bytes = self.as_str().as_bytes();
        let length = VarInt::new(bytes.len() as i32);
        length.write_to(dst);
        dst.extend_from_slice(bytes);
    }

    fn size(&self) -> (r: usize) {
        let length = self.as_str().len();
        let header = VarInt::new(length as i32);
        proof {
            lemma_varint_round_trip(length as i32, Seq::empty());
        }
        header.size() + length
    }
}

/// A chat message: a JSON chat component carried as a string.
#[derive(Debug)]
pub struct Chat {
    message: String,
}

impl View for Chat {
    type V = Seq<char>;

    closed spec fn view(&self) -> Seq<char> {
        self.message@
    }
}

impl DeepView for Chat {
    type V = Seq<char>;

    open spec fn deep_view(&self) -> Seq<char> {
        self@
    }
}

impl Chat {
    pub fn new(message: String) -> (r: Chat)
        ensures
            r@ == message@,
    {
        Chat { message }
    }
}

impl DataType for Chat {
    open spec fn encoding(v: Seq<char>) -> Seq<u8> {
        string_bytes(v)
    }

    open spec fn writable(v: Seq<char>) -> bool {
        encode_utf8(v).len() <= MAX_STRING_LENGTH
    }

    open spec fn decoding(bytes: Seq<u8>) -> WireRead<Seq<char>> {
        string_decoding(bytes, MAX_STRING_LENGTH as nat)
    }

    proof fn lemma_round_trip(v: Seq<char>, rest: Seq<u8>) {
        lemma_string_round_trip(v, rest, MAX_STRING_LENGTH as nat);
    }

    fn read_from(src: &mut BytesMut) -> (r: Result<Chat, DataTypeError>) {
        match String::read_from_sized(src, MAX_STRING_LENGTH) {
            Ok(message) => Ok(Chat { message }),
            Err(e) => Err(e),
        }
    }

    fn write_to(self, dst: &mut BytesMut) {
        self.message.write_to(dst)
    }

    fn size(&self) -> (r: usize) {
        self.message.size()
    }
}

/// A namespaced identifier such as `minecraft:overworld`, carried as a string.
#[derive(Debug)]
pub struct Identifier {
    identifier: String,
}

impl View for Identifier {
    type V = Seq<char>;

    closed spec fn view(&self) -> Seq<char> {
        self.identifier@
    }
}

impl DeepView for Identifier {
    type V = Seq<char>;

    open spec fn deep_view(&self) -> Seq<char> {
        self@
    }
}

impl Identifier {
    pub fn new(identifier: String) -> (r: Identifier)
        ensures
            r@ == identifier@,
    {
        Identifier { identifier }
    }
}

impl Identifier {
    /// Whether the identifier fits the string limit of the wire.
    pub fn fits(&self) -> (r: bool)
        ensures
            r == (encode_utf8(self@).len() <= MAX_STRING_LENGTH),
    {
        self.identifier.as_str().as_bytes().len() <= MAX_STRING_LENGTH
    }
}

impl DataType for Identifier {
    open spec fn encoding(v: Seq<char>) -> Seq<u8> {
        string_bytes(v)
    }

    open spec fn writable(v: Seq<char>) -> bool {
        encode_utf8(v).len() <= MAX_STRING_LENGTH
    }

    open spec fn decoding(bytes: Seq<u8>) -> WireRead<Seq<char>> {
        string_decoding(bytes, MAX_STRING_LENGTH as nat)
    }

    proof fn lemma_round_trip(v: Seq<char>, rest: Seq<u8>) {
        lemma_string_round_trip(v, rest, MAX_STRING_LENGTH as nat);
    }

    fn read_from(src: &mut BytesMut) -> (r: Result<Identifier, DataTypeError>) {
        match String::read_from_sized(src, MAX_STRING_LENGTH) {
            Ok(identifier) => Ok(Identifier { identifier }),
            Err(e) => Err(e),
        }
    }

    fn write_to(self, dst: &mut BytesMut) {
        self.identifier.write_to(dst)
    }

    fn size(&self) -> (r: usize) {
        self.identifier.size()
    }
}

} // verus!
