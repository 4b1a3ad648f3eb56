//! Framing: each packet travels as `VarInt(length) || VarInt(id) || body`,
//! the length counting the id and the body. After login the whole stream,
//! length prefixes included, runs through AES-128 in CFB8 mode.
use vstd::prelude::*;

use bytes::BytesMut;
use openssl::error::ErrorStack;
use openssl::symm::Crypter;

use crate::buffer::{bytes_held, held_slice};
use crate::data_types::{DataType, DataTypeError, WireRead};
use crate::packets::{ClientboundPacket, ServerboundPacket};
use crate::varint::{lemma_varint_decoding_len, lemma_varint_extend, lemma_varint_round_trip, peek_varint, varint_bytes, varint_decoding, VarInt};

verus! {

#[verifier::external_type_specification]
#[verifier::external_body]
pub struct ExCrypter(openssl::symm::Crypter);

#[verifier::external_type_specification]
#[verifier::external_body]
pub struct ExErrorStack(openssl::error::ErrorStack);

/// Relies on `Crypter::new` with `Cipher::aes_128_cfb8()`: a cipher in the
/// given direction, the 16-byte key doubling as the IV (it panics on a key
/// shorter than the cipher's).
#[verifier::external_body]
fn cfb8_crypter(key: &[u8], decrypt: bool) -> (r: Result<Crypter, ErrorStack>)
    requires
        key@.len() == 16,
{
    let mode = if decrypt {
        openssl::symm::Mode::Decrypt
    } else {
        openssl::symm::Mode::Encrypt
    };
    Crypter::new(openssl::symm::Cipher::aes_128_cfb8(), mode, key, Some(key))
}

/// The most bytes handed to the cipher at once.
pub const CIPHER_CHUNK: usize = 4096;

/// Relies on `Crypter::update`: runs `input` through the cipher and returns
/// the bytes it wrote (it panics when the input length exceeds `c_int`).
#[verifier::external_body]
fn cipher_update(c: &mut Crypter, input: &[u8]) -> (r: Result<Vec<u8>, ErrorStack>)
    requires
        input@.len() <= CIPHER_CHUNK,
    ensures
        r matches Ok(out) ==> out@.len() <= input@.len() + 16,
{
    let mut out = vec![0u8; input.len() + 16];
    let n = c.update(input, &mut out)?;
    out.truncate(n);
    Ok(out)
}

/// Runs all of `input` through the cipher, a chunk at a time, and returns
/// what it wrote: at most 16 bytes more than each chunk.
fn cipher_stream(c: &mut Crypter, input: BytesMut) -> (r: Result<Vec<u8>, ErrorStack>)
    ensures
        r matches Ok(out) ==> out@.len() <= 17 * bytes_held(input).len(),
{
    let ghost total = bytes_held(input).len();
    let mut input = input;
    let mut output: Vec<u8> = Vec::new();
    while input.len() > 0
        invariant
            output@.len() + 17 * bytes_held(input).len() <= 17 * total,
        decreases bytes_held(input).len(),
    {
        let take = if input.len() < CIPHER_CHUNK {
            input.len()
        } else {
            CIPHER_CHUNK
        };
        let chunk = input.split_to(take);
        let mut out = match cipher_update(c, held_slice(&chunk)) {
            Ok(out) => out,
            Err(e) => return Err(e),
        };
        output.append(&mut out);
    }
    Ok(output)
}

/// What the front of a stream holds: a whole frame (the packet's id, its
/// body, and the bytes the frame takes), too few bytes yet, or bytes that
/// can never form a frame.
pub enum Frame {
    Packet(i32, Seq<u8>, nat),
    Incomplete,
    Invalid,
}

/// The first frame of `s`.
pub open spec fn next_frame(s: Seq<u8>) -> Frame {
    match varint_decoding(s) {
        WireRead::Value(len, n) => {
            if len < 0 {
                Frame::Invalid
            } else if s.len() < n + len {
                Frame::Incomplete
            } else {
                let frame = s.subrange(n as int, n + len);
                match varint_decoding(frame) {
                    WireRead::Value(id, m) => Frame::Packet(id, frame.skip(m as int), (n + len) as nat),
                    _ => Frame::Invalid,
                }
            }
        },
        WireRead::Short => Frame::Incomplete,
        WireRead::Bad => Frame::Invalid,
    }
}

/// A frame that has arrived in full reads the same whatever arrives after
/// it, and a stream cut before the end of a whole frame reads as
/// incomplete: so feeding the stream a byte at a time yields the packets
/// that feeding it at once does.
pub proof fn lemma_frame_boundaries(s: Seq<u8>, t: Seq<u8>)
    ensures
        next_frame(s) is Packet ==> next_frame(s + t) == next_frame(s),
        next_frame(s + t) matches Frame::Packet(_, _, c) ==> (if s.len() < c {
            next_frame(s) is Incomplete
        } else {
            next_frame(s) == next_frame(s + t)
        }),
{
    lemma_varint_extend(s, t);
    lemma_varint_decoding_len(s);
    lemma_varint_decoding_len(s + t);
    if let WireRead::Value(len, n) = varint_decoding(s + t) {
        if s.len() >= n && len >= 0 && s.len() >= n + len {
            assert((s + t).subrange(n as int, n + len) =~= s.subrange(n as int, n + len));
        }
    }
}

/// A frame read ended as `f` says: with the packet and the bytes after it
/// left, with nothing taken, or with an error.
pub open spec fn frame_outcome<E>(
    f: Frame,
    r: Result<Option<ServerboundPacket>, E>,
    before: Seq<u8>,
    after: Seq<u8>,
) -> bool {
    match f {
        Frame::Packet(id, body, c) => (r matches Ok(Some(p)) && p.id() == id && p.body() == body && after
            == before.skip(c as int)),
        Frame::Incomplete => (r matches Ok(None) && after == before),
        Frame::Invalid => r is Err,
    }
}

/// Why the incoming stream cannot go on.
#[derive(Debug)]
pub enum DecoderError {
    /// A length prefix or packet id is malformed.
    Data(DataTypeError),
    /// A length prefix is negative.
    NegativeLength(i32),
    /// The cipher failed.
    Cipher(ErrorStack),
}

/// Takes the first whole frame off the front of `buf`, if it has arrived.
/// Nothing is taken while the frame is incomplete.
pub fn take_frame(buf: &mut BytesMut) -> (r: Result<Option<ServerboundPacket>, DecoderError>)
    ensures
        frame_outcome(next_frame(bytes_held(*old(buf))), r, bytes_held(*old(buf)), bytes_held(*final(buf))),
{
    let ghost s = bytes_held(*buf);
    let (length, n) = match peek_varint(held_slice(buf)) {
        Ok(v) => v,
        Err(e) => {
            if e.is_out_of_bytes() {
                return Ok(None);
            }
            return Err(DecoderError::Data(e));
        },
    };
    if length < 0 {
        return Err(DecoderError::NegativeLength(length));
    }
    let length = length as usize;
    if buf.len() - n < length {
        return Ok(None);
    }
    let _ = buf.split_to(n);
    let mut frame = buf.split_to(length);
    proof {
        assert(bytes_held(frame) =~= s.subrange(n as int, n + length));
        assert(bytes_held(*buf) =~= s.skip(n + length));
        lemma_varint_decoding_len(bytes_held(frame));
    }
    let id = match VarInt::read_from(&mut frame) {
        Ok(v) => v.value(),
        Err(e) => return Err(DecoderError::Data(e)),
    };
    Ok(Some(ServerboundPacket::new(id, frame)))
}

/// Splits the incoming byte stream into packets, decrypting it once
/// encryption is on.
pub struct ServerboundDecoder {
    /// The cipher, once encryption is on.
    decrypter: Option<Crypter>,
    /// Decrypted bytes not yet taken as frames.
    buffer: BytesMut,
    /// Every byte handed to the cipher since encryption was enabled.
    deciphered: Ghost<Seq<u8>>,
}

impl ServerboundDecoder {
    pub closed spec fn encrypted(&self) -> bool {
        self.decrypter is Some
    }

    /// The bytes handed to the cipher since encryption was enabled.
    pub closed spec fn ciphertext(&self) -> Seq<u8> {
        self.deciphered@
    }

    /// The decrypted bytes waiting to be framed.
    pub closed spec fn pending(&self) -> Seq<u8> {
        bytes_held(self.buffer)
    }

    pub fn new() -> (r: ServerboundDecoder)
        ensures
            !r.encrypted(),
            r.pending() == Seq::<u8>::empty(),
    {
        ServerboundDecoder { decrypter: None, buffer: BytesMut::new(), deciphered: Ghost(Seq::empty()) }
    }

    /// Decrypts every byte that arrives from now on with AES-128/CFB8 under
    /// `key`, which is also the IV.
    pub fn enable_encryption(&mut self, key: &[u8]) -> (r: Result<(), ErrorStack>)
        requires
            key@.len() == 16,
        ensures
            r is Ok ==> final(self).encrypted() && final(self).ciphertext() == Seq::<u8>::empty(),
            r is Err ==> final(self).encrypted() == old(self).encrypted() && final(self).ciphertext() == old(
                self,
            ).ciphertext(),
            final(self).pending() == old(self).pending(),
    {
        match cfb8_crypter(key, true) {
            Ok(c) => {
                self.decrypter = Some(c);
                self.deciphered = Ghost(Seq::empty());
                Ok(())
            },
            Err(e) => Err(e),
        }
    }

    /// Takes the next packet from the stream in `src`. In the clear, the
    /// frame is read from `src` itself. Encrypted, all of `src` is
    /// decrypted onto the pending bytes first, and the frame is read from
    /// those.
    pub fn decode(&mut self, src: &mut BytesMut) -> (r: Result<Option<ServerboundPacket>, DecoderError>)
        ensures
            final(self).encrypted() == old(self).encrypted(),
            !old(self).encrypted() ==> frame_outcome(
                next_frame(bytes_held(*old(src))),
                r,
                bytes_held(*old(src)),
                bytes_held(*final(src)),
            ) && final(self).pending() == old(self).pending() && final(self).ciphertext() == old(self).ciphertext(),
            old(self).encrypted() && r is Ok ==> final(self).ciphertext() == old(self).ciphertext() + bytes_held(
                *old(src),
            ),
            old(self).encrypted() && r is Ok ==> bytes_held(*final(src)) == Seq::<u8>::empty() && exists|plain: Seq<
                u8,
            >|
                frame_outcome(
                    next_frame(#[trigger] (old(self).pending() + plain)),
                    r,
                    old(self).pending() + plain,
                    final(self).pending(),
                ),
    {
        match &mut self.decrypter {
            None => take_frame(src),
            Some(decrypter) => {
                let incoming = src.split();
                self.deciphered = Ghost(self.deciphered@ + bytes_held(incoming));
                let plain = match cipher_stream(decrypter, incoming) {
                    Ok(plain) => plain,
                    Err(e) => return Err(DecoderError::Cipher(e)),
                };
                let ghost start = bytes_held(self.buffer);
                self.buffer.extend_from_slice(plain.as_slice());
                let r = take_frame(&mut self.buffer);
                assert(start == old(self).pending());
                assert(frame_outcome(
                    next_frame(old(self).pending() + plain@),
                    r,
                    old(self).pending() + plain@,
                    bytes_held(self.buffer),
                ));
                r
            },
        }
    }
}

/// The bytes of a frame: the length of the id and body, the id, the body.
pub open spec fn frame_bytes(id: i32, body: Seq<u8>) -> Seq<u8> {
    varint_bytes((varint_bytes(id).len() + body.len()) as i32) + varint_bytes(id) + body
}

/// A frame's length fits its 32-bit signed prefix.
pub open spec fn frame_fits(id: i32, body: Seq<u8>) -> bool {
    varint_bytes(id).len() + body.len() <= i32::MAX
}

/// Why a packet could not be written.
#[derive(Debug)]
pub enum EncoderError {
    /// The packet's id and body exceed what a 32-bit length can count.
    TooLong,
    /// The cipher failed.
    Cipher(ErrorStack),
}

/// Frames outgoing packets, encrypting them once encryption is on.
pub struct ClientboundEncoder {
    encrypter: Option<Crypter>,
    /// Every byte handed to the cipher since encryption was enabled.
    enciphered: Ghost<Seq<u8>>,
}

impl ClientboundEncoder {
    pub closed spec fn encrypted(&self) -> bool {
        self.encrypter is Some
    }

    /// The frame bytes handed to the cipher since encryption was enabled.
    pub closed spec fn plaintext(&self) -> Seq<u8> {
        self.enciphered@
    }

    pub fn new() -> (r: ClientboundEncoder)
        ensures
            !r.encrypted(),
    {
        ClientboundEncoder { encrypter: None, enciphered: Ghost(Seq::empty()) }
    }

    /// Encrypts every byte written from now on with AES-128/CFB8 under
    /// `key`, which is also the IV.
    pub fn enable_encryption(&mut self, key: &[u8]) -> (r: Result<(), ErrorStack>)
        requires
            key@.len() == 16,
        ensures
            r is Ok ==> final(self).encrypted() && final(self).plaintext() == Seq::<u8>::empty(),
            r is Err ==> final(self).encrypted() == old(self).encrypted() && final(self).plaintext() == old(
                self,
            ).plaintext(),
    {
        match cfb8_crypter(key, false) {
            Ok(c) => {
                self.encrypter = Some(c);
                self.enciphered = Ghost(Seq::empty());
                Ok(())
            },
            Err(e) => Err(e),
        }
    }

    /// Appends the packet's frame to `dst`: in the clear, its bytes; once
    /// encrypted, what the cipher makes of them.
    pub fn encode(&mut self, item: ClientboundPacket, dst: &mut BytesMut) -> (r: Result<(), EncoderError>)
        ensures
            final(self).encrypted() == old(self).encrypted(),
            !frame_fits(item.id(), item.body()) ==> (r matches Err(EncoderError::TooLong) && bytes_held(*final(dst))
                == bytes_held(*old(dst))),
            frame_fits(item.id(), item.body()) && !old(self).encrypted() ==> r is Ok && bytes_held(*final(dst))
                == bytes_held(*old(dst)) + frame_bytes(item.id(), item.body()),
            !old(self).encrypted() ==> final(self).plaintext() == old(self).plaintext(),
            r is Ok && old(self).encrypted() ==> final(self).plaintext() == old(self).plaintext() + frame_bytes(
                item.id(),
                item.body(),
            ),
            r is Ok && old(self).encrypted() ==> exists|sealed: Seq<u8>|
                bytes_held(*final(dst)) == #[trigger] (bytes_held(*old(dst)) + sealed) && sealed.len() <= 17
                    * frame_bytes(item.id(), item.body()).len(),
    {
        let packet_id = VarInt::new(item.packet_id());
        let ghost body = item.body();
        let data = item.data();
        proof {
            lemma_varint_round_trip(packet_id@, Seq::empty());
        }
        let id_size = packet_id.size();
        let data_len = data.len();
        if data_len > 0x7fff_ffff || id_size + data_len > 0x7fff_ffff {
            return Err(EncoderError::TooLong);
        }
        let buffer_length = VarInt::new((id_size + data_len) as i32);
        let mut frame = BytesMut::new();
        buffer_length.write_to(&mut frame);
        packet_id.write_to(&mut frame);
        frame.extend_from_slice(held_slice(&data));
        proof {
            assert(bytes_held(frame) =~= frame_bytes(packet_id@, body));
        }
        match &mut self.encrypter {
            None => {
                dst.extend_from_slice(held_slice(&frame));
                Ok(())
            },
            Some(encrypter) => {
                self.enciphered = Ghost(self.enciphered@ + bytes_held(frame));
                let sealed = match cipher_stream(encrypter, frame) {
                    Ok(sealed) => sealed,
                    Err(e) => return Err(EncoderError::Cipher(e)),
                };
                let ghost start = bytes_held(*dst);
                dst.extend_from_slice(sealed.as_slice());
                assert(bytes_held(*dst) == start + sealed@);
                Ok(())
            },
        }
    }
}

} // verus!
