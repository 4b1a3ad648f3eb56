//! The packets of the status phase: the server list query and its ping.
use vstd::prelude::*;

use bytes::BytesMut;
use vstd::string::StringExecFns;
use vstd::utf8::encode_utf8;

use crate::buffer::bytes_held;
use crate::auth::hex_digit;
use crate::data_types::{DataType, Long, SizedDataType, WireRead};
use crate::packets::{ClientboundPacket, FromPacket, IntoPacket, PacketError, ServerboundPacket};
use crate::text::{string_bytes, MAX_STRING_LENGTH};

verus! {

/// Request `0x00`: asks for the server's status document; it has no body.
pub struct Request;

impl FromPacket for Request {
    open spec fn accepts(body: Seq<u8>) -> bool {
        body.len() == 0
    }

    open spec fn read_from_body(&self, body: Seq<u8>) -> bool {
        true
    }

    fn from_packet(packet: ServerboundPacket) -> (r: Result<Request, PacketError>) {
        // The request packet has no payload
        if packet.data().len() == 0 {
            Ok(Request)
        } else {
            Err(PacketError::TrailingBytes)
        }
    }
}

/// How a character is written inside a JSON string literal: quote and
/// backslash escaped, the control characters below U+0020 as their short
/// escapes or as `\u00XX` in lowercase hex, every other character as is.
pub open spec fn json_escaped_char(c: char) -> Seq<char> {
    if c == '"' {
        seq!['\\', '"']
    } else if c == '\\' {
        seq!['\\', '\\']
    } else if c == '\u{8}' {
        seq!['\\', 'b']
    } else if c == '\t' {
        seq!['\\', 't']
    } else if c == '\n' {
        seq!['\\', 'n']
    } else if c == '\u{c}' {
        seq!['\\', 'f']
    } else if c == '\r' {
        seq!['\\', 'r']
    } else if (c as u32) < 0x20 {
        seq!['\\', 'u', '0', '0', hex_digit((c as u32 / 16) as nat), hex_digit((c as u32 % 16) as nat)]
    } else {
        seq![c]
    }
}

/// The characters of a string, each written as in a JSON string literal.
pub open spec fn json_escaped(s: Seq<char>) -> Seq<char>
    decreases s.len(),
{
    if s.len() == 0 {
        Seq::empty()
    } else {
        json_escaped_char(s[0]) + json_escaped(s.drop_first())
    }
}

/// A string as a quoted JSON string literal.
pub open spec fn json_quoted(s: Seq<char>) -> Seq<char> {
    seq!['"'] + json_escaped(s) + seq!['"']
}

/// Relies on the `Display` of `serde_json::Value`: a JSON string value
/// prints as its quoted literal, escaped as `format_escaped_str` does
/// (quote, backslash, and the characters below U+0020).
#[verifier::external_body]
fn json_string(s: &str) -> (r: String)
    ensures
        r@ == json_quoted(s@),
{
    serde_json::Value::String(s.to_string()).to_string()
}

/// The character of a decimal digit.
pub open spec fn digit_char(d: nat) -> char {
    (48 + d) as char
}

/// The decimal digits of `n`, most significant first, without leading zeros.
pub open spec fn decimal_chars(n: nat) -> Seq<char>
    decreases n,
{
    if n < 10 {
        seq![digit_char(n)]
    } else {
        decimal_chars(n / 10).push(digit_char(n % 10))
    }
}

fn digit_str(d: usize) -> (r: &'static str)
    requires
        d < 10,
    ensures
        r@ == seq![digit_char(d as nat)],
{
    proof {
        reveal_strlit("0");
        reveal_strlit("1");
        reveal_strlit("2");
        reveal_strlit("3");
        reveal_strlit("4");
        reveal_strlit("5");
        reveal_strlit("6");
        reveal_strlit("7");
        reveal_strlit("8");
        reveal_strlit("9");
    }
    match d {
        0 => "0",
        1 => "1",
        2 => "2",
        3 => "3",
        4 => "4",
        5 => "5",
        6 => "6",
        7 => "7",
        8 => "8",
        _ => "9",
    }
}

/// `n` in decimal.
fn decimal(n: usize) -> (r: String)
    ensures
        r@ == decimal_chars(n as nat),
    decreases n,
{
    if n < 10 {
        digit_str(n).to_string()
    } else {
        decimal(n / 10).concat(digit_str(n % 10))
    }
}

/// The status document that the server list shows: the version, the
/// player counts, the message of the day and the favicon, as JSON.
pub open spec fn status_document(
    players_max: nat,
    players_online: nat,
    motd: Seq<char>,
    favicon: Seq<char>,
) -> Seq<char> {
    "{\"version\":{\"name\":\"MC Server 1.15.2\",\"protocol\":578},\"players\":{\"max\":"@ + decimal_chars(
        players_max,
    ) + ",\"online\":"@ + decimal_chars(players_online) + "},\"description\":{\"text\":"@ + json_quoted(motd)
        + "},\"favicon\":"@ + json_quoted(favicon) + "}"@
}

proof fn lemma_utf8_len(s: Seq<char>)
    ensures
        encode_utf8(s).len() <= 4 * s.len(),
    decreases s.len(),
{
    if s.len() > 0 {
        lemma_utf8_len(s.drop_first());
    }
}

proof fn lemma_escaped_len(s: Seq<char>)
    ensures
        json_escaped(s).len() <= 6 * s.len(),
    decreases s.len(),
{
    if s.len() > 0 {
        lemma_escaped_len(s.drop_first());
    }
}

/// The status document of a server with the given counts and a message of
/// the day of at most 1000 characters, and no favicon, fits a string field.
pub proof fn lemma_status_document_fits(players_max: nat, players_online: nat, motd: Seq<char>)
    requires
        players_max < 10000,
        players_online < 10000,
        motd.len() <= 1000,
    ensures
        encode_utf8(status_document(players_max, players_online, motd, Seq::empty())).len() <= MAX_STRING_LENGTH,
{
    reveal_strlit("{\"version\":{\"name\":\"MC Server 1.15.2\",\"protocol\":578},\"players\":{\"max\":");
    reveal_strlit(",\"online\":");
    reveal_strlit("},\"description\":{\"text\":");
    reveal_strlit("},\"favicon\":");
    reveal_strlit("}");
    assert(decimal_chars(players_max).len() <= 4) by {
        reveal_with_fuel(decimal_chars, 5);
    }
    assert(decimal_chars(players_online).len() <= 4) by {
        reveal_with_fuel(decimal_chars, 5);
    }
    lemma_escaped_len(motd);
    assert(json_escaped(Seq::<char>::empty()) =~= Seq::<char>::empty());
    lemma_utf8_len(status_document(players_max, players_online, motd, Seq::empty()));
}

/// Response `0x00`: the status document.
pub struct Response {
    response: String,
}

impl Response {
    pub closed spec fn document(&self) -> Seq<char> {
        self.response@
    }

    pub fn new(players_max: usize, players_online: usize, motd: String, favicon: Option<String>) -> (r: Response)
        ensures
            r.document() == status_document(
                players_max as nat,
                players_online as nat,
                motd@,
                match favicon {
                    Some(f) => f@,
                    None => Seq::empty(),
                },
            ),
    {
        let favicon = match favicon {
            Some(f) => f,
            None => String::new(),
        };
        let response = "{\"version\":{\"name\":\"MC Server 1.15.2\",\"protocol\":578},\"players\":{\"max\":".to_string();
        let response = response.concat(decimal(players_max).as_str());
        let response = response.concat(",\"online\":");
        let response = response.concat(decimal(players_online).as_str());
        let response = response.concat("},\"description\":{\"text\":");
        let response = response.concat(json_string(motd.as_str()).as_str());
        let response = response.concat("},\"favicon\":");
        let response = response.concat(json_string(favicon.as_str()).as_str());
        let response = response.concat("}");
        Response { response }
    }
}

impl Response {
    /// Whether the document fits the string limit of the wire.
    pub fn fits(&self) -> (r: bool)
        ensures
            r == self.sendable(),
    {
        let len = self.response.as_str().as_bytes().len();
        len <= MAX_STRING_LENGTH
    }
}

impl IntoPacket for Response {
    open spec fn id() -> i32 {
        0x00
    }

    open spec fn body(&self) -> Seq<u8> {
        string_bytes(self.document())
    }

    open spec fn sendable(&self) -> bool {
        encode_utf8(self.document()).len() <= MAX_STRING_LENGTH
    }

    fn into_packet(self) -> (r: ClientboundPacket) {
        let mut data = BytesMut::new();
        self.response.write_to(&mut data);
        ClientboundPacket::new(0x00, data)
    }
}

/// Ping `0x01`: a number for the server to echo.
pub struct Ping {
    payload: Long,
}

impl Ping {
    pub closed spec fn payload(&self) -> i64 {
        self.payload
    }
}

impl FromPacket for Ping {
    open spec fn accepts(body: Seq<u8>) -> bool {
        <i64 as DataType>::decoding(body) is Value
    }

    open spec fn read_from_body(&self, body: Seq<u8>) -> bool {
        <i64 as DataType>::decoding(body) matches WireRead::Value(v, _) && v == self.payload()
    }

    fn from_packet(packet: ServerboundPacket) -> (r: Result<Ping, PacketError>) {
        let mut data = packet.data();
        match Long::read_from(&mut data) {
            Ok(payload) => Ok(Ping { payload }),
            Err(e) => Err(PacketError::Data(e)),
        }
    }
}

/// Pong `0x01`: the ping's number, echoed.
pub struct Pong {
    payload: Long,
}

impl Pong {
    pub closed spec fn payload(&self) -> i64 {
        self.payload
    }

    pub fn new(ping: Ping) -> (r: Pong)
        ensures
            r.payload() == ping.payload(),
    {
        Pong { payload: ping.payload }
    }
}

impl IntoPacket for Pong {
    open spec fn id() -> i32 {
        0x01
    }

    open spec fn body(&self) -> Seq<u8> {
        <i64 as DataType>::encoding(self.payload())
    }

    open spec fn sendable(&self) -> bool {
        true
    }

    fn into_packet(self) -> (r: ClientboundPacket) {
        let mut data = BytesMut::new();
        self.payload.write_to(&mut data);
        ClientboundPacket::new(0x01, data)
    }
}

} // verus!
