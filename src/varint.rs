//! Variable-length integers: seven data bits per byte, least significant
//! group first, the high bit set on every byte but the last.
use vstd::prelude::*;

use bytes::BytesMut;

use crate::buffer::{bytes_held, held_slice};
use crate::data_types::{malformed, out_of_bytes, read_exact, DataType, DataTypeError, WireRead};

verus! {

/// The groups of a non-negative number, low group first.
pub open spec fn var_bytes(n: nat) -> Seq<u8>
    decreases n,
{
    if n < 128 {
        seq![n as u8]
    } else {
        seq![(n % 128 + 128) as u8] + var_bytes(n / 128)
    }
}

/// Scanning for a variable-length number of at most `max` bytes: the number
/// that its groups form and the bytes that it takes; `Short` when the bytes
/// end first, `Bad` when `max` bytes all carry the continuation bit.
pub open spec fn var_scan(b: Seq<u8>, max: nat) -> WireRead<nat>
    decreases max,
{
    if max == 0 {
        WireRead::Bad
    } else if b.len() == 0 {
        WireRead::Short
    } else if b[0] < 128 {
        WireRead::Value(b[0] as nat, 1)
    } else {
        match var_scan(b.skip(1), (max - 1) as nat) {
            WireRead::Value(n, k) => WireRead::Value(((b[0] - 128) + 128 * n) as nat, k + 1),
            WireRead::Short => WireRead::Short,
            WireRead::Bad => WireRead::Bad,
        }
    }
}

pub open spec fn pow128(k: nat) -> nat
    decreases k,
{
    if k == 0 {
        1
    } else {
        128 * pow128((k - 1) as nat)
    }
}

/// An `i32` as the unsigned 32-bit number of the same bits.
pub open spec fn u32_bits(v: i32) -> nat {
    if v < 0 {
        (v + 0x1_0000_0000) as nat
    } else {
        v as nat
    }
}

/// An `i64` as the unsigned 64-bit number of the same bits.
pub open spec fn u64_bits(v: i64) -> nat {
    if v < 0 {
        (v + 0x1_0000_0000_0000_0000) as nat
    } else {
        v as nat
    }
}

/// The low 32 bits of `n`, read as two's complement.
pub open spec fn i32_of_bits(n: nat) -> i32 {
    let m = n % 0x1_0000_0000;
    if m >= 0x8000_0000 {
        (m - 0x1_0000_0000) as i32
    } else {
        m as i32
    }
}

/// The low 64 bits of `n`, read as two's complement.
pub open spec fn i64_of_bits(n: nat) -> i64 {
    let m = n % 0x1_0000_0000_0000_0000;
    if m >= 0x8000_0000_0000_0000 {
        (m - 0x1_0000_0000_0000_0000) as i64
    } else {
        m as i64
    }
}

/// The bytes of a VarInt: its 32-bit two's-complement value in groups.
pub open spec fn varint_bytes(v: i32) -> Seq<u8> {
    var_bytes(u32_bits(v))
}

/// The bytes of a VarLong: its 64-bit two's-complement value in groups.
pub open spec fn varlong_bytes(v: i64) -> Seq<u8> {
    var_bytes(u64_bits(v))
}

/// Reading a VarInt: at most five bytes, bits beyond the 32nd dropped.
pub open spec fn varint_decoding(b: Seq<u8>) -> WireRead<i32> {
    match var_scan(b, 5) {
        WireRead::Value(n, k) => WireRead::Value(i32_of_bits(n), k),
        WireRead::Short => WireRead::Short,
        WireRead::Bad => WireRead::Bad,
    }
}

/// Reading a VarLong: at most ten bytes, bits beyond the 64th dropped.
pub open spec fn varlong_decoding(b: Seq<u8>) -> WireRead<i64> {
    match var_scan(b, 10) {
        WireRead::Value(n, k) => WireRead::Value(i64_of_bits(n), k),
        WireRead::Short => WireRead::Short,
        WireRead::Bad => WireRead::Bad,
    }
}

proof fn lemma_var_round_trip(n: nat, max: nat, rest: Seq<u8>)
    requires
        1 <= max,
        n < pow128(max),
    ensures
        var_scan(var_bytes(n) + rest, max) == WireRead::Value(n, var_bytes(n).len()),
        1 <= var_bytes(n).len() <= max,
    decreases n,
{
    let b = var_bytes(n) + rest;
    if n < 128 {
        assert(b[0] == n as u8);
    } else {
        let m = (max - 1) as nat;
        if max == 1 {
            assert(pow128(1) == 128) by {
                reveal_with_fuel(pow128, 2);
            }
        }
        assert(n / 128 < pow128(m)) by (nonlinear_arith)
            requires
                n < 128 * pow128(m),
        ;
        lemma_var_round_trip(n / 128, m, rest);
        assert(b.skip(1) =~= var_bytes(n / 128) + rest);
        assert(b[0] == (n % 128 + 128) as u8);
        assert((n % 128 + 128) - 128 + 128 * (n / 128) == n) by (nonlinear_arith);
    }
}

/// Scanning past a continuation byte: what the rest scans to, lifted by the
/// weight of the bytes already read.
pub open spec fn lift(r: WireRead<nat>, acc: nat, mult: nat, i: nat) -> WireRead<nat> {
    match r {
        WireRead::Value(n, k) => WireRead::Value(acc + mult * n, k + i),
        WireRead::Short => WireRead::Short,
        WireRead::Bad => WireRead::Bad,
    }
}

proof fn lemma_pow128_mono(i: nat, j: nat)
    requires
        i <= j,
    ensures
        pow128(i) <= pow128(j),
    decreases j,
{
    if i < j {
        lemma_pow128_mono(i, (j - 1) as nat);
    }
}

proof fn lemma_var_scan_bound(b: Seq<u8>, max: nat)
    ensures
        var_scan(b, max) matches WireRead::Value(n, k) ==> n < pow128(k) && 1 <= k <= max && k <= b.len(),
    decreases max,
{
    assert(pow128(1) == 128) by {
        reveal_with_fuel(pow128, 2);
    }
    if max > 0 && b.len() > 0 && b[0] >= 128 {
        lemma_var_scan_bound(b.skip(1), (max - 1) as nat);
        if let WireRead::Value(n, k) = var_scan(b.skip(1), (max - 1) as nat) {
            assert((b[0] - 128) + 128 * n < 128 * pow128(k)) by (nonlinear_arith)
                requires
                    n < pow128(k),
                    b[0] - 128 < 128,
                    b[0] >= 128,
            ;
            assert(pow128(k + 1) == 128 * pow128(k));
        }
    }
}

/// Scans `bytes` for a variable-length number of at most `max` bytes
/// without consuming anything: the number and the bytes it takes.
fn scan_var(bytes: &[u8], max: usize, what: &str) -> (r: Result<(u128, usize), DataTypeError>)
    requires
        1 <= max <= 10,
    ensures
        match var_scan(bytes@, max as nat) {
            WireRead::Value(n, k) => n < pow128(max as nat) && 1 <= k <= max && r == Ok::<
                (u128, usize),
                DataTypeError,
            >((n as u128, k as usize)),
            WireRead::Short => r matches Err(DataTypeError::OutOfBytes(_)),
            WireRead::Bad => r matches Err(DataTypeError::Malformed(_, _)),
        },
        r is Ok ==> r->Ok_0.0 < pow128(10) && 1 <= r->Ok_0.1 <= max && r->Ok_0.1 <= bytes@.len(),
{
    let mut i: usize = 0;
    let mut acc: u128 = 0;
    let mut mult: u128 = 1;
    proof {
        lemma_var_scan_bound(bytes@, max as nat);
        if let WireRead::Value(n, k) = var_scan(bytes@, max as nat) {
            lemma_pow128_mono(k, max as nat);
        }
        assert(bytes@.skip(0) =~= bytes@);
        assert(pow128(10) == 0x400000000000000000) by {
            reveal_with_fuel(pow128, 11);
        }
    }
    while i < max
        invariant
            i <= max <= 10,
            i <= bytes@.len(),
            mult == pow128(i as nat),
            acc < mult,
            var_scan(bytes@, max as nat) == lift(
                var_scan(bytes@.skip(i as int), (max - i) as nat),
                acc as nat,
                mult as nat,
                i as nat,
            ),
            pow128(10) == 0x400000000000000000,
        decreases max - i,
    {
        if i >= bytes.len() {
            return Err(out_of_bytes(what));
        }
        let byte = bytes[i];
        proof {
            lemma_pow128_mono(i as nat, 9);
            lemma_pow128_mono((i + 1) as nat, 10);
            assert(byte & 0x7f == byte % 128 && ((byte & 0x80) == 0) == (byte < 128)) by (bit_vector);
        }
        let low = (byte & 0x7f) as u128;
        assert(acc + low * mult < mult * 128) by (nonlinear_arith)
            requires
                acc < mult,
                low < 128,
        ;
        if byte & 0x80 == 0 {
            proof {
                assert(bytes@.skip(i as int)[0] == byte);
                assert(low * mult == mult * low) by (nonlinear_arith);
                lemma_var_scan_bound(bytes@, max as nat);
                lemma_pow128_mono((i + 1) as nat, max as nat);
            }
            acc = acc + low * mult;
            return Ok((acc, i + 1));
        }
        proof {
            let s = bytes@.skip(i as int);
            assert(s.skip(1) =~= bytes@.skip(i + 1));
            let inner = var_scan(bytes@.skip(i + 1), (max - i - 1) as nat);
            if let WireRead::Value(n, k) = inner {
                assert(acc + mult * ((byte - 128) + 128 * n) == (acc + low * mult) + (mult * 128) * n)
                    by (nonlinear_arith)
                    requires
                        low == byte - 128,
                ;
            }
        }
        acc = acc + low * mult;
        mult = mult * 128;
        i = i + 1;
    }
    Err(malformed(what, "too many bytes"))
}

/// The groups of `n`, low group first, the high bit set on all but the last.
fn write_var(n: u64) -> (r: Vec<u8>)
    ensures
        r@ == var_bytes(n as nat),
{
    let mut out: Vec<u8> = Vec::new();
    let mut value = n;
    loop
        invariant_except_break
            out@ + var_bytes(value as nat) == var_bytes(n as nat),
        ensures
            out@ == var_bytes(n as nat),
        decreases value,
    {
        let byte = (value % 128) as u8;
        // Unsigned division is the logical shift that keeps the sign bit of
        // a negative number from coming back into the low groups.
        let rest = value / 128;
        if rest == 0 {
            out.push(byte);
            proof {
                assert(out@ =~= var_bytes(n as nat));
            }
            break;
        }
        out.push(byte + 128);
        proof {
            assert(var_bytes(value as nat) =~= seq![(byte + 128) as u8] + var_bytes(rest as nat));
            assert(out@ + var_bytes(rest as nat) =~= var_bytes(n as nat));
        }
        value = rest;
    }
    out
}

/// The number of groups of `n`.
fn var_len(n: u64) -> (r: usize)
    ensures
        r == var_bytes(n as nat).len(),
        r <= 10,
{
    let mut count: usize = 1;
    let mut value = n;
    proof {
        lemma_var_len_bound(n as nat);
    }
    while value >= 128
        invariant
            count + var_bytes(value as nat).len() == var_bytes(n as nat).len() + 1,
            var_bytes(n as nat).len() <= 10,
        decreases value,
    {
        proof {
            assert(var_bytes(value as nat) =~= seq![(value % 128 + 128) as u8] + var_bytes(value as nat / 128));
        }
        value = value / 128;
        count = count + 1;
    }
    count
}

proof fn lemma_var_len_bound(n: nat)
    requires
        n < 0x1_0000_0000_0000_0000,
    ensures
        var_bytes(n).len() <= 10,
        n < 0x1_0000_0000 ==> var_bytes(n).len() <= 5,
{
    assert(pow128(10) == 0x400000000000000000) by {
        reveal_with_fuel(pow128, 11);
    }
    assert(pow128(5) == 0x8_0000_0000) by {
        reveal_with_fuel(pow128, 6);
    }
    lemma_var_round_trip(n, 10, Seq::empty());
    if n < 0x1_0000_0000 {
        lemma_var_round_trip(n, 5, Seq::empty());
    }
}

/// A 32-bit integer in one to five bytes.
#[derive(Clone, Copy, Debug)]
pub struct VarInt {
    value: i32,
}

impl View for VarInt {
    type V = i32;

    closed spec fn view(&self) -> i32 {
        self.value
    }
}

impl DeepView for VarInt {
    type V = i32;

    open spec fn deep_view(&self) -> i32 {
        self@
    }
}

impl VarInt {
    pub fn new(value: i32) -> (r: VarInt)
        ensures
            r@ == value,
    {
        VarInt { value }
    }

    pub fn value(&self) -> (r: i32)
        ensures
            r == self@,
    {
        self.value
    }

    /// Reads a VarInt from the front of `src`, leaving `src` untouched
    /// unless it succeeds. Fit for probing a frame's length prefix, which may
    /// not have arrived in full.
    pub fn careful_read_from(src: &mut BytesMut) -> (r: Result<VarInt, DataTypeError>)
        ensures
            read_exact(varint_decoding(bytes_held(*old(src))), r, bytes_held(*old(src)), bytes_held(*final(src))),
            r is Err ==> bytes_held(*final(src)) == bytes_held(*old(src)),
    {
        let scanned = scan_var(held_slice(src), 5, "VarInt");
        proof {
            assert(pow128(5) == 0x8_0000_0000) by {
                reveal_with_fuel(pow128, 6);
            }
        }
        match scanned {
            Ok((n, k)) => {
                let _ = src.split_to(k);
                Ok(VarInt { value: i32_from_bits(n) })
            },
            Err(e) => Err(e),
        }
    }
}

/// Reads a VarInt from the front of `bytes` without consuming anything:
/// its value and the number of bytes it takes.
pub fn peek_varint(bytes: &[u8]) -> (r: Result<(i32, usize), DataTypeError>)
    ensures
        match varint_decoding(bytes@) {
            WireRead::Value(v, k) => r == Ok::<(i32, usize), DataTypeError>((v, k as usize)) && 1 <= k <= 5
                && k <= bytes@.len(),
            WireRead::Short => r matches Err(DataTypeError::OutOfBytes(_)),
            WireRead::Bad => r matches Err(DataTypeError::Malformed(_, _)),
        },
{
    proof {
        assert(pow128(5) == 0x8_0000_0000) by {
            reveal_with_fuel(pow128, 6);
        }
        lemma_var_scan_bound(bytes@, 5);
    }
    match scan_var(bytes, 5, "VarInt") {
        Ok((n, k)) => Ok((i32_from_bits(n), k)),
        Err(e) => Err(e),
    }
}

/// The low 32 bits of `n` as two's complement.
fn i32_from_bits(n: u128) -> (r: i32)
    ensures
        r == i32_of_bits(n as nat),
{
    let m = n % 0x1_0000_0000;
    if m >= 0x8000_0000 {
        (m as i64 - 0x1_0000_0000) as i32
    } else {
        m as i32
    }
}

/// The low 64 bits of `n` as two's complement.
fn i64_from_bits(n: u128) -> (r: i64)
    ensures
        r == i64_of_bits(n as nat),
{
    let m = n % 0x1_0000_0000_0000_0000;
    if m >= 0x8000_0000_0000_0000 {
        (m as i128 - 0x1_0000_0000_0000_0000) as i64
    } else {
        m as i64
    }
}

fn i32_bits(v: i32) -> (r: u64)
    ensures
        r == u32_bits(v),
{
    if v < 0 {
        (v as i64 + 0x1_0000_0000) as u64
    } else {
        v as u64
    }
}

fn i64_bits(v: i64) -> (r: u64)
    ensures
        r == u64_bits(v),
{
    if v < 0 {
        (v as i128 + 0x1_0000_0000_0000_0000) as u64
    } else {
        v as u64
    }
}

impl DataType for VarInt {
    open spec fn encoding(v: i32) -> Seq<u8> {
        varint_bytes(v)
    }

    open spec fn writable(v: i32) -> bool {
        true
    }

    open spec fn decoding(bytes: Seq<u8>) -> WireRead<i32> {
        varint_decoding(bytes)
    }

    proof fn lemma_round_trip(v: i32, rest: Seq<u8>) {
        lemma_varint_round_trip(v, rest);
    }

    fn read_from(src: &mut BytesMut) -> (r: Result<VarInt, DataTypeError>) {
        let ghost before = bytes_held(*src);
        let r = VarInt::careful_read_from(src);
        assert(read_exact(varint_decoding(before), r, before, bytes_held(*src)));
        assert(<VarInt as DataType>::decoding(before) == varint_decoding(before));
        r
    }

    fn write_to(self, dst: &mut BytesMut) {
        let bytes = write_var(i32_bits(self.value));
        dst.extend_from_slice(bytes.as_slice());
    }

    fn size(&self) -> (r: usize) {
        var_len(i32_bits(self.value))
    }
}

/// A 64-bit integer in one to ten bytes.
#[derive(Clone, Copy, Debug)]
pub struct VarLong {
    pub value: i64,
}

impl View for VarLong {
    type V = i64;

    closed spec fn view(&self) -> i64 {
        self.value
    }
}

impl DeepView for VarLong {
    type V = i64;

    open spec fn deep_view(&self) -> i64 {
        self@
    }
}

impl VarLong {
    pub fn new(value: i64) -> (r: VarLong)
        ensures
            r@ == value,
    {
        VarLong { value }
    }

    pub fn value(&self) -> (r: i64)
        ensures
            r == self@,
    {
        self.value
    }
}

impl DataType for VarLong {
    open spec fn encoding(v: i64) -> Seq<u8> {
        varlong_bytes(v)
    }

    open spec fn writable(v: i64) -> bool {
        true
    }

    open spec fn decoding(bytes: Seq<u8>) -> WireRead<i64> {
        varlong_decoding(bytes)
    }

    proof fn lemma_round_trip(v: i64, rest: Seq<u8>) {
        lemma_varlong_round_trip(v, rest);
    }

    fn read_from(src: &mut BytesMut) -> (r: Result<VarLong, DataTypeError>) {
        let scanned = scan_var(held_slice(src), 10, "VarLong");
        proof {
            assert(pow128(10) == 0x400000000000000000) by {
                reveal_with_fuel(pow128, 11);
            }
        }
        match scanned {
            Ok((n, k)) => {
                let _ = src.split_to(k);
                Ok(VarLong { value: i64_from_bits(n) })
            },
            Err(e) => Err(e),
        }
    }

    fn write_to(self, dst: &mut BytesMut) {
        let bytes = write_var(i64_bits(self.value));
        dst.extend_from_slice(bytes.as_slice());
    }

    fn size(&self) -> (r: usize) {
        var_len(i64_bits(self.value))
    }
}

/// A VarInt read takes one to five bytes, all of them present.
pub proof fn lemma_varint_decoding_len(b: Seq<u8>)
    ensures
        varint_decoding(b) matches WireRead::Value(_, k) ==> 1 <= k <= 5 && k <= b.len(),
{
    lemma_var_scan_bound(b, 5);
}

/// Five bytes that all carry the continuation bit are malformed as a
/// VarInt, whatever follows them; fewer bytes that all carry it are too few.
pub proof fn lemma_varint_continuation_limit(b: Seq<u8>)
    requires
        forall|i: int| 0 <= i < b.len() && i < 5 ==> b[i] >= 128,
    ensures
        b.len() >= 5 ==> varint_decoding(b) is Bad,
        b.len() < 5 ==> varint_decoding(b) is Short,
{
    lemma_var_scan_continuation(b, 5);
}

proof fn lemma_var_scan_continuation(b: Seq<u8>, max: nat)
    requires
        forall|i: int| 0 <= i < b.len() && i < max ==> b[i] >= 128,
    ensures
        b.len() >= max ==> var_scan(b, max) is Bad,
        b.len() < max ==> var_scan(b, max) is Short,
    decreases max,
{
    if max > 0 && b.len() > 0 {
        assert forall|i: int| 0 <= i < b.skip(1).len() && i < max - 1 implies b.skip(1)[i] >= 128 by {
            assert(b.skip(1)[i] == b[i + 1]);
        }
        lemma_var_scan_continuation(b.skip(1), (max - 1) as nat);
    }
}

proof fn lemma_var_scan_extend(s: Seq<u8>, t: Seq<u8>, max: nat)
    ensures
        var_scan(s, max) is Value ==> var_scan(s + t, max) == var_scan(s, max),
        var_scan(s + t, max) matches WireRead::Value(_, k) ==> (if s.len() < k {
            var_scan(s, max) is Short
        } else {
            var_scan(s, max) == var_scan(s + t, max)
        }),
    decreases max,
{
    if max > 0 && s.len() > 0 {
        assert((s + t)[0] == s[0]);
        assert((s + t).skip(1) =~= s.skip(1) + t);
        lemma_var_scan_extend(s.skip(1), t, (max - 1) as nat);
    } else if max > 0 && s.len() == 0 {
        assert(s + t =~= t);
        lemma_var_scan_bound(t, max);
    }
}

/// A VarInt that has arrived in full reads the same whatever arrives after
/// it; one cut short reads as too few bytes.
pub proof fn lemma_varint_extend(s: Seq<u8>, t: Seq<u8>)
    ensures
        varint_decoding(s) is Value ==> varint_decoding(s + t) == varint_decoding(s),
        varint_decoding(s + t) matches WireRead::Value(_, k) ==> (if s.len() < k {
            varint_decoding(s) is Short
        } else {
            varint_decoding(s) == varint_decoding(s + t)
        }),
{
    lemma_var_scan_extend(s, t, 5);
}

/// Every `i32` comes back from its VarInt bytes, whatever follows them, and
/// those bytes are at most five.
pub proof fn lemma_varint_round_trip(v: i32, rest: Seq<u8>)
    ensures
        varint_decoding(varint_bytes(v) + rest) == WireRead::Value(v, varint_bytes(v).len()),
        1 <= varint_bytes(v).len() <= 5,
{
    assert(pow128(5) == 0x8_0000_0000) by {
        reveal_with_fuel(pow128, 6);
    }
    lemma_var_round_trip(u32_bits(v), 5, rest);
    assert(i32_of_bits(u32_bits(v)) == v);
}

/// Every `i64` comes back from its VarLong bytes, whatever follows them, and
/// those bytes are at most ten.
pub proof fn lemma_varlong_round_trip(v: i64, rest: Seq<u8>)
    ensures
        varlong_decoding(varlong_bytes(v) + rest) == WireRead::Value(v, varlong_bytes(v).len()),
        1 <= varlong_bytes(v).len() <= 10,
{
    assert(pow128(10) == 0x400000000000000000) by {
        reveal_with_fuel(pow128, 11);
    }
    lemma_var_round_trip(u64_bits(v), 10, rest);
    assert(i64_of_bits(u64_bits(v)) == v);
}

} // verus!
