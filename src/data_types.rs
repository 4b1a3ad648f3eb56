//! The protocol's primitive wire types: how each is written to and read
//! from a byte buffer.
use vstd::prelude::*;

use bytes::BytesMut;

use crate::buffer::{bytes_held, held_slice};

verus! {

/// What reading a value from the front of some bytes comes to: the value's
/// model and the number of bytes it takes, or `Short` when the bytes end too
/// early (more may arrive), or `Bad` when they can never form a value.
pub enum WireRead<V> {
    Value(V, nat),
    Short,
    Bad,
}

/// Why a value could not be read.
#[derive(Debug)]
pub enum DataTypeError {
    /// The bytes ended before the value did; names what was being read.
    OutOfBytes(String),
    /// The bytes can never form the value: what was read, and why.
    Malformed(String, String),
    /// Another error, with a description of what was being done.
    Context(Box<DataTypeError>, String),
}

impl DataTypeError {
    /// The error comes down to running out of bytes, under any context.
    pub open spec fn ran_out(&self) -> bool
        decreases self,
    {
        match self {
            DataTypeError::OutOfBytes(_) => true,
            DataTypeError::Malformed(_, _) => false,
            DataTypeError::Context(inner, _) => inner.ran_out(),
        }
    }

    /// Wraps the error with a description of what was being done.
    pub fn add_context(self, context: String) -> (r: DataTypeError)
        ensures
            r == DataTypeError::Context(Box::new(self), context),
            r.ran_out() == self.ran_out(),
    {
        DataTypeError::Context(Box::new(self), context)
    }

    /// Whether the error comes down to running out of bytes.
    pub fn is_out_of_bytes(&self) -> (r: bool)
        ensures
            r == self.ran_out(),
        decreases self,
    {
        match self {
            DataTypeError::OutOfBytes(_) => true,
            DataTypeError::Malformed(_, _) => false,
            DataTypeError::Context(inner, _) => inner.is_out_of_bytes(),
        }
    }
}

/// The error for bytes that ended before `what` did.
pub fn out_of_bytes(what: &str) -> (r: DataTypeError)
    ensures
        r is OutOfBytes,
        r.ran_out(),
{
    DataTypeError::OutOfBytes(what.to_string())
}

/// The error for bytes that can never form `what`, and why.
pub fn malformed(what: &str, why: &str) -> (r: DataTypeError)
    ensures
        r is Malformed,
        !r.ran_out(),
{
    DataTypeError::Malformed(what.to_string(), why.to_string())
}

/// A read ended as `expected` says: with the value and the bytes after it
/// left in the buffer, or with an error of the right kind.
pub open spec fn read_outcome<T: DeepView>(
    expected: WireRead<T::V>,
    r: Result<T, DataTypeError>,
    before: Seq<u8>,
    after: Seq<u8>,
) -> bool {
    match expected {
        WireRead::Value(v, n) => r is Ok && r->Ok_0.deep_view() == v && n <= before.len() && after == before.skip(
            n as int,
        ),
        WireRead::Short => r is Err && r->Err_0.ran_out(),
        WireRead::Bad => r is Err && !r->Err_0.ran_out(),
    }
}

/// A read ended as `expected` says, with the error itself of the right
/// variant: `OutOfBytes` when the bytes end too early, `Malformed` when they
/// can never form the value.
pub open spec fn read_exact<T: DeepView>(
    expected: WireRead<T::V>,
    r: Result<T, DataTypeError>,
    before: Seq<u8>,
    after: Seq<u8>,
) -> bool {
    match expected {
        WireRead::Value(v, n) => r is Ok && r->Ok_0.deep_view() == v && n <= before.len() && after == before.skip(
            n as int,
        ),
        WireRead::Short => r matches Err(DataTypeError::OutOfBytes(_)),
        WireRead::Bad => r matches Err(DataTypeError::Malformed(_, _)),
    }
}

/// A wire type whose reads are bounded by the type itself.
pub trait DataType: Sized + DeepView {
    /// The bytes that stand for a value.
    spec fn encoding(v: Self::V) -> Seq<u8>;

    /// The values that can be written at all.
    spec fn writable(v: Self::V) -> bool;

    /// What reading from the front of `bytes` gives.
    spec fn decoding(bytes: Seq<u8>) -> WireRead<Self::V>;

    /// Reading a written value gives it back and takes exactly its bytes.
    proof fn lemma_round_trip(v: Self::V, rest: Seq<u8>)
        requires
            Self::writable(v),
        ensures
            Self::decoding(Self::encoding(v) + rest) == WireRead::Value(v, Self::encoding(v).len()),
    ;

    /// Reads a value from the front of `src`, consuming its bytes. After an
    /// error the buffer is not to be read from any longer.
    fn read_from(src: &mut BytesMut) -> (r: Result<Self, DataTypeError>)
        ensures
            read_exact(Self::decoding(bytes_held(*old(src))), r, bytes_held(*old(src)), bytes_held(*final(src))),
    ;

    /// Appends the value's bytes to `dst`.
    fn write_to(self, dst: &mut BytesMut)
        requires
            Self::writable(self.deep_view()),
        ensures
            bytes_held(*final(dst)) == bytes_held(*old(dst)) + Self::encoding(self.deep_view()),
    ;

    /// The number of bytes that the value takes.
    fn size(&self) -> (r: usize)
        requires
            Self::writable(self.deep_view()),
        ensures
            r == Self::encoding(self.deep_view()).len(),
    ;
}

/// A wire type whose reads are bounded by a limit that the field gives.
pub trait SizedDataType: Sized + DeepView {
    spec fn encoding(v: Self::V) -> Seq<u8>;

    spec fn writable(v: Self::V) -> bool;

    /// What reading from the front of `bytes` gives, under the limit `max`.
    spec fn decoding(bytes: Seq<u8>, max: nat) -> WireRead<Self::V>;

    /// Reading a written value within the limit gives it back and takes
    /// exactly its bytes.
    proof fn lemma_round_trip(v: Self::V, rest: Seq<u8>, max: nat)
        requires
            Self::writable(v),
            Self::within(v, max),
        ensures
            Self::decoding(Self::encoding(v) + rest, max) == WireRead::Value(v, Self::encoding(v).len()),
    ;

    /// The value respects the limit `max`.
    spec fn within(v: Self::V, max: nat) -> bool;

    fn read_from_sized(src: &mut BytesMut, size: usize) -> (r: Result<Self, DataTypeError>)
        ensures
            read_outcome(
                Self::decoding(bytes_held(*old(src)), size as nat),
                r,
                bytes_held(*old(src)),
                bytes_held(*final(src)),
            ),
    ;

    fn write_to(self, dst: &mut BytesMut)
        requires
            Self::writable(self.deep_view()),
        ensures
            bytes_held(*final(dst)) == bytes_held(*old(dst)) + Self::encoding(self.deep_view()),
    ;

    fn size(&self) -> (r: usize)
        requires
            Self::writable(self.deep_view()),
        ensures
            r == Self::encoding(self.deep_view()).len(),
    ;
}

// Fixed-width big-endian integers.

/// The number that big-endian bytes stand for.
pub open spec fn be_value(b: Seq<u8>) -> nat
    decreases b.len(),
{
    if b.len() == 0 {
        0
    } else {
        be_value(b.drop_last()) * 256 + b.last() as nat
    }
}

/// The `len` low bytes of `n`, most significant first.
pub open spec fn be_bytes(n: nat, len: nat) -> Seq<u8>
    decreases len,
{
    if len == 0 {
        Seq::empty()
    } else {
        be_bytes(n / 256, (len - 1) as nat).push((n % 256) as u8)
    }
}

pub open spec fn pow256(len: nat) -> nat
    decreases len,
{
    if len == 0 {
        1
    } else {
        256 * pow256((len - 1) as nat)
    }
}

/// A signed value as the unsigned number of the same bits, modulo `m`.
pub open spec fn unsigned_of(v: int, m: int) -> nat {
    if v < 0 {
        (v + m) as nat
    } else {
        v as nat
    }
}

/// An unsigned number below `m` read as two's complement.
pub open spec fn signed_of(n: nat, m: int) -> int {
    if n >= m / 2 {
        n - m
    } else {
        n as int
    }
}

/// Reading `len` bytes as a big-endian number.
pub open spec fn fixed_decoding(b: Seq<u8>, len: nat) -> WireRead<nat> {
    if b.len() < len {
        WireRead::Short
    } else {
        WireRead::Value(be_value(b.take(len as int)), len)
    }
}

proof fn lemma_be_bytes_len(n: nat, len: nat)
    ensures
        be_bytes(n, len).len() == len,
    decreases len,
{
    if len > 0 {
        lemma_be_bytes_len(n / 256, (len - 1) as nat);
    }
}

proof fn lemma_be_round_trip(n: nat, len: nat)
    requires
        n < pow256(len),
    ensures
        be_value(be_bytes(n, len)) == n,
    decreases len,
{
    if len > 0 {
        let b = be_bytes(n, len);
        assert(b.drop_last() =~= be_bytes(n / 256, (len - 1) as nat));
        assert(n / 256 < pow256((len - 1) as nat)) by (nonlinear_arith)
            requires
                n < 256 * pow256((len - 1) as nat),
        ;
        lemma_be_round_trip(n / 256, (len - 1) as nat);
    }
}

proof fn lemma_be_value_bound(b: Seq<u8>)
    ensures
        be_value(b) < pow256(b.len()),
    decreases b.len(),
{
    if b.len() > 0 {
        lemma_be_value_bound(b.drop_last());
        let p = pow256((b.len() - 1) as nat);
        let x = be_value(b.drop_last());
        assert(x * 256 + b.last() < 256 * p) by (nonlinear_arith)
            requires
                x < p,
                b.last() < 256,
        ;
    }
}

/// A fixed-width value round-trips through its bytes.
proof fn lemma_fixed_round_trip(n: nat, len: nat, rest: Seq<u8>)
    requires
        n < pow256(len),
    ensures
        fixed_decoding(be_bytes(n, len) + rest, len) == WireRead::Value(n, len),
{
    lemma_be_bytes_len(n, len);
    assert((be_bytes(n, len) + rest).take(len as int) =~= be_bytes(n, len));
    lemma_be_round_trip(n, len);
}

/// Takes `len` bytes from the front of `src` and reads them big-endian.
fn read_be(src: &mut BytesMut, len: usize, what: &str) -> (r: Result<u128, DataTypeError>)
    requires
        len <= 16,
    ensures
        match fixed_decoding(bytes_held(*old(src)), len as nat) {
            WireRead::Value(n, k) => n < pow256(len as nat) && r == Ok::<u128, DataTypeError>(n as u128)
                && bytes_held(*final(src)) == bytes_held(*old(src)).skip(k as int),
            WireRead::Short => r matches Err(DataTypeError::OutOfBytes(_)),
            WireRead::Bad => false,
        },
{
    if src.len() < len {
        return Err(out_of_bytes(what));
    }
    proof {
        lemma_pow256_mono(len as nat, 16);
        assert(pow256(16) == 0x100000000000000000000000000000000) by {
            reveal_with_fuel(pow256, 17);
        }
    }
    let taken = src.split_to(len);
    let bytes = held_slice(&taken);
    let mut acc: u128 = 0;
    let mut i: usize = 0;
    while i < len
        invariant
            i <= len <= 16,
            bytes@.len() == len,
            acc == be_value(bytes@.take(i as int)),
        decreases len - i,
    {
        proof {
            lemma_be_value_bound(bytes@.take(i as int));
            lemma_pow256_mono(i as nat, 15);
            assert(pow256(15) == 0x1000000000000000000000000000000) by {
                reveal_with_fuel(pow256, 16);
            }
            assert(bytes@.take(i + 1).drop_last() =~= bytes@.take(i as int));
        }
        acc = acc * 256 + bytes[i] as u128;
        i = i + 1;
    }
    assert(bytes@.take(len as int) =~= bytes@);
    proof {
        lemma_be_value_bound(bytes@);
    }
    Ok(acc)
}

proof fn lemma_pow256_mono(i: nat, j: nat)
    requires
        i <= j,
    ensures
        pow256(i) <= pow256(j),
    decreases j,
{
    if i < j {
        lemma_pow256_mono(i, (j - 1) as nat);
    }
}

/// The `len` low bytes of `n`, most significant first.
fn be_write(n: u128, len: usize) -> (r: Vec<u8>)
    requires
        len <= 16,
    ensures
        r@ == be_bytes(n as nat, len as nat),
{
    let mut out: Vec<u8> = Vec::new();
    let mut i: usize = 0;
    proof {
        lemma_pow256_positive(len as nat);
        assert(be_bytes((n as nat / pow256(len as nat)) as nat, 0) =~= Seq::<u8>::empty());
    }
    while i < len
        invariant
            i <= len <= 16,
            out@ == be_bytes((n as nat / pow256((len - i) as nat)) as nat, i as nat),
        decreases len - i,
    {
        proof {
            lemma_pow256_mono((len - i - 1) as nat, 16);
            assert(pow256(16) == 0x100000000000000000000000000000000) by {
                reveal_with_fuel(pow256, 17);
            }
            lemma_div_pow256_step(n as nat, (len - i - 1) as nat);
            lemma_pow256_positive((len - i - 1) as nat);
            lemma_pow256_positive((len - i) as nat);
        }
        let p = pow256_exec(len - i - 1);
        out.push(((n / p) % 256) as u8);
        i = i + 1;
    }
    proof {
        assert(pow256(0) == 1);
        assert(n as nat / 1 == n);
    }
    out
}

proof fn lemma_div_pow256_step(n: nat, k: nat)
    ensures
        n / pow256(k + 1) == (n / pow256(k)) / 256,
{
    assert(pow256(k + 1) == 256 * pow256(k));
    lemma_pow256_positive(k);
    vstd::arithmetic::div_mod::lemma_div_denominator(n as int, pow256(k) as int, 256);
    assert(pow256(k) * 256 == 256 * pow256(k)) by (nonlinear_arith);
}

proof fn lemma_pow256_positive(k: nat)
    ensures
        pow256(k) > 0,
    decreases k,
{
    if k > 0 {
        lemma_pow256_positive((k - 1) as nat);
    }
}

fn pow256_exec(k: usize) -> (r: u128)
    requires
        k <= 15,
    ensures
        r == pow256(k as nat),
{
    let mut r: u128 = 1;
    let mut i: usize = 0;
    while i < k
        invariant
            i <= k <= 15,
            r == pow256(i as nat),
        decreases k - i,
    {
        proof {
            lemma_pow256_mono(i as nat, 14);
            assert(pow256(14) == 0x10000000000000000000000000000) by {
                reveal_with_fuel(pow256, 15);
            }
        }
        r = r * 256;
        i = i + 1;
    }
    r
}

/// Appends the `len` low bytes of `n` to `dst`, most significant first.
fn put_be(dst: &mut BytesMut, n: u128, len: usize)
    requires
        len <= 16,
    ensures
        bytes_held(*final(dst)) == bytes_held(*old(dst)) + be_bytes(n as nat, len as nat),
{
    let bytes = be_write(n, len);
    dst.extend_from_slice(bytes.as_slice());
}

proof fn lemma_pow256_values()
    ensures
        pow256(1) == 0x100,
        pow256(2) == 0x10000,
        pow256(4) == 0x1_0000_0000,
        pow256(8) == 0x1_0000_0000_0000_0000,
        pow256(16) == 0x100000000000000000000000000000000,
{
    reveal_with_fuel(pow256, 17);
}

/// A fixed-width read, its number taken as two's complement modulo `m`.
pub open spec fn signed_decoding(b: Seq<u8>, len: nat, m: int) -> WireRead<int> {
    match fixed_decoding(b, len) {
        WireRead::Value(n, k) => WireRead::Value(signed_of(n, m), k),
        WireRead::Short => WireRead::Short,
        WireRead::Bad => WireRead::Bad,
    }
}

/// Boolean: one byte, `1` for true; any other byte reads as false.
impl DataType for bool {
    open spec fn encoding(v: bool) -> Seq<u8> {
        seq![if v { 1u8 } else { 0u8 }]
    }

    open spec fn writable(v: bool) -> bool {
        true
    }

    open spec fn decoding(bytes: Seq<u8>) -> WireRead<bool> {
        if bytes.len() < 1 {
            WireRead::Short
        } else {
            WireRead::Value(bytes[0] == 1, 1)
        }
    }

    proof fn lemma_round_trip(v: bool, rest: Seq<u8>) {
    }

    fn read_from(src: &mut BytesMut) -> (r: Result<bool, DataTypeError>) {
        proof {
            lemma_pow256_values();
            if bytes_held(*src).len() >= 1 {
                let one = bytes_held(*src).take(1);
                assert(one.drop_last() =~= Seq::<u8>::empty());
                assert(be_value(one.drop_last()) == 0);
                assert(be_value(one) == one[0]);
            }
        }
        match read_be(src, 1, "Boolean") {
            Ok(n) => Ok(n == 1),
            Err(e) => Err(e),
        }
    }

    fn write_to(self, dst: &mut BytesMut) {
        let byte: u8 = if self { 1 } else { 0 };
        let bytes: Vec<u8> = vec![byte];
        dst.extend_from_slice(bytes.as_slice());
        assert(bytes@ =~= seq![byte]);
    }

    fn size(&self) -> (r: usize) {
        1
    }
}

pub type Byte = i8;

pub type UnsignedByte = u8;

pub type Short = i16;

pub type UnsignedShort = u16;

pub type Int = i32;

pub type Long = i64;

impl DataType for i8 {
    open spec fn encoding(v: i8) -> Seq<u8> {
        be_bytes(unsigned_of(v as int, 0x100), 1)
    }

    open spec fn writable(v: i8) -> bool {
        true
    }

    open spec fn decoding(bytes: Seq<u8>) -> WireRead<i8> {
        match signed_decoding(bytes, 1, 0x100) {
            WireRead::Value(n, k) => WireRead::Value(n as i8, k),
            WireRead::Short => WireRead::Short,
            WireRead::Bad => WireRead::Bad,
        }
    }

    proof fn lemma_round_trip(v: i8, rest: Seq<u8>) {
        lemma_pow256_values();
        lemma_fixed_round_trip(unsigned_of(v as int, 0x100), 1, rest);
        lemma_be_bytes_len(unsigned_of(v as int, 0x100), 1);
    }

    fn read_from(src: &mut BytesMut) -> (r: Result<i8, DataTypeError>) {
        proof {
            lemma_pow256_values();
        }
        match read_be(src, 1, "Byte") {
            Ok(n) => Ok(
                if n >= 0x80 {
                    (n as i16 - 0x100) as i8
                } else {
                    n as i8
                },
            ),
            Err(e) => Err(e),
        }
    }

    fn write_to(self, dst: &mut BytesMut) {
        let n: u128 = if self < 0 {
            (self as i16 + 0x100) as u128
        } else {
            self as u128
        };
        put_be(dst, n, 1);
    }

    fn size(&self) -> (r: usize) {
        proof {
            lemma_be_bytes_len(unsigned_of(*self as int, 0x100), 1);
        }
        1
    }
}

impl DataType for u8 {
    open spec fn encoding(v: u8) -> Seq<u8> {
        be_bytes(v as nat, 1)
    }

    open spec fn writable(v: u8) -> bool {
        true
    }

    open spec fn decoding(bytes: Seq<u8>) -> WireRead<u8> {
        match fixed_decoding(bytes, 1) {
            WireRead::Value(n, k) => WireRead::Value(n as u8, k),
            WireRead::Short => WireRead::Short,
            WireRead::Bad => WireRead::Bad,
        }
    }

    proof fn lemma_round_trip(v: u8, rest: Seq<u8>) {
        lemma_pow256_values();
        lemma_fixed_round_trip(v as nat, 1, rest);
        lemma_be_bytes_len(v as nat, 1);
    }

    fn read_from(src: &mut BytesMut) -> (r: Result<u8, DataTypeError>) {
        proof {
            lemma_pow256_values();
        }
        match read_be(src, 1, "Unsigned Byte") {
            Ok(n) => Ok(n as u8),
            Err(e) => Err(e),
        }
    }

    fn write_to(self, dst: &mut BytesMut) {
        put_be(dst, self as u128, 1);
    }

    fn size(&self) -> (r: usize) {
        proof {
            lemma_be_bytes_len(*self as nat, 1);
        }
        1
    }
}

impl DataType for i16 {
    open spec fn encoding(v: i16) -> Seq<u8> {
        be_bytes(unsigned_of(v as int, 0x10000), 2)
    }

    open spec fn writable(v: i16) -> bool {
        true
    }

    open spec fn decoding(bytes: Seq<u8>) -> WireRead<i16> {
        match signed_decoding(bytes, 2, 0x10000) {
            WireRead::Value(n, k) => WireRead::Value(n as i16, k),
            WireRead::Short => WireRead::Short,
            WireRead::Bad => WireRead::Bad,
        }
    }

    proof fn lemma_round_trip(v: i16, rest: Seq<u8>) {
        lemma_pow256_values();
        lemma_fixed_round_trip(unsigned_of(v as int, 0x10000), 2, rest);
        lemma_be_bytes_len(unsigned_of(v as int, 0x10000), 2);
    }

    fn read_from(src: &mut BytesMut) -> (r: Result<i16, DataTypeError>) {
        proof {
            lemma_pow256_values();
        }
        match read_be(src, 2, "Short") {
            Ok(n) => Ok(
                if n >= 0x8000 {
                    (n as i32 - 0x10000) as i16
                } else {
                    n as i16
                },
            ),
            Err(e) => Err(e),
        }
    }

    fn write_to(self, dst: &mut BytesMut) {
        let n: u128 = if self < 0 {
            (self as i32 + 0x10000) as u128
        } else {
            self as u128
        };
        put_be(dst, n, 2);
    }

    fn size(&self) -> (r: usize) {
        proof {
            lemma_be_bytes_len(unsigned_of(*self as int, 0x10000), 2);
        }
        2
    }
}

impl DataType for u16 {
    open spec fn encoding(v: u16) -> Seq<u8> {
        be_bytes(v as nat, 2)
    }

    open spec fn writable(v: u16) -> bool {
        true
    }

    open spec fn decoding(bytes: Seq<u8>) -> WireRead<u16> {
        match fixed_decoding(bytes, 2) {
            WireRead::Value(n, k) => WireRead::Value(n as u16, k),
            WireRead::Short => WireRead::Short,
            WireRead::Bad => WireRead::Bad,
        }
    }

    proof fn lemma_round_trip(v: u16, rest: Seq<u8>) {
        lemma_pow256_values();
        lemma_fixed_round_trip(v as nat, 2, rest);
        lemma_be_bytes_len(v as nat, 2);
    }

    fn read_from(src: &mut BytesMut) -> (r: Result<u16, DataTypeError>) {
        proof {
            lemma_pow256_values();
        }
        match read_be(src, 2, "Unsigned Short") {
            Ok(n) => Ok(n as u16),
            Err(e) => Err(e),
        }
    }

    fn write_to(self, dst: &mut BytesMut) {
        put_be(dst, self as u128, 2);
    }

    fn size(&self) -> (r: usize) {
        proof {
            lemma_be_bytes_len(*self as nat, 2);
        }
        2
    }
}

impl DataType for i32 {
    open spec fn encoding(v: i32) -> Seq<u8> {
        be_bytes(unsigned_of(v as int, 0x1_0000_0000), 4)
    }

    open spec fn writable(v: i32) -> bool {
        true
    }

    open spec fn decoding(bytes: Seq<u8>) -> WireRead<i32> {
        match signed_decoding(bytes, 4, 0x1_0000_0000) {
            WireRead::Value(n, k) => WireRead::Value(n as i32, k),
            WireRead::Short => WireRead::Short,
            WireRead::Bad => WireRead::Bad,
        }
    }

    proof fn lemma_round_trip(v: i32, rest: Seq<u8>) {
        lemma_pow256_values();
        lemma_fixed_round_trip(unsigned_of(v as int, 0x1_0000_0000), 4, rest);
        lemma_be_bytes_len(unsigned_of(v as int, 0x1_0000_0000), 4);
    }

    fn read_from(src: &mut BytesMut) -> (r: Result<i32, DataTypeError>) {
        proof {
            lemma_pow256_values();
        }
        match read_be(src, 4, "Int") {
            Ok(n) => Ok(
                if n >= 0x8000_0000 {
                    (n as i64 - 0x1_0000_0000) as i32
                } else {
                    n as i32
                },
            ),
            Err(e) => Err(e),
        }
    }

    fn write_to(self, dst: &mut BytesMut) {
        let n: u128 = if self < 0 {
            (self as i64 + 0x1_0000_0000) as u128
        } else {
            self as u128
        };
        put_be(dst, n, 4);
    }

    fn size(&self) -> (r: usize) {
        proof {
            lemma_be_bytes_len(unsigned_of(*self as int, 0x1_0000_0000), 4);
        }
        4
    }
}

impl DataType for i64 {
    open spec fn encoding(v: i64) -> Seq<u8> {
        be_bytes(unsigned_of(v as int, 0x1_0000_0000_0000_0000), 8)
    }

    open spec fn writable(v: i64) -> bool {
        true
    }

    open spec fn decoding(bytes: Seq<u8>) -> WireRead<i64> {
        match signed_decoding(bytes, 8, 0x1_0000_0000_0000_0000) {
            WireRead::Value(n, k) => WireRead::Value(n as i64, k),
            WireRead::Short => WireRead::Short,
            WireRead::Bad => WireRead::Bad,
        }
    }

    proof fn lemma_round_trip(v: i64, rest: Seq<u8>) {
        lemma_pow256_values();
        lemma_fixed_round_trip(unsigned_of(v as int, 0x1_0000_0000_0000_0000), 8, rest);
        lemma_be_bytes_len(unsigned_of(v as int, 0x1_0000_0000_0000_0000), 8);
    }

    fn read_from(src: &mut BytesMut) -> (r: Result<i64, DataTypeError>) {
        proof {
            lemma_pow256_values();
        }
        match read_be(src, 8, "Long") {
            Ok(n) => Ok(
                if n >= 0x8000_0000_0000_0000 {
                    (n as i128 - 0x1_0000_0000_0000_0000) as i64
                } else {
                    n as i64
                },
            ),
            Err(e) => Err(e),
        }
    }

    fn write_to(self, dst: &mut BytesMut) {
        let n: u128 = if self < 0 {
            (self as i128 + 0x1_0000_0000_0000_0000) as u128
        } else {
            self as u128
        };
        put_be(dst, n, 8);
    }

    fn size(&self) -> (r: usize) {
        proof {
            lemma_be_bytes_len(unsigned_of(*self as int, 0x1_0000_0000_0000_0000), 8);
        }
        8
    }
}

/// A block position packed into 64 bits: X in the top 26, then Z in 26,
/// then Y in the low 12, each two's complement.
#[derive(Clone, Copy, Debug)]
pub struct Position {
    pub x: i32,
    pub z: i32,
    pub y: i16,
}

impl DeepView for Position {
    type V = Position;

    open spec fn deep_view(&self) -> Position {
        *self
    }
}

/// The 64 bits that a position packs into; each field keeps its low bits.
pub open spec fn position_bits(p: Position) -> u64 {
    ((((p.x as u32) & 0x3ff_ffff) as u64) << 38u64) | ((((p.z as u32) & 0x3ff_ffff) as u64) << 12u64) | (((p.y
        as u16) & 0xfff) as u64)
}

/// A 26-bit field read as two's complement.
pub open spec fn signed26(u: u64) -> i32 {
    if u >= 0x200_0000 {
        ((u as i32) - 0x400_0000) as i32
    } else {
        u as i32
    }
}

/// A 12-bit field read as two's complement.
pub open spec fn signed12(u: u64) -> i16 {
    if u >= 0x800 {
        ((u as i16) - 0x1000) as i16
    } else {
        u as i16
    }
}

/// The position that 64 packed bits stand for.
pub open spec fn position_of(v: u64) -> Position {
    Position {
        x: signed26(v >> 38u64),
        z: signed26((v >> 12u64) & 0x3ff_ffff),
        y: signed12(v & 0xfff),
    }
}

/// Each field of the position fits its packed width.
pub open spec fn position_in_range(p: Position) -> bool {
    &&& -0x200_0000 <= p.x < 0x200_0000
    &&& -0x200_0000 <= p.z < 0x200_0000
    &&& -0x800 <= p.y < 0x800
}

fn position_pack(p: Position) -> (r: u64)
    ensures
        r == position_bits(p),
{
    ((((p.x as u32) & 0x3ff_ffff) as u64) << 38u64) | ((((p.z as u32) & 0x3ff_ffff) as u64) << 12u64) | (((p.y
        as u16) & 0xfff) as u64)
}

fn position_unpack(v: u64) -> (r: Position)
    ensures
        r == position_of(v),
{
    let x = v >> 38u64;
    let z = (v >> 12u64) & 0x3ff_ffff;
    let y = v & 0xfff;
    assert(x < 0x400_0000 && z < 0x400_0000 && y < 0x1000) by (bit_vector)
        requires
            x == v >> 38u64,
            z == (v >> 12u64) & 0x3ff_ffff,
            y == v & 0xfff,
    ;
    Position {
        x: if x >= 0x200_0000 {
            (x as i32) - 0x400_0000
        } else {
            x as i32
        },
        z: if z >= 0x200_0000 {
            (z as i32) - 0x400_0000
        } else {
            z as i32
        },
        y: if y >= 0x800 {
            (y as i16) - 0x1000
        } else {
            y as i16
        },
    }
}

/// Every position whose fields fit their widths comes back from its packed
/// bits, sign included, and so from its eight bytes, whatever follows them.
pub proof fn lemma_position_round_trip(p: Position, rest: Seq<u8>)
    requires
        position_in_range(p),
    ensures
        position_of(position_bits(p)) == p,
        <Position as DataType>::decoding(<Position as DataType>::encoding(p) + rest) == WireRead::Value(p, 8),
{
    lemma_pow256_values();
    lemma_fixed_round_trip(position_bits(p) as nat, 8, rest);
    lemma_position_bits_round_trip(p);
}

proof fn lemma_position_bits_round_trip(p: Position)
    requires
        position_in_range(p),
    ensures
        position_of(position_bits(p)) == p,
{
    let (x, z, y) = (p.x, p.z, p.y);
    assert(signed26(((((x as u32) & 0x3ff_ffff) as u64) << 38u64 | ((((z as u32) & 0x3ff_ffff) as u64) << 12u64)
        | (((y as u16) & 0xfff) as u64)) >> 38u64) == x) by (bit_vector)
        requires
            -0x200_0000 <= x < 0x200_0000,
    ;
    assert(signed26(((((((x as u32) & 0x3ff_ffff) as u64) << 38u64 | ((((z as u32) & 0x3ff_ffff) as u64)
        << 12u64) | (((y as u16) & 0xfff) as u64)) >> 12u64) & 0x3ff_ffff)) == z) by (bit_vector)
        requires
            -0x200_0000 <= z < 0x200_0000,
    ;
    assert(signed12((((((x as u32) & 0x3ff_ffff) as u64) << 38u64 | ((((z as u32) & 0x3ff_ffff) as u64) << 12u64)
        | (((y as u16) & 0xfff) as u64)) & 0xfff)) == y) by (bit_vector)
        requires
            -0x800 <= y < 0x800,
    ;
}

impl DataType for Position {
    open spec fn encoding(v: Position) -> Seq<u8> {
        be_bytes(position_bits(v) as nat, 8)
    }

    open spec fn writable(v: Position) -> bool {
        position_in_range(v)
    }

    open spec fn decoding(bytes: Seq<u8>) -> WireRead<Position> {
        match fixed_decoding(bytes, 8) {
            WireRead::Value(n, k) => WireRead::Value(position_of(n as u64), k),
            WireRead::Short => WireRead::Short,
            WireRead::Bad => WireRead::Bad,
        }
    }

    proof fn lemma_round_trip(v: Position, rest: Seq<u8>) {
        lemma_pow256_values();
        lemma_fixed_round_trip(position_bits(v) as nat, 8, rest);
        lemma_be_bytes_len(position_bits(v) as nat, 8);
        lemma_position_bits_round_trip(v);
    }

    fn read_from(src: &mut BytesMut) -> (r: Result<Position, DataTypeError>) {
        proof {
            lemma_pow256_values();
        }
        match read_be(src, 8, "Position") {
            Ok(n) => Ok(position_unpack(n as u64)),
            Err(e) => Err(e),
        }
    }

    fn write_to(self, dst: &mut BytesMut) {
        put_be(dst, position_pack(self) as u128, 8);
    }

    fn size(&self) -> (r: usize) {
        proof {
            lemma_be_bytes_len(position_bits(*self) as nat, 8);
        }
        8
    }
}

/// An angle in steps of 1/256 of a full turn.
#[derive(Clone, Copy, Debug)]
pub struct Angle {
    /// The number of 1/256 steps of a full turn
    pub steps: u8,
}

impl DeepView for Angle {
    type V = u8;

    open spec fn deep_view(&self) -> u8 {
        self.steps
    }
}

impl DataType for Angle {
    open spec fn encoding(v: u8) -> Seq<u8> {
        seq![v]
    }

    open spec fn writable(v: u8) -> bool {
        true
    }

    open spec fn decoding(bytes: Seq<u8>) -> WireRead<u8> {
        if bytes.len() < 1 {
            WireRead::Short
        } else {
            WireRead::Value(bytes[0], 1)
        }
    }

    proof fn lemma_round_trip(v: u8, rest: Seq<u8>) {
    }

    fn read_from(src: &mut BytesMut) -> (r: Result<Angle, DataTypeError>) {
        proof {
            lemma_pow256_values();
            if bytes_held(*src).len() >= 1 {
                let one = bytes_held(*src).take(1);
                assert(one.drop_last() =~= Seq::<u8>::empty());
                assert(be_value(one.drop_last()) == 0);
                assert(be_value(one) == one[0]);
            }
        }
        match read_be(src, 1, "Angle") {
            Ok(n) => Ok(Angle { steps: n as u8 }),
            Err(e) => Err(e),
        }
    }

    fn write_to(self, dst: &mut BytesMut) {
        let bytes: Vec<u8> = vec![self.steps];
        dst.extend_from_slice(bytes.as_slice());
        assert(bytes@ =~= seq![self.steps]);
    }

    fn size(&self) -> (r: usize) {
        1
    }
}

/// A 128-bit UUID, sent as 16 big-endian bytes.
#[derive(Clone, Copy, Debug, PartialEq, Eq)]
pub struct Uuid {
    value: u128,
}

impl View for Uuid {
    type V = u128;

    closed spec fn view(&self) -> u128 {
        self.value
    }
}

impl DeepView for Uuid {
    type V = u128;

    open spec fn deep_view(&self) -> u128 {
        self@
    }
}

impl Uuid {
    pub fn from_u128(value: u128) -> (r: Uuid)
        ensures
            r@ == value,
    {
        Uuid { value }
    }

    pub fn as_u128(&self) -> (r: u128)
        ensures
            r == self@,
    {
        self.value
    }
}

impl DataType for Uuid {
    open spec fn encoding(v: u128) -> Seq<u8> {
        be_bytes(v as nat, 16)
    }

    open spec fn writable(v: u128) -> bool {
        true
    }

    open spec fn decoding(bytes: Seq<u8>) -> WireRead<u128> {
        match fixed_decoding(bytes, 16) {
            WireRead::Value(n, k) => WireRead::Value(n as u128, k),
            WireRead::Short => WireRead::Short,
            WireRead::Bad => WireRead::Bad,
        }
    }

    proof fn lemma_round_trip(v: u128, rest: Seq<u8>) {
        lemma_pow256_values();
        lemma_fixed_round_trip(v as nat, 16, rest);
        lemma_be_bytes_len(v as nat, 16);
    }

    fn read_from(src: &mut BytesMut) -> (r: Result<Uuid, DataTypeError>) {
        proof {
            lemma_pow256_values();
        }
        match read_be(src, 16, "UUID") {
            Ok(n) => Ok(Uuid { value: n }),
            Err(e) => Err(e),
        }
    }

    fn write_to(self, dst: &mut BytesMut) {
        put_be(dst, self.value, 16);
    }

    fn size(&self) -> (r: usize) {
        proof {
            lemma_be_bytes_len(self.value as nat, 16);
        }
        16
    }
}

} // verus!
