//! The byte buffer that the codec reads from and writes to: `bytes::BytesMut`,
//! seen through the sequence of bytes that it holds.
use vstd::prelude::*;


verus! {

#[verifier::external_type_specification]
#[verifier::external_body]
pub struct ExBytesMut(bytes::BytesMut);

/// The bytes that a buffer holds, front first.
pub uninterp spec fn bytes_held(b: bytes::BytesMut) -> Seq<u8>;

/// Relies on `BytesMut::new`: a new buffer holds no bytes.
pub assume_specification[ bytes::BytesMut::new ]() -> (r: bytes::BytesMut)
    ensures
        bytes_held(r) == Seq::<u8>::empty(),
;

/// Relies on `BytesMut::len`: the number of bytes held.
pub assume_specification[ bytes::BytesMut::len ](b: &bytes::BytesMut) -> (r: usize)
    ensures
        r == bytes_held(*b).len(),
;

/// Relies on `BytesMut::split_to`: the first `at` bytes move to the result,
/// the rest stay (it panics when `at` exceeds the length).
pub assume_specification[ bytes::BytesMut::split_to ](b: &mut bytes::BytesMut, at: usize) -> (r: bytes::BytesMut)
    requires
        at <= bytes_held(*old(b)).len(),
    ensures
        bytes_held(r) == bytes_held(*old(b)).take(at as int),
        bytes_held(*final(b)) == bytes_held(*old(b)).skip(at as int),
;

/// Relies on `BytesMut::split`: every byte moves to the result.
pub assume_specification[ bytes::BytesMut::split ](b: &mut bytes::BytesMut) -> (r: bytes::BytesMut)
    ensures
        bytes_held(r) == bytes_held(*old(b)),
        bytes_held(*final(b)) == Seq::<u8>::empty(),
;

/// Relies on `BytesMut::extend_from_slice`: the slice is appended.
pub assume_specification[ bytes::BytesMut::extend_from_slice ](b: &mut bytes::BytesMut, extend: &[u8])
    ensures
        bytes_held(*final(b)) == bytes_held(*old(b)) + extend@,
;

/// Relies on `<BytesMut as AsRef<[u8]>>::as_ref`: a view of the bytes held.
#[verifier::external_body]
pub(crate) fn held_slice(b: &bytes::BytesMut) -> (r: &[u8])
    ensures
        r@ == bytes_held(*b),
{
    b.as_ref()
}

} // verus!
