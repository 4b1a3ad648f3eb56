//! Arrays on the wire: a VarInt element count, then the elements.
use vstd::prelude::*;

use bytes::BytesMut;

use crate::buffer::bytes_held;
use crate::data_types::{malformed, out_of_bytes, read_outcome, DataType, DataTypeError, SizedDataType, WireRead};
use crate::varint::{lemma_varint_decoding_len, lemma_varint_round_trip, varint_bytes, varint_decoding, VarInt};

verus! {

/// The elements' bytes, one after another.
pub open spec fn elems_encoding<T: DataType>(v: Seq<T::V>) -> Seq<u8>
    decreases v.len(),
{
    if v.len() == 0 {
        Seq::empty()
    } else {
        elems_encoding::<T>(v.drop_last()) + T::encoding(v.last())
    }
}

/// Reading `count` elements one after another from the front of `b`.
pub open spec fn elems_decoding<T: DataType>(b: Seq<u8>, count: nat) -> WireRead<Seq<T::V>>
    decreases count,
{
    if count == 0 {
        WireRead::Value(Seq::empty(), 0)
    } else {
        match elems_decoding::<T>(b, (count - 1) as nat) {
            WireRead::Value(s, m) => match T::decoding(b.skip(m as int)) {
                WireRead::Value(v, k) => WireRead::Value(s.push(v), m + k),
                WireRead::Short => WireRead::Short,
                WireRead::Bad => WireRead::Bad,
            },
            WireRead::Short => WireRead::Short,
            WireRead::Bad => WireRead::Bad,
        }
    }
}

/// The bytes of an array: its count as a VarInt, then its elements.
pub open spec fn array_bytes<T: DataType>(v: Seq<T::V>) -> Seq<u8> {
    varint_bytes(v.len() as i32) + elems_encoding::<T>(v)
}

/// Reading an array of at most `max` elements.
pub open spec fn array_decoding<T: DataType>(b: Seq<u8>, max: nat) -> WireRead<Seq<T::V>> {
    match varint_decoding(b) {
        WireRead::Value(count, n) => {
            if count < 0 || count > max {
                WireRead::Bad
            } else {
                match elems_decoding::<T>(b.skip(n as int), count as nat) {
                    WireRead::Value(s, m) => WireRead::Value(s, n + m),
                    WireRead::Short => WireRead::Short,
                    WireRead::Bad => WireRead::Bad,
                }
            }
        },
        WireRead::Short => WireRead::Short,
        WireRead::Bad => WireRead::Bad,
    }
}

proof fn lemma_elems_round_trip<T: DataType>(v: Seq<T::V>, rest: Seq<u8>)
    requires
        forall|i: int| 0 <= i < v.len() ==> T::writable(#[trigger] v[i]),
    ensures
        elems_decoding::<T>(elems_encoding::<T>(v) + rest, v.len()) == WireRead::Value(
            v,
            elems_encoding::<T>(v).len(),
        ),
    decreases v.len(),
{
    if v.len() > 0 {
        let init = v.drop_last();
        let last = v.last();
        let tail = T::encoding(last) + rest;
        assert forall|i: int| 0 <= i < init.len() implies T::writable(#[trigger] init[i]) by {
            assert(init[i] == v[i]);
        }
        lemma_elems_round_trip::<T>(init, tail);
        let b = elems_encoding::<T>(v) + rest;
        assert(b =~= elems_encoding::<T>(init) + tail);
        assert(b.skip(elems_encoding::<T>(init).len() as int) =~= tail);
        assert(T::writable(v[v.len() - 1]));
        T::lemma_round_trip(last, rest);
        let m = elems_encoding::<T>(init).len();
        assert(elems_decoding::<T>(b, init.len()) == WireRead::Value(init, m));
        assert(T::decoding(b.skip(m as int)) == WireRead::Value(last, T::encoding(last).len()));
        assert(elems_encoding::<T>(v) == elems_encoding::<T>(init) + T::encoding(last));
        assert(init.push(last) =~= v);
        assert((v.len() - 1) as nat == init.len());
    } else {
        assert(v =~= Seq::<T::V>::empty());
        assert(elems_encoding::<T>(v) + rest =~= rest);
    }
}

proof fn lemma_elems_decoding_len<T: DataType>(b: Seq<u8>, count: nat)
    ensures
        elems_decoding::<T>(b, count) matches WireRead::Value(s, _) ==> s.len() == count,
    decreases count,
{
    if count > 0 {
        lemma_elems_decoding_len::<T>(b, (count - 1) as nat);
    }
}

/// An array read under a limit holds at most that many elements.
pub proof fn lemma_array_decoding_len<T: DataType>(b: Seq<u8>, max: nat)
    ensures
        array_decoding::<T>(b, max) matches WireRead::Value(s, _) ==> s.len() <= max,
{
    if let WireRead::Value(count, n) = varint_decoding(b) {
        if 0 <= count <= max {
            lemma_elems_decoding_len::<T>(b.skip(n as int), count as nat);
        }
    }
}

proof fn lemma_elems_stuck<T: DataType>(b: Seq<u8>, c: nat, d: nat)
    requires
        c <= d,
        !(elems_decoding::<T>(b, c) is Value),
    ensures
        elems_decoding::<T>(b, d) == elems_decoding::<T>(b, c),
    decreases d,
{
    if c < d {
        lemma_elems_stuck::<T>(b, c, (d - 1) as nat);
    }
}

pub proof fn lemma_elems_encoding_prefix<T: DataType>(v: Seq<T::V>, i: int)
    requires
        0 <= i <= v.len(),
    ensures
        elems_encoding::<T>(v.take(i)).len() <= elems_encoding::<T>(v).len(),
        i < v.len() ==> elems_encoding::<T>(v.take(i + 1)) == elems_encoding::<T>(v.take(i)) + T::encoding(v[i]),
    decreases v.len(),
{
    if i < v.len() {
        assert(v.take(i + 1).drop_last() =~= v.take(i));
        assert(v.take(i + 1).last() == v[i]);
        if i + 1 < v.len() {
            lemma_elems_encoding_prefix::<T>(v.drop_last(), i + 1);
            assert(v.drop_last().take(i + 1) =~= v.take(i + 1));
        } else {
            assert(v.take(i + 1) =~= v);
        }
    } else {
        assert(v.take(i) =~= v);
    }
}

/// The count prefix of an array is read whole and lies within the limit.
pub open spec fn count_accepted(b: Seq<u8>, max: nat) -> bool {
    varint_decoding(b) matches WireRead::Value(count, _) && 0 <= count <= max
}

impl<T: DataType> SizedDataType for Vec<T> {
    open spec fn encoding(v: Seq<T::V>) -> Seq<u8> {
        array_bytes::<T>(v)
    }

    open spec fn writable(v: Seq<T::V>) -> bool {
        &&& v.len() <= i32::MAX
        &&& forall|i: int| 0 <= i < v.len() ==> T::writable(#[trigger] v[i])
        &&& array_bytes::<T>(v).len() <= usize::MAX
    }

    open spec fn within(v: Seq<T::V>, max: nat) -> bool {
        v.len() <= max
    }

    open spec fn decoding(bytes: Seq<u8>, max: nat) -> WireRead<Seq<T::V>> {
        array_decoding::<T>(bytes, max)
    }

    proof fn lemma_round_trip(v: Seq<T::V>, rest: Seq<u8>, max: nat) {
        let e = elems_encoding::<T>(v);
        lemma_varint_round_trip(v.len() as i32, e + rest);
        let b = array_bytes::<T>(v) + rest;
        assert(b =~= varint_bytes(v.len() as i32) + (e + rest));
        assert(b.skip(varint_bytes(v.len() as i32).len() as int) =~= e + rest);
        lemma_elems_round_trip::<T>(v, rest);
    }

    fn read_from_sized(src: &mut BytesMut, size: usize) -> (r: Result<Vec<T>, DataTypeError>)
        ensures
            array_decoding::<T>(bytes_held(*old(src)), size as nat) is Short ==> (r matches Err(
                DataTypeError::OutOfBytes(what)) && (count_accepted(bytes_held(*old(src)), size as nat) ==> exists|
                element: Seq<char>,
            | what@ == "Array of "@ + element)),
            array_decoding::<T>(bytes_held(*old(src)), size as nat) is Bad && !count_accepted(
                bytes_held(*old(src)),
                size as nat,
            ) ==> r matches Err(DataTypeError::Malformed(_, _)),
            array_decoding::<T>(bytes_held(*old(src)), size as nat) is Bad && count_accepted(
                bytes_held(*old(src)),
                size as nat,
            ) ==> (r matches Err(DataTypeError::Context(cause, context)) && *cause is Malformed && context@
                == "Error parsing element of Array"@),
    {
        let ghost start = bytes_held(*src);
        let ghost n: int = match varint_decoding(start) {
            WireRead::Value(_, k) => k as int,
            _ => 0,
        };
        proof {
            lemma_varint_decoding_len(start);
        }
        let count = match VarInt::read_from(src) {
            Ok(v) => v.value(),
            Err(e) => return Err(e),
        };
        if count < 0 || count as usize > size {
            return Err(malformed("Array", "header length longer than the field allows"));
        }
        let count = count as usize;
        let ghost body = bytes_held(*src);
        let ghost mut consumed: nat = 0;
        let mut vec: Vec<T> = Vec::new();
        proof {
            assert(vec.deep_view() =~= Seq::<T::V>::empty());
            assert(body.skip(0) =~= body);
        }
        while vec.len() < count
            invariant
                vec.len() <= count,
                elems_decoding::<T>(body, vec.len() as nat) == WireRead::Value(vec.deep_view(), consumed),
                consumed <= body.len(),
                bytes_held(*src) == body.skip(consumed as int),
                body == start.skip(n),
                0 <= n <= start.len(),
                count <= size,
                count <= i32::MAX,
                start == bytes_held(*old(src)),
                varint_decoding(start) == WireRead::Value(count as i32, n as nat),
            decreases count - vec.len(),
        {
            let ghost before = bytes_held(*src);
            let ghost old_vec = vec.deep_view();
            let ghost k: nat = match T::decoding(before) {
                WireRead::Value(_, k) => k,
                _ => 0,
            };
            match T::read_from(src) {
                Ok(v) => {
                    proof {
                        assert(body.skip((consumed + k) as int) =~= before.skip(k as int));
                        consumed = consumed + k;
                    }
                    let ghost v_model = v.deep_view();
                    vec.push(v);
                    proof {
                        assert(vec.deep_view() =~= old_vec.push(v_model));
                    }
                },
                Err(e) => {
                    proof {
                        assert(before == body.skip(consumed as int));
                        let next = elems_decoding::<T>(body, (vec.len() + 1) as nat);
                        assert(next == (if e.ran_out() {
                            WireRead::<Seq<T::V>>::Short
                        } else {
                            WireRead::<Seq<T::V>>::Bad
                        }));
                        lemma_elems_stuck::<T>(body, (vec.len() + 1) as nat, count as nat);
                        assert(body == start.skip(n));
                        assert((count as i32) as nat == count as nat);
                        assert(elems_decoding::<T>(start.skip(n), count as nat) == next);
                        assert(array_decoding::<T>(start, size as nat) == next);
                    }
                    return match e {
                        DataTypeError::OutOfBytes(what) => {
                            let what = "Array of ".to_string().concat(what.as_str());
                            Err(DataTypeError::OutOfBytes(what))
                        },
                        other => Err(other.add_context("Error parsing element of Array".to_string())),
                    };
                },
            }
        }
        proof {
            assert(bytes_held(*src) =~= start.skip(n + consumed));
        }
        Ok(vec)
    }

    fn write_to(self, dst: &mut BytesMut) {
        let ghost v = self.deep_view();
        let length = VarInt::new(self.len() as i32);
        length.write_to(dst);
        let ghost header = bytes_held(*dst);
        let mut items = self;
        let ghost mut k: int = 0;
        proof {
            assert(v.take(0) =~= Seq::<T::V>::empty());
            assert(items.deep_view() =~= v.skip(0));
        }
        while items.len() > 0
            invariant
                0 <= k <= v.len(),
                items.deep_view() == v.skip(k),
                bytes_held(*dst) == header + elems_encoding::<T>(v.take(k)),
                forall|i: int| 0 <= i < v.len() ==> T::writable(#[trigger] v[i]),
            decreases items.len(),
        {
            let ghost rest = items.deep_view();
            let ghost old_items = items@;
            let x = items.remove(0);
            proof {
                assert(rest.len() == old_items.len());
                assert(rest[0] == old_items[0].deep_view());
                assert(x.deep_view() == rest[0]);
                assert(rest[0] == v[k]);
                lemma_elems_encoding_prefix::<T>(v, k);
                assert(items@ =~= old_items.skip(1));
                assert forall|i: int| 0 <= i < items.len() implies #[trigger] items.deep_view()[i] == v[k + 1 + i] by {
                    assert(items@[i] == old_items[i + 1]);
                    assert(rest[i + 1] == old_items[i + 1].deep_view());
                    assert(rest[i + 1] == v[k + 1 + i]);
                }
                assert(items.deep_view() =~= v.skip(k + 1));
            }
            x.write_to(dst);
            proof {
                k = k + 1;
            }
        }
        proof {
            assert(v.take(k) =~= v);
        }
    }

    fn size(&self) -> (r: usize) {
        let length = VarInt::new(self.len() as i32);
        let mut total = length.size();
        let mut i: usize = 0;
        while i < self.len()
            invariant
                i <= self.len(),
                total == varint_bytes(self.len() as i32).len() + elems_encoding::<T>(self.deep_view().take(i as int)).len(),
                Self::writable(self.deep_view()),
            decreases self.len() - i,
        {
            proof {
                lemma_elems_encoding_prefix::<T>(self.deep_view(), i as int);
                lemma_elems_encoding_prefix::<T>(self.deep_view(), i + 1);
                assert(self.deep_view()[i as int] == self[i as int].deep_view());
            }
            total = total + self[i].size();
            i = i + 1;
        }
        proof {
            assert(self.deep_view().take(self.len() as int) =~= self.deep_view());
        }
        total
    }
}

} // verus!
