//! The generic composition layer: encode/decode for fixed-width integers,
//! raw byte vectors, optional values, tuples of two or three typed values,
//! and homogeneous sequences, each defined purely in terms of the element
//! types' own encode/decode.

use vstd::prelude::*;
use vstd::bytes::{spec_u32_to_le_bytes, spec_u64_to_le_bytes, u32_to_le_bytes, u64_to_le_bytes};
use vstd::slice::{slice_subrange, slice_to_vec};
use crate::error::{Error, ErrorKind};
use crate::encodings::{le_u32_at, le_u64_at, lemma_le_u32_at, lemma_le_u64_at, read_u32, read_u64, write_bytes, write_u32};
use crate::{Deserializable, Serializable};

verus! {

impl Serializable for u32 {
    open spec fn serializable(v: u32) -> bool {
        true
    }

    open spec fn spec_serialize(v: u32) -> Seq<u8> {
        spec_u32_to_le_bytes(v)
    }

    fn serialize(msg: &u32) -> (r: Vec<u8>) {
        u32_to_le_bytes(*msg)
    }
}

impl Deserializable<u32> for u32 {
    open spec fn spec_deserialize(buf: Seq<u8>) -> Result<u32, ErrorKind> {
        if buf.len() == 4 {
            Ok(le_u32_at(buf, 0))
        } else {
            Err(ErrorKind::IncorrectLength)
        }
    }

    proof fn lemma_roundtrip(v: u32) {
        let s = spec_u32_to_le_bytes(v);
        vstd::bytes::lemma_auto_spec_u32_to_from_le_bytes();
        assert(s.len() == 4);
        assert(s.subrange(0, 4) =~= s);
        lemma_le_u32_at(s, 0, v);
    }

    fn deserialize(buf: &[u8]) -> (r: Result<u32, Error>) {
        if buf.len() != 4 {
            return Err(Error::new(ErrorKind::IncorrectLength));
        }
        Ok(read_u32(buf, 0))
    }
}

impl Serializable for u64 {
    open spec fn serializable(v: u64) -> bool {
        true
    }

    open spec fn spec_serialize(v: u64) -> Seq<u8> {
        spec_u64_to_le_bytes(v)
    }

    fn serialize(msg: &u64) -> (r: Vec<u8>) {
        u64_to_le_bytes(*msg)
    }
}

impl Deserializable<u64> for u64 {
    open spec fn spec_deserialize(buf: Seq<u8>) -> Result<u64, ErrorKind> {
        if buf.len() == 8 {
            Ok(le_u64_at(buf, 0))
        } else {
            Err(ErrorKind::IncorrectLength)
        }
    }

    proof fn lemma_roundtrip(v: u64) {
        let s = spec_u64_to_le_bytes(v);
        vstd::bytes::lemma_auto_spec_u64_to_from_le_bytes();
        assert(s.len() == 8);
        assert(s.subrange(0, 8) =~= s);
        lemma_le_u64_at(s, 0, v);
    }

    fn deserialize(buf: &[u8]) -> (r: Result<u64, Error>) {
        if buf.len() != 8 {
            return Err(Error::new(ErrorKind::IncorrectLength));
        }
        Ok(read_u64(buf, 0))
    }
}

impl Serializable for Vec<u8> {
    open spec fn serializable(v: Seq<u8>) -> bool {
        true
    }

    open spec fn spec_serialize(v: Seq<u8>) -> Seq<u8> {
        v
    }

    fn serialize(msg: &Vec<u8>) -> (r: Vec<u8>) {
        let r = slice_to_vec(msg.as_slice());
        proof {
            assert(msg.deep_view() =~= msg@);
        }
        r
    }
}

impl Deserializable<Vec<u8>> for Vec<u8> {
    open spec fn spec_deserialize(buf: Seq<u8>) -> Result<Seq<u8>, ErrorKind> {
        Ok(buf)
    }

    proof fn lemma_roundtrip(v: Seq<u8>) {
    }

    fn deserialize(buf: &[u8]) -> (r: Result<Vec<u8>, Error>) {
        let r = slice_to_vec(buf);
        proof {
            assert(r.deep_view() =~= buf@);
        }
        Ok(r)
    }
}

impl<T: Serializable> Serializable for Option<T> {
    open spec fn serializable(v: Option<<T as DeepView>::V>) -> bool {
        match v {
            None => true,
            Some(x) => T::serializable(x),
        }
    }

    open spec fn spec_serialize(v: Option<<T as DeepView>::V>) -> Seq<u8> {
        match v {
            None => seq![0u8],
            Some(x) => seq![1u8] + T::spec_serialize(x),
        }
    }

    fn serialize(msg: &Option<T>) -> (r: Vec<u8>) {
        let mut r: Vec<u8> = Vec::new();
        match msg {
            None => {
                r.push(0u8);
                proof {
                    assert(r@ =~= Self::spec_serialize(msg.deep_view()));
                }
            },
            Some(x) => {
                r.push(1u8);
                let xb = T::serialize(x);
                write_bytes(&mut r, xb.as_slice());
                proof {
                    assert(r@ =~= Self::spec_serialize(msg.deep_view()));
                }
            },
        }
        r
    }
}

impl<T: Serializable + Deserializable<T>> Deserializable<Option<T>> for Option<T> {
    open spec fn spec_deserialize(buf: Seq<u8>) -> Result<Option<<T as DeepView>::V>, ErrorKind> {
        if buf.len() == 0 {
            Err(ErrorKind::IncorrectLength)
        } else if buf[0] == 0 {
            Ok(None)
        } else {
            match T::spec_deserialize(buf.subrange(1, buf.len() as int)) {
                Ok(x) => Ok(Some(x)),
                Err(k) => Err(k),
            }
        }
    }

    proof fn lemma_roundtrip(v: Option<<T as DeepView>::V>) {
        match v {
            None => {
            },
            Some(x) => {
                let s = Option::<T>::spec_serialize(v);
                assert(s[0] == 1u8);
                assert(s.subrange(1, s.len() as int) =~= T::spec_serialize(x));
                T::lemma_roundtrip(x);
            },
        }
    }

    fn deserialize(buf: &[u8]) -> (r: Result<Option<T>, Error>) {
        if buf.len() == 0 {
            return Err(Error::new(ErrorKind::IncorrectLength));
        }
        if buf[0] == 0 {
            return Ok(None);
        }
        let rest = slice_subrange(buf, 1, buf.len());
        match T::deserialize(rest) {
            Ok(x) => Ok(Some(x)),
            Err(e) => Err(e),
        }
    }
}

impl<T1: Serializable, T2: Serializable> Serializable for (T1, T2) {
    open spec fn serializable(v: (<T1 as DeepView>::V, <T2 as DeepView>::V)) -> bool {
        &&& T1::serializable(v.0)
        &&& T2::serializable(v.1)
        &&& T1::spec_serialize(v.0).len() <= u32::MAX
        &&& T2::spec_serialize(v.1).len() <= u32::MAX
    }

    open spec fn spec_serialize(v: (<T1 as DeepView>::V, <T2 as DeepView>::V)) -> Seq<u8> {
        spec_u32_to_le_bytes(T1::spec_serialize(v.0).len() as u32) + spec_u32_to_le_bytes(
            T2::spec_serialize(v.1).len() as u32,
        ) + T1::spec_serialize(v.0) + T2::spec_serialize(v.1)
    }

    fn serialize(msg: &(T1, T2)) -> (r: Vec<u8>) {
        let b1 = T1::serialize(&msg.0);
        let b2 = T2::serialize(&msg.1);
        let mut r: Vec<u8> = Vec::new();
        write_u32(&mut r, b1.len() as u32);
        write_u32(&mut r, b2.len() as u32);
        write_bytes(&mut r, b1.as_slice());
        write_bytes(&mut r, b2.as_slice());
        proof {
            assert(r@ =~= Self::spec_serialize(msg.deep_view()));
        }
        r
    }
}

impl<T1: Serializable + Deserializable<T1>, T2: Serializable + Deserializable<T2>> Deserializable<
    (T1, T2),
> for (T1, T2) {
    open spec fn spec_deserialize(buf: Seq<u8>) -> Result<
        (<T1 as DeepView>::V, <T2 as DeepView>::V),
        ErrorKind,
    > {
        if buf.len() < 8 {
            Err(ErrorKind::IncorrectLength)
        } else {
            let size1 = le_u32_at(buf, 0) as int;
            let size2 = le_u32_at(buf, 4) as int;
            if buf.len() != 8 + size1 + size2 {
                Err(ErrorKind::IncorrectLength)
            } else {
                match T1::spec_deserialize(buf.subrange(8, 8 + size1)) {
                    Err(k) => Err(k),
                    Ok(x1) => match T2::spec_deserialize(buf.subrange(8 + size1, 8 + size1 + size2)) {
                        Err(k) => Err(k),
                        Ok(x2) => Ok((x1, x2)),
                    },
                }
            }
        }
    }

    proof fn lemma_roundtrip(v: (<T1 as DeepView>::V, <T2 as DeepView>::V)) {
        let s = <(T1, T2)>::spec_serialize(v);
        let b1 = T1::spec_serialize(v.0);
        let b2 = T2::spec_serialize(v.1);
        vstd::bytes::lemma_auto_spec_u32_to_from_le_bytes();
        assert(spec_u32_to_le_bytes(b1.len() as u32).len() == 4);
        assert(spec_u32_to_le_bytes(b2.len() as u32).len() == 4);
        assert(s.subrange(0, 4) =~= spec_u32_to_le_bytes(b1.len() as u32));
        lemma_le_u32_at(s, 0, b1.len() as u32);
        assert(s.subrange(4, 8) =~= spec_u32_to_le_bytes(b2.len() as u32));
        lemma_le_u32_at(s, 4, b2.len() as u32);
        assert(s.subrange(8, 8 + b1.len() as int) =~= b1);
        assert(s.subrange(8 + b1.len() as int, 8 + b1.len() + b2.len() as int) =~= b2);
        T1::lemma_roundtrip(v.0);
        T2::lemma_roundtrip(v.1);
    }

    fn deserialize(buf: &[u8]) -> (r: Result<(T1, T2), Error>) {
        if buf.len() < 8 {
            return Err(Error::new(ErrorKind::IncorrectLength));
        }
        let size1 = read_u32(buf, 0) as usize;
        let size2 = read_u32(buf, 4) as usize;
        if size1 as u64 + size2 as u64 != (buf.len() - 8) as u64 {
            return Err(Error::new(ErrorKind::IncorrectLength));
        }
        let s1 = slice_subrange(buf, 8, 8 + size1);
        let s2 = slice_subrange(buf, 8 + size1, 8 + size1 + size2);
        let x1 = match T1::deserialize(s1) {
            Ok(x) => x,
            Err(e) => {
                return Err(e);
            },
        };
        let x2 = match T2::deserialize(s2) {
            Ok(x) => x,
            Err(e) => {
                return Err(e);
            },
        };
        Ok((x1, x2))
    }
}

impl<T1: Serializable, T2: Serializable, T3: Serializable> Serializable for (T1, T2, T3) {
    open spec fn serializable(
        v: (<T1 as DeepView>::V, <T2 as DeepView>::V, <T3 as DeepView>::V),
    ) -> bool {
        &&& T1::serializable(v.0)
        &&& T2::serializable(v.1)
        &&& T3::serializable(v.2)
        &&& T1::spec_serialize(v.0).len() <= u32::MAX
        &&& T2::spec_serialize(v.1).len() <= u32::MAX
        &&& T3::spec_serialize(v.2).len() <= u32::MAX
    }

    open spec fn spec_serialize(
        v: (<T1 as DeepView>::V, <T2 as DeepView>::V, <T3 as DeepView>::V),
    ) -> Seq<u8> {
        spec_u32_to_le_bytes(T1::spec_serialize(v.0).len() as u32) + spec_u32_to_le_bytes(
            T2::spec_serialize(v.1).len() as u32,
        ) + spec_u32_to_le_bytes(T3::spec_serialize(v.2).len() as u32) + T1::spec_serialize(v.0)
            + T2::spec_serialize(v.1) + T3::spec_serialize(v.2)
    }

    fn serialize(msg: &(T1, T2, T3)) -> (r: Vec<u8>) {
        let b1 = T1::serialize(&msg.0);
        let b2 = T2::serialize(&msg.1);
        let b3 = T3::serialize(&msg.2);
        let mut r: Vec<u8> = Vec::new();
        write_u32(&mut r, b1.len() as u32);
        write_u32(&mut r, b2.len() as u32);
        write_u32(&mut r, b3.len() as u32);
        write_bytes(&mut r, b1.as_slice());
        write_bytes(&mut r, b2.as_slice());
        write_bytes(&mut r, b3.as_slice());
        proof {
            assert(r@ =~= Self::spec_serialize(msg.deep_view()));
        }
        r
    }
}

impl<
    T1: Serializable + Deserializable<T1>,
    T2: Serializable + Deserializable<T2>,
    T3: Serializable + Deserializable<T3>,
> Deserializable<(T1, T2, T3)> for (T1, T2, T3) {
    open spec fn spec_deserialize(buf: Seq<u8>) -> Result<
        (<T1 as DeepView>::V, <T2 as DeepView>::V, <T3 as DeepView>::V),
        ErrorKind,
    > {
        if buf.len() < 12 {
            Err(ErrorKind::IncorrectLength)
        } else {
            let size1 = le_u32_at(buf, 0) as int;
            let size2 = le_u32_at(buf, 4) as int;
            let size3 = le_u32_at(buf, 8) as int;
            if buf.len() != 12 + size1 + size2 + size3 {
                Err(ErrorKind::IncorrectLength)
            } else {
                match T1::spec_deserialize(buf.subrange(12, 12 + size1)) {
                    Err(k) => Err(k),
                    Ok(x1) => match T2::spec_deserialize(
                        buf.subrange(12 + size1, 12 + size1 + size2),
                    ) {
                        Err(k) => Err(k),
                        Ok(x2) => match T3::spec_deserialize(
                            buf.subrange(12 + size1 + size2, 12 + size1 + size2 + size3),
                        ) {
                            Err(k) => Err(k),
                            Ok(x3) => Ok((x1, x2, x3)),
                        },
                    },
                }
            }
        }
    }

    proof fn lemma_roundtrip(v: (<T1 as DeepView>::V, <T2 as DeepView>::V, <T3 as DeepView>::V)) {
        let s = <(T1, T2, T3)>::spec_serialize(v);
        let b1 = T1::spec_serialize(v.0);
        let b2 = T2::spec_serialize(v.1);
        let b3 = T3::spec_serialize(v.2);
        vstd::bytes::lemma_auto_spec_u32_to_from_le_bytes();
        assert(spec_u32_to_le_bytes(b1.len() as u32).len() == 4);
        assert(spec_u32_to_le_bytes(b2.len() as u32).len() == 4);
        assert(spec_u32_to_le_bytes(b3.len() as u32).len() == 4);
        assert(s.subrange(0, 4) =~= spec_u32_to_le_bytes(b1.len() as u32));
        lemma_le_u32_at(s, 0, b1.len() as u32);
        assert(s.subrange(4, 8) =~= spec_u32_to_le_bytes(b2.len() as u32));
        lemma_le_u32_at(s, 4, b2.len() as u32);
        assert(s.subrange(8, 12) =~= spec_u32_to_le_bytes(b3.len() as u32));
        lemma_le_u32_at(s, 8, b3.len() as u32);
        assert(s.subrange(12, 12 + b1.len() as int) =~= b1);
        assert(s.subrange(12 + b1.len() as int, 12 + b1.len() + b2.len() as int) =~= b2);
        assert(s.subrange(
            12 + b1.len() + b2.len() as int,
            12 + b1.len() + b2.len() + b3.len() as int,
        ) =~= b3);
        T1::lemma_roundtrip(v.0);
        T2::lemma_roundtrip(v.1);
        T3::lemma_roundtrip(v.2);
    }

    fn deserialize(buf: &[u8]) -> (r: Result<(T1, T2, T3), Error>) {
        if buf.len() < 12 {
            return Err(Error::new(ErrorKind::IncorrectLength));
        }
        let size1 = read_u32(buf, 0) as usize;
        let size2 = read_u32(buf, 4) as usize;
        let size3 = read_u32(buf, 8) as usize;
        if size1 as u64 + size2 as u64 + size3 as u64 != (buf.len() - 12) as u64 {
            return Err(Error::new(ErrorKind::IncorrectLength));
        }
        let s1 = slice_subrange(buf, 12, 12 + size1);
        let s2 = slice_subrange(buf, 12 + size1, 12 + size1 + size2);
        let s3 = slice_subrange(buf, 12 + size1 + size2, 12 + size1 + size2 + size3);
        let x1 = match T1::deserialize(s1) {
            Ok(x) => x,
            Err(e) => {
                return Err(e);
            },
        };
        let x2 = match T2::deserialize(s2) {
            Ok(x) => x,
            Err(e) => {
                return Err(e);
            },
        };
        let x3 = match T3::deserialize(s3) {
            Ok(x) => x,
            Err(e) => {
                return Err(e);
            },
        };
        Ok((x1, x2, x3))
    }
}

/// The per-element 32-bit size table of a sequence's length-value encoding.
pub open spec fn spec_elems_sizes<T: Serializable>(v: Seq<<T as DeepView>::V>) -> Seq<u8>
    decreases v.len(),
{
    if v.len() == 0 {
        Seq::empty()
    } else {
        spec_u32_to_le_bytes(T::spec_serialize(v.first()).len() as u32) + spec_elems_sizes::<T>(
            v.drop_first(),
        )
    }
}

/// The concatenated element encodings of a sequence's length-value encoding.
pub open spec fn spec_elems_bytes<T: Serializable>(v: Seq<<T as DeepView>::V>) -> Seq<u8>
    decreases v.len(),
{
    if v.len() == 0 {
        Seq::empty()
    } else {
        T::spec_serialize(v.first()) + spec_elems_bytes::<T>(v.drop_first())
    }
}

/// The size table holds four bytes per element.
pub proof fn lemma_elems_sizes_len<T: Serializable>(v: Seq<<T as DeepView>::V>)
    ensures
        spec_elems_sizes::<T>(v).len() == 4 * v.len(),
    decreases v.len(),
{
    vstd::bytes::lemma_auto_spec_u32_to_from_le_bytes();
    if v.len() != 0 {
        assert(spec_u32_to_le_bytes(T::spec_serialize(v.first()).len() as u32).len() == 4);
        lemma_elems_sizes_len::<T>(v.drop_first());
    }
}

/// Size tables distribute over concatenation of element sequences.
pub proof fn lemma_elems_sizes_concat<T: Serializable>(
    a: Seq<<T as DeepView>::V>,
    b: Seq<<T as DeepView>::V>,
)
    ensures
        spec_elems_sizes::<T>(a + b) == spec_elems_sizes::<T>(a) + spec_elems_sizes::<T>(b),
    decreases a.len(),
{
    if a.len() == 0 {
        assert(a + b =~= b);
        assert(spec_elems_sizes::<T>(a) + spec_elems_sizes::<T>(b) =~= spec_elems_sizes::<T>(b));
    } else {
        assert((a + b).first() == a.first());
        assert((a + b).drop_first() =~= a.drop_first() + b);
        lemma_elems_sizes_concat::<T>(a.drop_first(), b);
        assert(spec_elems_sizes::<T>(a + b) =~= spec_elems_sizes::<T>(a) + spec_elems_sizes::<T>(
            b,
        ));
    }
}

/// Element bytes distribute over concatenation of element sequences.
pub proof fn lemma_elems_bytes_concat<T: Serializable>(
    a: Seq<<T as DeepView>::V>,
    b: Seq<<T as DeepView>::V>,
)
    ensures
        spec_elems_bytes::<T>(a + b) == spec_elems_bytes::<T>(a) + spec_elems_bytes::<T>(b),
    decreases a.len(),
{
    if a.len() == 0 {
        assert(a + b =~= b);
        assert(spec_elems_bytes::<T>(a) + spec_elems_bytes::<T>(b) =~= spec_elems_bytes::<T>(b));
    } else {
        assert((a + b).first() == a.first());
        assert((a + b).drop_first() =~= a.drop_first() + b);
        lemma_elems_bytes_concat::<T>(a.drop_first(), b);
        assert(spec_elems_bytes::<T>(a + b) =~= spec_elems_bytes::<T>(a) + spec_elems_bytes::<T>(
            b,
        ));
    }
}

/// The size table of a single element is its encoding's length, and its
/// element bytes are its encoding.
pub proof fn lemma_elems_singleton<T: Serializable>(x: <T as DeepView>::V)
    ensures
        spec_elems_sizes::<T>(seq![x]) == spec_u32_to_le_bytes(T::spec_serialize(x).len() as u32),
        spec_elems_bytes::<T>(seq![x]) == T::spec_serialize(x),
{
    assert(seq![x].drop_first() =~= Seq::<<T as DeepView>::V>::empty());
    assert(spec_elems_sizes::<T>(Seq::<<T as DeepView>::V>::empty()) == Seq::<u8>::empty());
    assert(spec_elems_bytes::<T>(Seq::<<T as DeepView>::V>::empty()) == Seq::<u8>::empty());
    assert(spec_elems_sizes::<T>(seq![x]) =~= spec_u32_to_le_bytes(
        T::spec_serialize(x).len() as u32,
    ));
    assert(spec_elems_bytes::<T>(seq![x]) =~= T::spec_serialize(x));
}

/// The elements decoded from a count, a size table, and a data region: each
/// element's declared byte span is consumed in order; a data-region
/// shortfall is `IncorrectLength`. Bytes past the declared spans are
/// ignored.
pub open spec fn spec_parse_elems<T: Serializable + Deserializable<T>>(
    count: int,
    sizes: Seq<u8>,
    data: Seq<u8>,
) -> Result<Seq<<T as DeepView>::V>, ErrorKind>
    decreases count,
{
    if count <= 0 {
        Ok(Seq::empty())
    } else {
        let size = le_u32_at(sizes, 0) as int;
        if data.len() < size {
            Err(ErrorKind::IncorrectLength)
        } else {
            match T::spec_deserialize(data.take(size)) {
                Ok(x) => match spec_parse_elems::<T>(count - 1, sizes.skip(4), data.skip(size)) {
                    Ok(rest) => Ok(seq![x] + rest),
                    Err(k) => Err(k),
                },
                Err(k) => Err(k),
            }
        }
    }
}

/// Parsing a count, size table, and data region inverts writing them.
pub proof fn lemma_parse_elems_roundtrip<T: Serializable + Deserializable<T>>(
    v: Seq<<T as DeepView>::V>,
)
    requires
        forall|i: int| 0 <= i < v.len() ==> T::serializable(#[trigger] v[i]),
        forall|i: int|
            0 <= i < v.len() ==> T::spec_serialize(#[trigger] v[i]).len() <= u32::MAX,
    ensures
        spec_parse_elems::<T>(v.len() as int, spec_elems_sizes::<T>(v), spec_elems_bytes::<T>(v))
            == Ok::<Seq<<T as DeepView>::V>, ErrorKind>(v),
    decreases v.len(),
{
    if v.len() == 0 {
        assert(Seq::<<T as DeepView>::V>::empty() =~= v);
    } else {
        let x0 = v.first();
        let rest = v.drop_first();
        let b0 = T::spec_serialize(x0);
        let sizes = spec_elems_sizes::<T>(v);
        let data = spec_elems_bytes::<T>(v);
        assert(v[0] == x0);
        vstd::bytes::lemma_auto_spec_u32_to_from_le_bytes();
        assert(spec_u32_to_le_bytes(b0.len() as u32).len() == 4);
        assert(sizes.subrange(0, 4) =~= spec_u32_to_le_bytes(b0.len() as u32));
        lemma_le_u32_at(sizes, 0, b0.len() as u32);
        assert(data.take(b0.len() as int) =~= b0);
        T::lemma_roundtrip(x0);
        assert(sizes.skip(4) =~= spec_elems_sizes::<T>(rest));
        assert(data.skip(b0.len() as int) =~= spec_elems_bytes::<T>(rest));
        assert(forall|i: int| 0 <= i < rest.len() ==> T::serializable(#[trigger] rest[i]));
        assert(forall|i: int|
            0 <= i < rest.len() ==> T::spec_serialize(#[trigger] rest[i]).len() <= u32::MAX);
        lemma_parse_elems_roundtrip::<T>(rest);
        assert(seq![x0] + rest =~= v);
    }
}

impl<T: Serializable> Serializable for Vec<T> {
    open spec fn serializable(v: Seq<<T as DeepView>::V>) -> bool {
        &&& v.len() <= u32::MAX
        &&& forall|i: int| 0 <= i < v.len() ==> T::serializable(#[trigger] v[i])
        &&& forall|i: int|
            0 <= i < v.len() ==> T::spec_serialize(#[trigger] v[i]).len() <= u32::MAX
    }

    open spec fn spec_serialize(v: Seq<<T as DeepView>::V>) -> Seq<u8> {
        spec_u32_to_le_bytes(v.len() as u32) + spec_elems_sizes::<T>(v) + spec_elems_bytes::<T>(v)
    }

    fn serialize(msg: &Vec<T>) -> (r: Vec<u8>) {
        let ghost vdv = msg.deep_view();
        let mut parts: Vec<Vec<u8>> = Vec::new();
        let mut i: usize = 0;
        while i < msg.len()
            invariant
                Vec::<T>::serializable(msg.deep_view()),
                vdv == msg.deep_view(),
                vdv.len() == msg@.len(),
                i <= msg@.len(),
                parts@.len() == i,
                forall|j: int|
                    0 <= j < i ==> (#[trigger] parts@[j])@ == T::spec_serialize(vdv[j]),
            decreases msg@.len() - i,
        {
            proof {
                assert(vdv[i as int] == msg@[i as int].deep_view());
            }
            let b = T::serialize(&msg[i]);
            parts.push(b);
            i = i + 1;
        }
        let mut r: Vec<u8> = Vec::new();
        write_u32(&mut r, msg.len() as u32);
        let ghost prefix = r@;
        let mut i: usize = 0;
        while i < parts.len()
            invariant
                Vec::<T>::serializable(msg.deep_view()),
                vdv == msg.deep_view(),
                vdv.len() == msg@.len(),
                parts@.len() == vdv.len(),
                forall|j: int|
                    0 <= j < parts@.len() ==> (#[trigger] parts@[j])@ == T::spec_serialize(vdv[j]),
                i <= parts@.len(),
                prefix == spec_u32_to_le_bytes(vdv.len() as u32),
                r@ == prefix + spec_elems_sizes::<T>(vdv.take(i as int)),
            decreases parts@.len() - i,
        {
            write_u32(&mut r, parts[i].len() as u32);
            proof {
                lemma_elems_sizes_concat::<T>(vdv.take(i as int), seq![vdv[i as int]]);
                assert(vdv.take(i as int) + seq![vdv[i as int]] =~= vdv.take(i + 1));
                lemma_elems_singleton::<T>(vdv[i as int]);
                assert(r@ =~= prefix + spec_elems_sizes::<T>(vdv.take(i + 1)));
            }
            i = i + 1;
        }
        proof {
            assert(vdv.take(vdv.len() as int) =~= vdv);
        }
        let ghost prefix2 = r@;
        let mut i: usize = 0;
        while i < parts.len()
            invariant
                Vec::<T>::serializable(msg.deep_view()),
                vdv == msg.deep_view(),
                vdv.len() == msg@.len(),
                parts@.len() == vdv.len(),
                forall|j: int|
                    0 <= j < parts@.len() ==> (#[trigger] parts@[j])@ == T::spec_serialize(vdv[j]),
                i <= parts@.len(),
                prefix2 == spec_u32_to_le_bytes(vdv.len() as u32) + spec_elems_sizes::<T>(vdv),
                r@ == prefix2 + spec_elems_bytes::<T>(vdv.take(i as int)),
            decreases parts@.len() - i,
        {
            write_bytes(&mut r, parts[i].as_slice());
            proof {
                lemma_elems_bytes_concat::<T>(vdv.take(i as int), seq![vdv[i as int]]);
                assert(vdv.take(i as int) + seq![vdv[i as int]] =~= vdv.take(i + 1));
                lemma_elems_singleton::<T>(vdv[i as int]);
                assert(r@ =~= prefix2 + spec_elems_bytes::<T>(vdv.take(i + 1)));
            }
            i = i + 1;
        }
        proof {
            assert(vdv.take(vdv.len() as int) =~= vdv);
            assert(r@ =~= Self::spec_serialize(msg.deep_view()));
        }
        r
    }
}

impl<T: Serializable + Deserializable<T>> Deserializable<Vec<T>> for Vec<T> {
    open spec fn spec_deserialize(buf: Seq<u8>) -> Result<Seq<<T as DeepView>::V>, ErrorKind> {
        if buf.len() < 4 {
            Err(ErrorKind::IncorrectLength)
        } else {
            let count = le_u32_at(buf, 0) as int;
            if buf.len() - 4 < 4 * count {
                Err(ErrorKind::IncorrectLength)
            } else {
                spec_parse_elems::<T>(
                    count,
                    buf.subrange(4, 4 + 4 * count),
                    buf.subrange(4 + 4 * count, buf.len() as int),
                )
            }
        }
    }

    proof fn lemma_roundtrip(v: Seq<<T as DeepView>::V>) {
        let s = Vec::<T>::spec_serialize(v);
        let sizes = spec_elems_sizes::<T>(v);
        let data = spec_elems_bytes::<T>(v);
        vstd::bytes::lemma_auto_spec_u32_to_from_le_bytes();
        assert(spec_u32_to_le_bytes(v.len() as u32).len() == 4);
        lemma_elems_sizes_len::<T>(v);
        assert(s.subrange(0, 4) =~= spec_u32_to_le_bytes(v.len() as u32));
        lemma_le_u32_at(s, 0, v.len() as u32);
        assert(s.subrange(4, 4 + 4 * v.len() as int) =~= sizes);
        assert(s.subrange(4 + 4 * v.len() as int, s.len() as int) =~= data);
        lemma_parse_elems_roundtrip::<T>(v);
    }

    fn deserialize(buf: &[u8]) -> (r: Result<Vec<T>, Error>) {
        if buf.len() < 4 {
            return Err(Error::new(ErrorKind::IncorrectLength));
        }
        let count = read_u32(buf, 0);
        if count as u64 * 4 > (buf.len() - 4) as u64 {
            return Err(Error::new(ErrorKind::IncorrectLength));
        }
        let sizes_len = (count as u64 * 4) as usize;
        let sizes = slice_subrange(buf, 4, 4 + sizes_len);
        let data = slice_subrange(buf, 4 + sizes_len, buf.len());
        let ghost gsizes = sizes@;
        let ghost gdata = data@;
        let ghost n = count as int;
        let mut res: Vec<T> = Vec::new();
        let mut i: usize = 0;
        let mut pos_data: usize = 0;
        proof {
            assert(gsizes.skip(0) =~= gsizes);
            assert(gdata.skip(0) =~= gdata);
            if spec_parse_elems::<T>(n, gsizes, gdata) is Ok {
                let rest = spec_parse_elems::<T>(n, gsizes, gdata)->Ok_0;
                assert(res.deep_view() + rest =~= rest);
            }
        }
        while i < count as usize
            invariant
                gsizes == sizes@,
                gdata == data@,
                n == count as int,
                gsizes.len() == 4 * n,
                gsizes.len() <= usize::MAX,
                gdata.len() <= usize::MAX,
                i <= count as usize,
                pos_data <= gdata.len(),
                res.deep_view().len() == i,
                spec_parse_elems::<T>(n, gsizes, gdata) matches Err(k)
                    ==> Self::spec_deserialize(buf@) == Err::<Seq<<T as DeepView>::V>, ErrorKind>(
                    k,
                ),
                spec_parse_elems::<T>(n, gsizes, gdata) matches Ok(es)
                    ==> Self::spec_deserialize(buf@) == Ok::<Seq<<T as DeepView>::V>, ErrorKind>(
                    es,
                ),
                match spec_parse_elems::<T>(
                    n - i,
                    gsizes.skip(4 * i as int),
                    gdata.skip(pos_data as int),
                ) {
                    Ok(rest) => spec_parse_elems::<T>(n, gsizes, gdata) == Ok::<
                        Seq<<T as DeepView>::V>,
                        ErrorKind,
                    >(res.deep_view() + rest),
                    Err(k) => spec_parse_elems::<T>(n, gsizes, gdata) == Err::<
                        Seq<<T as DeepView>::V>,
                        ErrorKind,
                    >(k),
                },
            decreases count as int - i,
        {
            let size = read_u32(sizes, 4 * i);
            proof {
                assert(gsizes.skip(4 * i as int).subrange(0, 4) =~= gsizes.subrange(
                    4 * i as int,
                    4 * i + 4,
                ));
            }
            if size as u64 > (data.len() - pos_data) as u64 {
                return Err(Error::new(ErrorKind::IncorrectLength));
            }
            let item = slice_subrange(data, pos_data, pos_data + size as usize);
            proof {
                assert(item@ =~= gdata.skip(pos_data as int).take(size as int));
            }
            let x = match T::deserialize(item) {
                Ok(x) => x,
                Err(e) => {
                    return Err(e);
                },
            };
            let ghost old_res = res.deep_view();
            res.push(x);
            pos_data = pos_data + size as usize;
            i = i + 1;
            proof {
                assert(res.deep_view() =~= old_res + seq![x.deep_view()]);
                assert(gsizes.skip(4 * (i - 1) as int).skip(4) =~= gsizes.skip(4 * i as int));
                assert(gdata.skip(pos_data - size as usize).skip(size as int) =~= gdata.skip(
                    pos_data as int,
                ));
                assert(old_res + (seq![x.deep_view()] + spec_parse_elems::<T>(
                    n - i,
                    gsizes.skip(4 * i as int),
                    gdata.skip(pos_data as int),
                )->Ok_0) =~= (old_res + seq![x.deep_view()]) + spec_parse_elems::<T>(
                    n - i,
                    gsizes.skip(4 * i as int),
                    gdata.skip(pos_data as int),
                )->Ok_0);
            }
        }
        proof {
            assert(res.deep_view() + Seq::<<T as DeepView>::V>::empty() =~= res.deep_view());
        }
        Ok(res)
    }
}

} // verus!
