//! Primitive codec: fixed-width little-endian integers and fixed-length byte
//! runs, read and written at explicit offsets of a byte buffer.

use vstd::prelude::*;
use vstd::bytes::{
    spec_u32_from_le_bytes, spec_u32_to_le_bytes, spec_u64_from_le_bytes, spec_u64_to_le_bytes,
    u32_from_le_bytes, u32_to_le_bytes, u64_from_le_bytes, u64_to_le_bytes,
    lemma_auto_spec_u32_to_from_le_bytes, lemma_auto_spec_u64_to_from_le_bytes,
};
use vstd::slice::{slice_subrange, slice_to_vec};

verus! {

/// The `u32` stored little-endian in the four bytes of `s` that start at `off`.
pub open spec fn le_u32_at(s: Seq<u8>, off: int) -> u32
    recommends
        0 <= off,
        off + 4 <= s.len(),
{
    spec_u32_from_le_bytes(s.subrange(off, off + 4))
}

/// The `u64` stored little-endian in the eight bytes of `s` that start at `off`.
pub open spec fn le_u64_at(s: Seq<u8>, off: int) -> u64
    recommends
        0 <= off,
        off + 8 <= s.len(),
{
    spec_u64_from_le_bytes(s.subrange(off, off + 8))
}

/// Reading four bytes back as a `u32` inverts writing a `u32`, at any offset
/// of a larger buffer.
pub proof fn lemma_le_u32_at(s: Seq<u8>, off: int, v: u32)
    requires
        0 <= off,
        off + 4 <= s.len(),
        s.subrange(off, off + 4) == spec_u32_to_le_bytes(v),
    ensures
        le_u32_at(s, off) == v,
{
    lemma_auto_spec_u32_to_from_le_bytes();
    assert(spec_u32_to_le_bytes(v).len() == 4);
    assert(spec_u32_from_le_bytes(spec_u32_to_le_bytes(v)) == v);
}

/// Reading eight bytes back as a `u64` inverts writing a `u64`, at any offset
/// of a larger buffer.
pub proof fn lemma_le_u64_at(s: Seq<u8>, off: int, v: u64)
    requires
        0 <= off,
        off + 8 <= s.len(),
        s.subrange(off, off + 8) == spec_u64_to_le_bytes(v),
    ensures
        le_u64_at(s, off) == v,
{
    lemma_auto_spec_u64_to_from_le_bytes();
    assert(spec_u64_to_le_bytes(v).len() == 8);
    assert(spec_u64_from_le_bytes(spec_u64_to_le_bytes(v)) == v);
}

/// Appends the bytes of `bs` to `out`.
pub fn write_bytes(out: &mut Vec<u8>, bs: &[u8])
    ensures
        final(out)@ == old(out)@ + bs@,
{
    let mut i: usize = 0;
    while i < bs.len()
        invariant
            i <= bs@.len(),
            out@ == old(out)@ + bs@.subrange(0, i as int),
        decreases bs@.len() - i,
    {
        out.push(bs[i]);
        proof {
            assert(old(out)@ + bs@.subrange(0, i as int) + seq![bs@[i as int]] =~= old(out)@
                + bs@.subrange(0, i + 1));
        }
        i = i + 1;
    }
    proof {
        assert(bs@.subrange(0, bs@.len() as int) =~= bs@);
    }
}

/// Appends the four little-endian bytes of `v` to `out`.
pub fn write_u32(out: &mut Vec<u8>, v: u32)
    ensures
        final(out)@ == old(out)@ + spec_u32_to_le_bytes(v),
{
    let bs = u32_to_le_bytes(v);
    write_bytes(out, bs.as_slice());
}

/// Appends the eight little-endian bytes of `v` to `out`.
pub fn write_u64(out: &mut Vec<u8>, v: u64)
    ensures
        final(out)@ == old(out)@ + spec_u64_to_le_bytes(v),
{
    let bs = u64_to_le_bytes(v);
    write_bytes(out, bs.as_slice());
}

/// Reads the `u32` stored little-endian at `off`.
pub fn read_u32(buf: &[u8], off: usize) -> (r: u32)
    requires
        off + 4 <= buf.len(),
    ensures
        r == le_u32_at(buf@, off as int),
{
    u32_from_le_bytes(slice_subrange(buf, off, off + 4))
}

/// Reads the `u64` stored little-endian at `off`.
pub fn read_u64(buf: &[u8], off: usize) -> (r: u64)
    requires
        off + 8 <= buf.len(),
    ensures
        r == le_u64_at(buf@, off as int),
{
    u64_from_le_bytes(slice_subrange(buf, off, off + 8))
}

/// Copies `len` bytes starting at `off` into an owned vector.
pub fn read_bytes(buf: &[u8], off: usize, len: usize) -> (r: Vec<u8>)
    requires
        off + len <= buf.len(),
    ensures
        r@ == buf@.subrange(off as int, off + len),
{
    slice_to_vec(slice_subrange(buf, off, off + len))
}

/// Copies the 32 bytes starting at `off` into a fixed-length array.
pub fn read_arr32(buf: &[u8], off: usize) -> (r: [u8; 32])
    requires
        off + 32 <= buf.len(),
    ensures
        r@ == buf@.subrange(off as int, off + 32),
{
    let mut a = [0u8; 32];
    let mut i: usize = 0;
    while i < 32
        invariant
            i <= 32,
            a@.len() == 32,
            off + 32 <= buf.len(),
            forall|k: int| 0 <= k < i ==> a@[k] == buf@[off + k],
        decreases 32 - i,
    {
        a[i] = buf[off + i];
        i = i + 1;
    }
    proof {
        assert(a@ =~= buf@.subrange(off as int, off + 32));
    }
    a
}

/// Copies the 64 bytes starting at `off` into a fixed-length array.
pub fn read_arr64(buf: &[u8], off: usize) -> (r: [u8; 64])
    requires
        off + 64 <= buf.len(),
    ensures
        r@ == buf@.subrange(off as int, off + 64),
{
    let mut a = [0u8; 64];
    let mut i: usize = 0;
    while i < 64
        invariant
            i <= 64,
            a@.len() == 64,
            off + 64 <= buf.len(),
            forall|k: int| 0 <= k < i ==> a@[k] == buf@[off + k],
        decreases 64 - i,
    {
        a[i] = buf[off + i];
        i = i + 1;
    }
    proof {
        assert(a@ =~= buf@.subrange(off as int, off + 64));
    }
    a
}

} // verus!
