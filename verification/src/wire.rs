//! Big-endian integers in a byte buffer, read and written under a bounds
//! check.

use vstd::prelude::*;
use crate::error::BoundsError;

verus! {

/// The 16-bit big-endian number at `i`.
pub open spec fn get_u16(s: Seq<u8>, i: int) -> int {
    s[i] as int * 256 + s[i + 1] as int
}

/// The 32-bit big-endian number at `i`.
pub open spec fn get_u32(s: Seq<u8>, i: int) -> int {
    get_u16(s, i) * 65536 + get_u16(s, i + 2)
}

/// `s` with the 16-bit big-endian number `v` at `i`.
pub open spec fn put_u16(s: Seq<u8>, i: int, v: int) -> Seq<u8> {
    s.update(i, (v / 256) as u8).update(i + 1, (v % 256) as u8)
}

/// `s` with the 32-bit big-endian number `v` at `i`.
pub open spec fn put_u32(s: Seq<u8>, i: int, v: int) -> Seq<u8> {
    put_u16(put_u16(s, i, v / 65536), i + 2, v % 65536)
}

/// Whether `width` bytes from `offset` on lie inside a buffer of `len`
/// bytes.
pub open spec fn in_bounds(len: int, offset: int, width: int) -> bool {
    0 <= offset && offset + width <= len
}

/// What a refused access of `width` bytes at `offset` reports.
pub open spec fn out_of_bounds(len: int, offset: int, width: int) -> BoundsError {
    BoundsError { offset: offset as usize, width: width as usize, len: len as usize }
}

/// What reading one byte at `offset` gives, where the first `limit` bytes
/// of `s` may be read.
pub open spec fn checked_u8(s: Seq<u8>, limit: int, offset: int) -> Result<u8, BoundsError> {
    if in_bounds(limit, offset, 1) {
        Ok(s[offset])
    } else {
        Err(out_of_bounds(limit, offset, 1))
    }
}

/// What reading a 16-bit number at `offset` gives, where the first `limit`
/// bytes of `s` may be read.
pub open spec fn checked_u16(s: Seq<u8>, limit: int, offset: int) -> Result<u16, BoundsError> {
    if in_bounds(limit, offset, 2) {
        Ok(get_u16(s, offset) as u16)
    } else {
        Err(out_of_bounds(limit, offset, 2))
    }
}

/// What reading a 32-bit number at `offset` gives, where the first `limit`
/// bytes of `s` may be read.
pub open spec fn checked_u32(s: Seq<u8>, limit: int, offset: int) -> Result<u32, BoundsError> {
    if in_bounds(limit, offset, 4) {
        Ok(get_u32(s, offset) as u32)
    } else {
        Err(out_of_bounds(limit, offset, 4))
    }
}

/// The byte at `offset`, or the refusal.
pub fn read_u8(data: &Vec<u8>, offset: usize) -> (r: Result<u8, BoundsError>)
    ensures
        r == checked_u8(data@, data.len() as int, offset as int),
{
    if offset >= data.len() {
        return Err(BoundsError { offset, width: 1, len: data.len() });
    }
    Ok(data[offset])
}

/// The 16-bit big-endian number at `offset`, or the refusal.
pub fn read_u16(data: &Vec<u8>, offset: usize) -> (r: Result<u16, BoundsError>)
    ensures
        r == checked_u16(data@, data.len() as int, offset as int),
{
    let len = data.len();
    if offset > len || len - offset < 2 {
        return Err(BoundsError { offset, width: 2, len });
    }
    let hi: u16 = data[offset] as u16;
    let lo: u16 = data[offset + 1] as u16;
    Ok(hi * 256 + lo)
}

/// The 32-bit big-endian number at `offset`, or the refusal.
pub fn read_u32(data: &Vec<u8>, offset: usize) -> (r: Result<u32, BoundsError>)
    ensures
        r == checked_u32(data@, data.len() as int, offset as int),
{
    let len = data.len();
    if offset > len || len - offset < 4 {
        return Err(BoundsError { offset, width: 4, len });
    }
    let b0: u32 = data[offset] as u32;
    let b1: u32 = data[offset + 1] as u32;
    let b2: u32 = data[offset + 2] as u32;
    let b3: u32 = data[offset + 3] as u32;
    Ok((b0 * 256 + b1) * 65536 + (b2 * 256 + b3))
}

/// Write the byte `v` at `offset`, or refuse and leave the buffer as it
/// was.
pub fn write_u8(data: &mut Vec<u8>, offset: usize, v: u8) -> (r: Result<(), BoundsError>)
    ensures
        in_bounds(old(data).len() as int, offset as int, 1) ==> r is Ok && final(data)@ == old(
            data,
        )@.update(offset as int, v),
        !in_bounds(old(data).len() as int, offset as int, 1) ==> r == Err::<(), BoundsError>(
            out_of_bounds(old(data).len() as int, offset as int, 1),
        ) && final(data)@ == old(data)@,
{
    if offset >= data.len() {
        return Err(BoundsError { offset, width: 1, len: data.len() });
    }
    data[offset] = v;
    Ok(())
}

/// Write the 16-bit number `v` at `offset`, big end first, or refuse and
/// leave the buffer as it was.
pub fn write_u16(data: &mut Vec<u8>, offset: usize, v: u16) -> (r: Result<(), BoundsError>)
    ensures
        in_bounds(old(data).len() as int, offset as int, 2) ==> r is Ok && final(data)@
            == put_u16(old(data)@, offset as int, v as int),
        !in_bounds(old(data).len() as int, offset as int, 2) ==> r == Err::<(), BoundsError>(
            out_of_bounds(old(data).len() as int, offset as int, 2),
        ) && final(data)@ == old(data)@,
{
    let len = data.len();
    if offset > len || len - offset < 2 {
        return Err(BoundsError { offset, width: 2, len });
    }
    data[offset] = (v / 256) as u8;
    data[offset + 1] = (v % 256) as u8;
    Ok(())
}

/// Write the 32-bit number `v` at `offset`, big end first, or refuse and
/// leave the buffer as it was.
pub fn write_u32(data: &mut Vec<u8>, offset: usize, v: u32) -> (r: Result<(), BoundsError>)
    ensures
        in_bounds(old(data).len() as int, offset as int, 4) ==> r is Ok && final(data)@
            == put_u32(old(data)@, offset as int, v as int),
        !in_bounds(old(data).len() as int, offset as int, 4) ==> r == Err::<(), BoundsError>(
            out_of_bounds(old(data).len() as int, offset as int, 4),
        ) && final(data)@ == old(data)@,
{
    let len = data.len();
    if offset > len || len - offset < 4 {
        return Err(BoundsError { offset, width: 4, len });
    }
    let hi: u16 = (v / 65536) as u16;
    let lo: u16 = (v % 65536) as u16;
    data[offset] = (hi / 256) as u8;
    data[offset + 1] = (hi % 256) as u8;
    data[offset + 2] = (lo / 256) as u8;
    data[offset + 3] = (lo % 256) as u8;
    Ok(())
}

/// A 16-bit number written where it stands changes nothing.
pub proof fn lemma_put_same_u16(s: Seq<u8>, i: int)
    requires
        in_bounds(s.len() as int, i, 2),
    ensures
        put_u16(s, i, get_u16(s, i)) == s,
{
    let v = get_u16(s, i);
    let hi = s[i] as int;
    let lo = s[i + 1] as int;
    assert(v == hi * 256 + lo);
    assert(v / 256 == hi);
    assert(v % 256 == lo);
    assert(put_u16(s, i, v) =~= s);
}

/// A 32-bit number written where it stands changes nothing.
pub proof fn lemma_put_same_u32(s: Seq<u8>, i: int)
    requires
        in_bounds(s.len() as int, i, 4),
    ensures
        put_u32(s, i, get_u32(s, i)) == s,
{
    let v = get_u32(s, i);
    let hi = get_u16(s, i);
    let lo = get_u16(s, i + 2);
    assert(v == hi * 65536 + lo);
    assert(0 <= lo < 65536);
    assert(v / 65536 == hi);
    assert(v % 65536 == lo);
    lemma_put_same_u16(s, i);
    lemma_put_same_u16(s, i + 2);
}

} // verus!
