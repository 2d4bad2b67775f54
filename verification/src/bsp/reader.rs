//! A tiny little-endian byte cursor. BSP/WAD structs have mixed-width packed
//! fields, so they are read explicitly rather than through struct layout.
use vstd::prelude::*;
use crate::bsp::BspError;
use crate::le::{get_u16_le, get_u32_le, le_u16_at, le_u32_at};
use crate::text::{string_from_utf8_lossy, utf8_lossy};

verus! {

/// A cursor over a byte slice.
pub struct Reader<'a> {
    data: &'a [u8],
    pos: usize,
}

/// The error a read of `n` bytes at `pos` of `data` reports.
pub open spec fn short_read(data: Seq<u8>, pos: usize, n: usize) -> BspError {
    BspError::UnexpectedEnd { need: n, at: pos, have: data.len() as usize }
}

/// The index of the first NUL byte of `b`, or its length.
pub open spec fn first_nul(b: Seq<u8>) -> int
    decreases b.len(),
{
    if b.len() == 0 {
        0
    } else if b[0] == 0 {
        0
    } else {
        1 + first_nul(b.drop_first())
    }
}

/// The text of a NUL-padded name: the bytes before the first NUL.
pub open spec fn nul_padded_name(b: Seq<u8>) -> Seq<char> {
    utf8_lossy(b.take(first_nul(b)))
}

impl<'a> Reader<'a> {
    /// The bytes the cursor reads from.
    pub closed spec fn data(&self) -> Seq<u8> {
        self.data@
    }

    /// The current read position.
    pub closed spec fn position(&self) -> usize {
        self.pos
    }

    /// A cursor at the start of `data`.
    pub fn new(data: &'a [u8]) -> (r: Self)
        ensures
            r.data() == data@,
            r.position() == 0,
    {
        Reader { data, pos: 0 }
    }

    /// A cursor at `pos` of `data`.
    pub fn at(data: &'a [u8], pos: usize) -> (r: Self)
        ensures
            r.data() == data@,
            r.position() == pos,
    {
        Reader { data, pos }
    }

    /// The current read position.
    pub fn pos(&self) -> (r: usize)
        ensures
            r == self.position(),
    {
        self.pos
    }

    /// Move the cursor to `pos`.
    pub fn seek(&mut self, pos: usize)
        ensures
            final(self).data() == old(self).data(),
            final(self).position() == pos,
    {
        self.pos = pos;
    }

    /// Bytes left after the cursor (zero when it is past the end).
    pub fn remaining(&self) -> (r: usize)
        ensures
            r == if self.position() <= self.data().len() {
                self.data().len() - self.position()
            } else {
                0
            },
    {
        self.data.len().saturating_sub(self.pos)
    }

    /// Take the next `n` bytes, or report that there are not enough.
    fn take(&mut self, n: usize) -> (r: Result<&'a [u8], BspError>)
        ensures
            final(self).data() == old(self).data(),
            old(self).position() + n <= old(self).data().len() ==> (r matches Ok(s) && s@
                == old(self).data().subrange(
                old(self).position() as int,
                old(self).position() + n,
            ) && final(self).position() == old(self).position() + n),
            old(self).position() + n > old(self).data().len() ==> r == Err::<&'a [u8], BspError>(
                short_read(old(self).data(), old(self).position(), n),
            ) && final(self).position() == old(self).position(),
    {
        let len = self.data.len();
        if self.pos > len || n > len - self.pos {
            return Err(BspError::UnexpectedEnd { need: n, at: self.pos, have: len });
        }
        let s = &self.data[self.pos..self.pos + n];
        self.pos = self.pos + n;
        Ok(s)
    }

    /// The next byte.
    pub fn u8(&mut self) -> (r: Result<u8, BspError>)
        ensures
            final(self).data() == old(self).data(),
            old(self).position() + 1 <= old(self).data().len() ==> r == Ok::<u8, BspError>(
                old(self).data()[old(self).position() as int],
            ) && final(self).position() == old(self).position() + 1,
            old(self).position() + 1 > old(self).data().len() ==> r == Err::<u8, BspError>(
                short_read(old(self).data(), old(self).position(), 1),
            ) && final(self).position() == old(self).position(),
    {
        let b = self.take(1)?;
        Ok(b[0])
    }

    /// The next byte, as a two's-complement `i8`.
    pub fn i8(&mut self) -> (r: Result<i8, BspError>)
        ensures
            final(self).data() == old(self).data(),
            old(self).position() + 1 <= old(self).data().len() ==> r == Ok::<i8, BspError>(
                old(self).data()[old(self).position() as int] as i8,
            ) && final(self).position() == old(self).position() + 1,
            old(self).position() + 1 > old(self).data().len() ==> r == Err::<i8, BspError>(
                short_read(old(self).data(), old(self).position(), 1),
            ) && final(self).position() == old(self).position(),
    {
        let b = self.u8()?;
        Ok(b as i8)
    }

    /// The next little-endian `u16`.
    pub fn u16(&mut self) -> (r: Result<u16, BspError>)
        ensures
            final(self).data() == old(self).data(),
            old(self).position() + 2 <= old(self).data().len() ==> r == Ok::<u16, BspError>(
                le_u16_at(old(self).data(), old(self).position() as int) as u16,
            ) && final(self).position() == old(self).position() + 2,
            old(self).position() + 2 > old(self).data().len() ==> r == Err::<u16, BspError>(
                short_read(old(self).data(), old(self).position(), 2),
            ) && final(self).position() == old(self).position(),
    {
        let b = self.take(2)?;
        let v = get_u16_le(b, 0);
        Ok(v)
    }

    /// The next little-endian `u16`, as a two's-complement `i16`.
    pub fn i16(&mut self) -> (r: Result<i16, BspError>)
        ensures
            final(self).data() == old(self).data(),
            old(self).position() + 2 <= old(self).data().len() ==> r == Ok::<i16, BspError>(
                (le_u16_at(old(self).data(), old(self).position() as int) as u16) as i16,
            ) && final(self).position() == old(self).position() + 2,
            old(self).position() + 2 > old(self).data().len() ==> r == Err::<i16, BspError>(
                short_read(old(self).data(), old(self).position(), 2),
            ) && final(self).position() == old(self).position(),
    {
        let v = self.u16()?;
        Ok(v as i16)
    }

    /// The next little-endian `u32`.
    pub fn u32(&mut self) -> (r: Result<u32, BspError>)
        ensures
            final(self).data() == old(self).data(),
            old(self).position() + 4 <= old(self).data().len() ==> r == Ok::<u32, BspError>(
                le_u32_at(old(self).data(), old(self).position() as int) as u32,
            ) && final(self).position() == old(self).position() + 4,
            old(self).position() + 4 > old(self).data().len() ==> r == Err::<u32, BspError>(
                short_read(old(self).data(), old(self).position(), 4),
            ) && final(self).position() == old(self).position(),
    {
        let b = self.take(4)?;
        let v = get_u32_le(b, 0);
        Ok(v)
    }

    /// The next little-endian `u32`, as a two's-complement `i32`.
    pub fn i32(&mut self) -> (r: Result<i32, BspError>)
        ensures
            final(self).data() == old(self).data(),
            old(self).position() + 4 <= old(self).data().len() ==> r == Ok::<i32, BspError>(
                (le_u32_at(old(self).data(), old(self).position() as int) as u32) as i32,
            ) && final(self).position() == old(self).position() + 4,
            old(self).position() + 4 > old(self).data().len() ==> r == Err::<i32, BspError>(
                short_read(old(self).data(), old(self).position(), 4),
            ) && final(self).position() == old(self).position(),
    {
        let v = self.u32()?;
        Ok(v as i32)
    }

    /// Read a fixed-size NUL-padded name (e.g. miptex `name[16]`).
    pub fn fixed_str(&mut self, n: usize) -> (r: Result<String, BspError>)
        ensures
            final(self).data() == old(self).data(),
            old(self).position() + n <= old(self).data().len() ==> (r matches Ok(s) && s@
                == nul_padded_name(
                old(self).data().subrange(old(self).position() as int, old(self).position() + n),
            ) && final(self).position() == old(self).position() + n),
            old(self).position() + n > old(self).data().len() ==> r == Err::<String, BspError>(
                short_read(old(self).data(), old(self).position(), n),
            ) && final(self).position() == old(self).position(),
    {
        let b = self.take(n)?;
        let mut end: usize = 0;
        assert(b@.skip(0) =~= b@);
        while end < b.len() && b[end] != 0
            invariant
                end <= b@.len(),
                first_nul(b@) == end + first_nul(b@.skip(end as int)),
            decreases b@.len() - end,
        {
            assert(b@.skip(end as int).drop_first() =~= b@.skip(end + 1));
            end = end + 1;
        }
        assert(first_nul(b@.skip(end as int)) == 0);
        let name = string_from_utf8_lossy(&b[0..end]);
        assert(b@.subrange(0, end as int) =~= b@.take(end as int));
        Ok(name)
    }

    /// The next `n` bytes.
    pub fn bytes(&mut self, n: usize) -> (r: Result<&'a [u8], BspError>)
        ensures
            final(self).data() == old(self).data(),
            old(self).position() + n <= old(self).data().len() ==> (r matches Ok(s) && s@
                == old(self).data().subrange(
                old(self).position() as int,
                old(self).position() + n,
            ) && final(self).position() == old(self).position() + n),
            old(self).position() + n > old(self).data().len() ==> r == Err::<&'a [u8], BspError>(
                short_read(old(self).data(), old(self).position(), n),
            ) && final(self).position() == old(self).position(),
    {
        self.take(n)
    }
}

} // verus!
