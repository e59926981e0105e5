//! A read position in a shared byte buffer.
use std::rc::Rc;
use core::ops::Range;
use vstd::prelude::*;
use crate::le::{le_u16, le_u32, le_i32, read_u16_le, read_u32_le, read_i32_le};
use crate::m3g::ObjRef;

verus! {

/// `n` bytes can be read at `p` (reading nothing always succeeds).
pub open spec fn can_read(s: Seq<u8>, p: int, n: int) -> bool {
    n == 0 || p + n <= s.len()
}

/// The little-endian `u32`s stored at `p, p + 4, ...`.
pub open spec fn u32s_at(s: Seq<u8>, p: int, n: int) -> Seq<u32> {
    Seq::new(n as nat, |i: int| le_u32(s, p + 4 * i))
}

/// The object references stored as little-endian `u32`s at `p, p + 4, ...`.
pub open spec fn obj_refs_at(s: Seq<u8>, p: int, n: int) -> Seq<ObjRef> {
    Seq::new(n as nat, |i: int| ObjRef(le_u32(s, p + 4 * i)))
}

/// Position of the first NUL byte at or after `p`, if there is one.
pub open spec fn first_nul(s: Seq<u8>, p: int) -> Option<int>
    decreases s.len() - p,
{
    if p < 0 || p >= s.len() {
        None
    } else if s[p] == 0 {
        Some(p)
    } else {
        first_nul(s, p + 1)
    }
}

/// What `String::from_utf8_lossy` makes of a byte sequence.
pub uninterp spec fn utf8_lossy(bytes: Seq<u8>) -> Seq<char>;

/// Decodes `bytes` with `String::from_utf8_lossy` (invalid sequences become U+FFFD) and
/// takes ownership of the result; the characters are named by `utf8_lossy`.
#[verifier::external_body]
fn lossy_string(bytes: &[u8]) -> (s: String)
    ensures
        s@ == utf8_lossy(bytes@),
{
    String::from_utf8_lossy(bytes).into_owned()
}

/// A read position in a shared buffer. Every read returns `None`, and never stops the
/// program, when what it reads runs past the end of the buffer; the readers of the object
/// types pass such failures on, and `try_parse` answers `None` for the whole file.
pub struct Cursor {
    pub data: Rc<Vec<u8>>,
    pub pos: usize,
}

impl Cursor {
    pub fn new(data: Rc<Vec<u8>>) -> (c: Self)
        ensures
            c.data == data,
            c.pos == 0,
    {
        Cursor { data, pos: 0 }
    }

    pub fn eof(&self) -> (r: bool)
        ensures
            r == (self.pos >= self.data@.len()),
    {
        self.pos >= self.data.len()
    }

    /// Whether `n` bytes can be read at the position.
    fn available(&self, n: usize) -> (r: bool)
        ensures
            r == (self.pos + n <= self.data@.len()),
            self.data@.len() <= usize::MAX,
    {
        let len = self.data.len();
        self.pos <= len && len - self.pos >= n
    }

    /// The next `n` bytes, or `None` when fewer remain.
    pub fn bytes(&mut self, n: usize) -> (r: Option<&[u8]>)
        ensures
            final(self).data == old(self).data,
            r is Some <==> old(self).pos + n <= old(self).data@.len(),
            r matches Some(b) ==> b@ == old(self).data@.subrange(old(self).pos as int, old(self).pos + n)
                && final(self).pos == old(self).pos + n,
    {
        if !self.available(n) {
            return None;
        }
        let start = self.pos;
        self.pos = start + n;
        Some(vstd::slice::slice_subrange(self.data.as_slice(), start, start + n))
    }

    /// The next `n` bytes as a range of the buffer, which is not checked against its length.
    pub fn range(&mut self, n: usize) -> (r: Option<Range<usize>>)
        ensures
            final(self).data == old(self).data,
            r is Some <==> old(self).pos + n <= usize::MAX,
            r matches Some(rg) ==> rg.start == old(self).pos && rg.end == old(self).pos + n
                && final(self).pos == old(self).pos + n,
    {
        if self.pos > usize::MAX - n {
            return None;
        }
        let r = Range { start: self.pos, end: self.pos + n };
        self.pos = self.pos + n;
        Some(r)
    }

    pub fn u8(&mut self) -> (r: Option<u8>)
        ensures
            final(self).data == old(self).data,
            r is Some <==> old(self).pos + 1 <= old(self).data@.len(),
            r matches Some(v) ==> v == old(self).data@[old(self).pos as int] && final(self).pos == old(self).pos + 1,
    {
        if !self.available(1) {
            return None;
        }
        let b = self.data[self.pos];
        self.pos = self.pos + 1;
        Some(b)
    }

    pub fn i8(&mut self) -> (r: Option<i8>)
        ensures
            final(self).data == old(self).data,
            r is Some <==> old(self).pos + 1 <= old(self).data@.len(),
            r matches Some(v) ==> v == old(self).data@[old(self).pos as int] as i8 && final(self).pos == old(self).pos + 1,
    {
        let b = self.u8()?;
        Some(#[verifier::truncate] (b as i8))
    }

    pub fn bool(&mut self) -> (r: Option<bool>)
        ensures
            final(self).data == old(self).data,
            r is Some <==> old(self).pos + 1 <= old(self).data@.len(),
            r matches Some(v) ==> v == (old(self).data@[old(self).pos as int] != 0) && final(self).pos == old(self).pos + 1,
    {
        let b = self.u8()?;
        Some(b != 0)
    }

    pub fn u16(&mut self) -> (r: Option<u16>)
        ensures
            final(self).data == old(self).data,
            r is Some <==> old(self).pos + 2 <= old(self).data@.len(),
            r matches Some(v) ==> v == le_u16(old(self).data@, old(self).pos as int) && final(self).pos == old(self).pos + 2,
    {
        if !self.available(2) {
            return None;
        }
        let start = self.pos;
        let bytes = vstd::slice::slice_subrange(self.data.as_slice(), start, start + 2);
        let v = read_u16_le(bytes);
        self.pos = start + 2;
        Some(v)
    }

    /// The 16-bit fields of `TriangleStripArray` encodings 2 and 0x82 are explicitly
    /// little-endian shorts; this name marks those reads.
    pub fn u16_le(&mut self) -> (r: Option<u16>)
        ensures
            final(self).data == old(self).data,
            r is Some <==> old(self).pos + 2 <= old(self).data@.len(),
            r matches Some(v) ==> v == le_u16(old(self).data@, old(self).pos as int) && final(self).pos == old(self).pos + 2,
    {
        self.u16()
    }

    pub fn u32(&mut self) -> (r: Option<u32>)
        ensures
            final(self).data == old(self).data,
            r is Some <==> old(self).pos + 4 <= old(self).data@.len(),
            r matches Some(v) ==> v == le_u32(old(self).data@, old(self).pos as int) && final(self).pos == old(self).pos + 4,
    {
        if !self.available(4) {
            return None;
        }
        let start = self.pos;
        let bytes = vstd::slice::slice_subrange(self.data.as_slice(), start, start + 4);
        let v = read_u32_le(bytes);
        self.pos = start + 4;
        Some(v)
    }

    pub fn i32(&mut self) -> (r: Option<i32>)
        ensures
            final(self).data == old(self).data,
            r is Some <==> old(self).pos + 4 <= old(self).data@.len(),
            r matches Some(v) ==> v == le_i32(old(self).data@, old(self).pos as int) && final(self).pos == old(self).pos + 4,
    {
        if !self.available(4) {
            return None;
        }
        let start = self.pos;
        let bytes = vstd::slice::slice_subrange(self.data.as_slice(), start, start + 4);
        let v = read_i32_le(bytes);
        self.pos = start + 4;
        Some(v)
    }

    /// An `f32`, as its bit pattern.
    pub fn f32_bits(&mut self) -> (r: Option<u32>)
        ensures
            final(self).data == old(self).data,
            r is Some <==> old(self).pos + 4 <= old(self).data@.len(),
            r matches Some(v) ==> v == le_u32(old(self).data@, old(self).pos as int) && final(self).pos == old(self).pos + 4,
    {
        self.u32()
    }

    /// `n` consecutive little-endian `u32`s (or `f32` bit patterns).
    pub fn u32s(&mut self, n: usize) -> (r: Option<Vec<u32>>)
        ensures
            final(self).data == old(self).data,
            r is Some <==> can_read(old(self).data@, old(self).pos as int, 4 * n),
            r matches Some(v) ==> v@ == u32s_at(old(self).data@, old(self).pos as int, n as int)
                && final(self).pos == old(self).pos + 4 * n,
    {
        let ghost s = self.data@;
        let ghost start = self.pos as int;
        let mut out: Vec<u32> = Vec::new();
        let mut i: usize = 0;
        while i < n
            invariant
                self.data == old(self).data,
                s == self.data@,
                start == old(self).pos,
                i <= n,
                i > 0 ==> self.pos <= s.len(),
                self.pos == start + 4 * i,
                out@ =~= u32s_at(s, start, i as int),
            decreases n - i,
        {
            let v = self.u32()?;
            out.push(v);
            i = i + 1;
        }
        Some(out)
    }

    pub fn obj_ref(&mut self) -> (r: Option<ObjRef>)
        ensures
            final(self).data == old(self).data,
            r is Some <==> old(self).pos + 4 <= old(self).data@.len(),
            r matches Some(v) ==> v == ObjRef(le_u32(old(self).data@, old(self).pos as int))
                && final(self).pos == old(self).pos + 4,
    {
        let v = self.u32()?;
        Some(ObjRef(v))
    }

    /// `n` consecutive object references.
    pub fn obj_refs(&mut self, n: u32) -> (r: Option<Vec<ObjRef>>)
        ensures
            final(self).data == old(self).data,
            r is Some <==> can_read(old(self).data@, old(self).pos as int, 4 * n),
            r matches Some(v) ==> v@ == obj_refs_at(old(self).data@, old(self).pos as int, n as int)
                && final(self).pos == old(self).pos + 4 * n,
    {
        let ghost s = self.data@;
        let ghost start = self.pos as int;
        let mut out: Vec<ObjRef> = Vec::new();
        let mut i: u32 = 0;
        while i < n
            invariant
                self.data == old(self).data,
                s == self.data@,
                start == old(self).pos,
                i <= n,
                i > 0 ==> self.pos <= s.len(),
                self.pos == start + 4 * i,
                out@ =~= obj_refs_at(s, start, i as int),
            decreases n - i,
        {
            let v = self.obj_ref()?;
            out.push(v);
            i = i + 1;
        }
        Some(out)
    }

    /// A NUL-terminated string (the NUL is consumed), decoded lossily as UTF-8; `None`
    /// when no NUL follows the position.
    pub fn string(&mut self) -> (r: Option<String>)
        ensures
            final(self).data == old(self).data,
            r is Some <==> first_nul(old(self).data@, old(self).pos as int) is Some,
            r matches Some(st) ==> {
                let nul = first_nul(old(self).data@, old(self).pos as int)->0;
                &&& st@ == utf8_lossy(old(self).data@.subrange(old(self).pos as int, nul))
                &&& final(self).pos == nul + 1
            },
    {
        let ghost s = self.data@;
        let start = self.pos;
        let len = self.data.len();
        while self.pos < len && self.data[self.pos] != 0
            invariant
                self.data == old(self).data,
                s == self.data@,
                len == s.len(),
                start == old(self).pos,
                start <= self.pos,
                first_nul(s, start as int) == first_nul(s, self.pos as int),
            decreases len - self.pos,
        {
            self.pos = self.pos + 1;
        }
        if self.pos >= len {
            return None;
        }
        let end = self.pos;
        let st = lossy_string(vstd::slice::slice_subrange(self.data.as_slice(), start, end));
        self.pos = end + 1;
        Some(st)
    }
}

}
