//! Sequential big-endian reads from a byte source.

use vstd::prelude::*;
use crate::error::DecodeError;

verus! {

/// What decoding from some position of a byte sequence comes to: a value and the position just
/// past it, or an error and the position at which decoding stopped.
pub ghost enum Parse<T> {
    Done { value: T, end: int },
    Failed { error: DecodeError, at: int },
}

/// The byte at `p`.
pub open spec fn spec_u8(s: Seq<u8>, p: int) -> Parse<u8> {
    if 0 <= p && p + 1 <= s.len() {
        Parse::Done { value: s[p], end: p + 1 }
    } else {
        Parse::Failed { error: DecodeError::IoError, at: p }
    }
}

/// The big-endian value of the two bytes at `p`.
pub open spec fn be_u16(s: Seq<u8>, p: int) -> u16 {
    (s[p] * 0x100 + s[p + 1]) as u16
}

/// The big-endian value of the four bytes at `p`.
pub open spec fn be_u32(s: Seq<u8>, p: int) -> u32 {
    (s[p] * 0x100_0000 + s[p + 1] * 0x1_0000 + s[p + 2] * 0x100 + s[p + 3]) as u32
}

/// The 16-bit number at `p`.
pub open spec fn spec_u16(s: Seq<u8>, p: int) -> Parse<u16> {
    if 0 <= p && p + 2 <= s.len() {
        Parse::Done { value: be_u16(s, p), end: p + 2 }
    } else {
        Parse::Failed { error: DecodeError::IoError, at: p }
    }
}

/// The 32-bit number at `p`.
pub open spec fn spec_u32(s: Seq<u8>, p: int) -> Parse<u32> {
    if 0 <= p && p + 4 <= s.len() {
        Parse::Done { value: be_u32(s, p), end: p + 4 }
    } else {
        Parse::Failed { error: DecodeError::IoError, at: p }
    }
}

/// The `n` bytes at `p`.
pub open spec fn spec_bytes(s: Seq<u8>, p: int, n: int) -> Parse<Seq<u8>> {
    if 0 <= p && 0 <= n && p + n <= s.len() {
        Parse::Done { value: s.subrange(p, p + n), end: p + n }
    } else {
        Parse::Failed { error: DecodeError::IoError, at: p }
    }
}

/// A result with its value replaced by the value's view.
pub open spec fn viewed<T: View>(r: Result<T, DecodeError>) -> Result<T::V, DecodeError> {
    match r {
        Ok(v) => Ok(v@),
        Err(e) => Err(e),
    }
}

/// A byte source with a cursor that only moves forward.
pub struct ClassFile {
    bytes: Vec<u8>,
    pos: usize,
}

impl ClassFile {
    #[verifier::type_invariant]
    spec fn in_bounds(self) -> bool {
        self.pos <= self.bytes.len()
    }

    /// The bytes of the source, read or not.
    pub closed spec fn source(&self) -> Seq<u8> {
        self.bytes@
    }

    /// How many bytes have been read.
    pub closed spec fn position(&self) -> int {
        self.pos as int
    }

    /// A read that took this reader from `before` to `self` and returned `got` did what `want`
    /// says: on success the value is returned and the cursor stands past it, on failure the
    /// error is returned and the cursor stands where decoding stopped. The source never
    /// changes, and the cursor never moves back nor leaves the source.
    pub open spec fn follows<T>(
        &self,
        before: &ClassFile,
        got: Result<T, DecodeError>,
        want: Parse<T>,
    ) -> bool {
        &&& self.source() == before.source()
        &&& before.position() <= self.position() <= self.source().len()
        &&& match want {
            Parse::Done { value, end } => got == Ok::<T, DecodeError>(value) && self.position() == end,
            Parse::Failed { error, at } => got == Err::<T, DecodeError>(error) && self.position() == at,
        }
    }

    /// The number of bytes after the cursor.
    pub open spec fn left(&self) -> int {
        self.source().len() - self.position()
    }

    /// A reader at the start of `bytes`.
    pub fn new(bytes: Vec<u8>) -> (r: ClassFile)
        ensures
            r.source() == bytes@,
            r.position() == 0,
    {
        ClassFile { bytes, pos: 0 }
    }

    /// The number of bytes read so far.
    pub fn offset(&self) -> (r: usize)
        ensures
            r == self.position(),
            r <= self.source().len(),
    {
        proof {
            use_type_invariant(self);
        }
        self.pos
    }

    /// The number of bytes not yet read.
    pub fn remaining(&self) -> (r: usize)
        ensures
            r == self.left(),
            self.position() <= self.source().len(),
    {
        proof {
            use_type_invariant(self);
        }
        self.bytes.len() - self.pos
    }

    /// Reads one byte.
    pub fn read_u8(&mut self) -> (r: Result<u8, DecodeError>)
        ensures
            final(self).follows(old(self), r, spec_u8(old(self).source(), old(self).position())),
    {
        proof {
            use_type_invariant(&*self);
        }
        if self.bytes.len() - self.pos < 1 {
            return Err(DecodeError::IoError);
        }
        let b = self.bytes[self.pos];
        self.pos = self.pos + 1;
        Ok(b)
    }

    /// Reads a big-endian 16-bit number.
    pub fn read_u16(&mut self) -> (r: Result<u16, DecodeError>)
        ensures
            final(self).follows(old(self), r, spec_u16(old(self).source(), old(self).position())),
    {
        proof {
            use_type_invariant(&*self);
        }
        if self.bytes.len() - self.pos < 2 {
            return Err(DecodeError::IoError);
        }
        let hi = self.bytes[self.pos] as u16;
        let lo = self.bytes[self.pos + 1] as u16;
        self.pos = self.pos + 2;
        Ok(hi * 0x100 + lo)
    }

    /// Reads a big-endian 32-bit number.
    pub fn read_u32(&mut self) -> (r: Result<u32, DecodeError>)
        ensures
            final(self).follows(old(self), r, spec_u32(old(self).source(), old(self).position())),
    {
        proof {
            use_type_invariant(&*self);
        }
        if self.bytes.len() - self.pos < 4 {
            return Err(DecodeError::IoError);
        }
        let b0 = self.bytes[self.pos] as u32;
        let b1 = self.bytes[self.pos + 1] as u32;
        let b2 = self.bytes[self.pos + 2] as u32;
        let b3 = self.bytes[self.pos + 3] as u32;
        self.pos = self.pos + 4;
        Ok(b0 * 0x100_0000 + b1 * 0x1_0000 + b2 * 0x100 + b3)
    }

    /// Reads the next `n` bytes.
    pub fn read_bytes(&mut self, n: usize) -> (r: Result<Vec<u8>, DecodeError>)
        ensures
            final(self).follows(
                old(self),
                viewed(r),
                spec_bytes(old(self).source(), old(self).position(), n as int),
            ),
    {
        proof {
            use_type_invariant(&*self);
        }
        if self.bytes.len() - self.pos < n {
            return Err(DecodeError::IoError);
        }
        let start = self.pos;
        let mut out: Vec<u8> = Vec::with_capacity(n);
        let mut i: usize = 0;
        while i < n
            invariant
                i <= n,
                start + n <= self.bytes.len(),
                out@ == self.bytes@.subrange(start as int, start + i),
            decreases n - i,
        {
            out.push(self.bytes[start + i]);
            i = i + 1;
        }
        self.pos = start + n;
        Ok(out)
    }
}

} // verus!
