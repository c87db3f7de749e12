use vstd::prelude::*;
use crate::error::VmError;

verus! {

/// The big-endian unsigned integer of two bytes.
pub open spec fn be_u16(hi: u8, lo: u8) -> u16 {
    (hi as int * 0x100 + lo as int) as u16
}

/// The big-endian unsigned integer of four bytes.
pub open spec fn be_u32(b0: u8, b1: u8, b2: u8, b3: u8) -> u32 {
    (b0 as int * 0x1000000 + b1 as int * 0x10000 + b2 as int * 0x100 + b3 as int) as u32
}

/// The two bytes of `s` at `pos`, read as a big-endian `u16`.
pub open spec fn u16_at(s: Seq<u8>, pos: int) -> u16 {
    be_u16(s[pos], s[pos + 1])
}

/// The four bytes of `s` at `pos`, read as a big-endian `u32`.
pub open spec fn u32_at(s: Seq<u8>, pos: int) -> u32 {
    be_u32(s[pos], s[pos + 1], s[pos + 2], s[pos + 3])
}

/// The big-endian bytes of a `u16`.
pub open spec fn u16_bytes(v: u16) -> Seq<u8> {
    seq![(v / 0x100) as u8, (v % 0x100) as u8]
}

/// The big-endian bytes of a `u32`.
pub open spec fn u32_bytes(v: u32) -> Seq<u8> {
    seq![
        (v / 0x1000000) as u8,
        (v / 0x10000 % 0x100) as u8,
        (v / 0x100 % 0x100) as u8,
        (v % 0x100) as u8,
    ]
}

/// Encoding a `u16` and reading it back gives the same bytes.
pub proof fn lemma_u16_bytes(s: Seq<u8>, pos: int)
    requires
        0 <= pos,
        pos + 2 <= s.len(),
    ensures
        u16_bytes(u16_at(s, pos)) == s.subrange(pos, pos + 2),
{
    let (a, b) = (s[pos], s[pos + 1]);
    assert(u16_bytes(be_u16(a, b)) =~= seq![a, b]) by {
        assert((be_u16(a, b) / 0x100) as u8 == a) by (bit_vector)
            requires be_u16(a, b) == (a as int * 0x100 + b as int) as u16;
        assert((be_u16(a, b) % 0x100) as u8 == b) by (bit_vector)
            requires be_u16(a, b) == (a as int * 0x100 + b as int) as u16;
    }
    assert(s.subrange(pos, pos + 2) =~= seq![a, b]);
}

/// Encoding a `u32` and reading it back gives the same bytes.
pub proof fn lemma_u32_bytes(s: Seq<u8>, pos: int)
    requires
        0 <= pos,
        pos + 4 <= s.len(),
    ensures
        u32_bytes(u32_at(s, pos)) == s.subrange(pos, pos + 4),
{
    let (a, b, c, d) = (s[pos], s[pos + 1], s[pos + 2], s[pos + 3]);
    let v = u32_at(s, pos);
    assert(v == (a as int * 0x1000000 + b as int * 0x10000 + c as int * 0x100 + d as int));
    assert((v / 0x1000000) as u8 == a) by (nonlinear_arith)
        requires v == (a as int * 0x1000000 + b as int * 0x10000 + c as int * 0x100 + d as int),
            a < 256, b < 256, c < 256, d < 256;
    assert((v / 0x10000 % 0x100) as u8 == b) by (nonlinear_arith)
        requires v == (a as int * 0x1000000 + b as int * 0x10000 + c as int * 0x100 + d as int),
            a < 256, b < 256, c < 256, d < 256;
    assert((v / 0x100 % 0x100) as u8 == c) by (nonlinear_arith)
        requires v == (a as int * 0x1000000 + b as int * 0x10000 + c as int * 0x100 + d as int),
            a < 256, b < 256, c < 256, d < 256;
    assert((v % 0x100) as u8 == d) by (nonlinear_arith)
        requires v == (a as int * 0x1000000 + b as int * 0x10000 + c as int * 0x100 + d as int),
            a < 256, b < 256, c < 256, d < 256;
    assert(s.subrange(pos, pos + 4) =~= seq![a, b, c, d]);
    assert(u32_bytes(v) =~= seq![a, b, c, d]);
}

/// Whether `s` holds the bytes `e` at `pos`.
pub open spec fn starts_with(s: Seq<u8>, pos: int, e: Seq<u8>) -> bool {
    0 <= pos && pos + e.len() <= s.len() && s.subrange(pos, pos + e.len()) == e
}

/// Reading back the bytes of a `u16` gives the `u16`.
pub proof fn lemma_u16_read_back(s: Seq<u8>, pos: int, v: u16)
    requires
        starts_with(s, pos, u16_bytes(v)),
    ensures
        u16_at(s, pos) == v,
{
    assert(s[pos] == s.subrange(pos, pos + 2)[0]);
    assert(s[pos + 1] == s.subrange(pos, pos + 2)[1]);
    let (a, b) = ((v / 0x100) as u8, (v % 0x100) as u8);
    assert(be_u16(a, b) == v) by (bit_vector)
        requires a == (v / 0x100) as u8, b == (v % 0x100) as u8, be_u16(a, b) == (a as int * 0x100 + b as int) as u16;
}

/// Reading back the bytes of a `u32` gives the `u32`.
pub proof fn lemma_u32_read_back(s: Seq<u8>, pos: int, v: u32)
    requires
        starts_with(s, pos, u32_bytes(v)),
    ensures
        u32_at(s, pos) == v,
{
    let e = u32_bytes(v);
    assert(s[pos] == s.subrange(pos, pos + 4)[0]);
    assert(s[pos + 1] == s.subrange(pos, pos + 4)[1]);
    assert(s[pos + 2] == s.subrange(pos, pos + 4)[2]);
    assert(s[pos + 3] == s.subrange(pos, pos + 4)[3]);
    let (a, b, c, d) = ((v / 0x1000000) as u8, (v / 0x10000 % 0x100) as u8, (v / 0x100 % 0x100) as u8, (v % 0x100) as u8);
    assert(a as int * 0x1000000 + b as int * 0x10000 + c as int * 0x100 + d as int == v as int) by (nonlinear_arith)
        requires a == (v / 0x1000000) as u8, b == (v / 0x10000 % 0x100) as u8,
            c == (v / 0x100 % 0x100) as u8, d == (v % 0x100) as u8, v <= 0xffff_ffff;
}

/// A sequential big-endian reader over a byte slice.
pub struct ClassReader<'a> {
    pub bytes: &'a [u8],
    pub pos: usize,
}

impl<'a> ClassReader<'a> {
    /// The bytes that have not been read yet start at `pos`.
    pub open spec fn wf(&self) -> bool {
        self.pos <= self.bytes@.len()
    }

    /// Whether `n` more bytes are available.
    pub open spec fn has(&self, n: int) -> bool {
        self.pos + n <= self.bytes@.len()
    }

    pub fn new(bytes: &'a [u8]) -> (r: ClassReader<'a>)
        ensures
            r.bytes@ == bytes@,
            r.pos == 0,
    {
        ClassReader { bytes, pos: 0 }
    }

    pub fn read_u1(&mut self) -> (r: Result<u8, VmError>)
        requires
            old(self).wf(),
        ensures
            final(self).wf(),
            final(self).bytes@ == old(self).bytes@,
            old(self).has(1) ==> r == Ok::<u8, VmError>(old(self).bytes@[old(self).pos as int])
                && final(self).pos == old(self).pos + 1,
            !old(self).has(1) ==> r == Err::<u8, VmError>(VmError::TruncatedInput(old(self).pos as u64))
                && final(self).pos == old(self).pos,
    {
        if self.pos < self.bytes.len() {
            let b = self.bytes[self.pos];
            self.pos = self.pos + 1;
            Ok(b)
        } else {
            Err(VmError::TruncatedInput(self.pos as u64))
        }
    }

    pub fn read_u2(&mut self) -> (r: Result<u16, VmError>)
        requires
            old(self).wf(),
        ensures
            final(self).wf(),
            final(self).bytes@ == old(self).bytes@,
            old(self).has(2) ==> r == Ok::<u16, VmError>(u16_at(old(self).bytes@, old(self).pos as int))
                && final(self).pos == old(self).pos + 2,
            !old(self).has(2) ==> r == Err::<u16, VmError>(VmError::TruncatedInput(old(self).pos as u64))
                && final(self).pos == old(self).pos,
    {
        if self.bytes.len() - self.pos >= 2 {
            let hi = self.bytes[self.pos] as u16;
            let lo = self.bytes[self.pos + 1] as u16;
            self.pos = self.pos + 2;
            Ok(hi * 0x100 + lo)
        } else {
            Err(VmError::TruncatedInput(self.pos as u64))
        }
    }

    pub fn read_u4(&mut self) -> (r: Result<u32, VmError>)
        requires
            old(self).wf(),
        ensures
            final(self).wf(),
            final(self).bytes@ == old(self).bytes@,
            old(self).has(4) ==> r == Ok::<u32, VmError>(u32_at(old(self).bytes@, old(self).pos as int))
                && final(self).pos == old(self).pos + 4,
            !old(self).has(4) ==> r == Err::<u32, VmError>(VmError::TruncatedInput(old(self).pos as u64))
                && final(self).pos == old(self).pos,
    {
        if self.bytes.len() - self.pos >= 4 {
            let p = self.pos;
            let b0 = self.bytes[p] as u32;
            let b1 = self.bytes[p + 1] as u32;
            let b2 = self.bytes[p + 2] as u32;
            let b3 = self.bytes[p + 3] as u32;
            self.pos = p + 4;
            Ok(b0 * 0x1000000 + b1 * 0x10000 + b2 * 0x100 + b3)
        } else {
            Err(VmError::TruncatedInput(self.pos as u64))
        }
    }

    /// The next `n` bytes, copied out.
    pub fn read_exact(&mut self, n: usize) -> (r: Result<Vec<u8>, VmError>)
        requires
            old(self).wf(),
        ensures
            final(self).wf(),
            final(self).bytes@ == old(self).bytes@,
            old(self).has(n as int) ==> r is Ok
                && r->Ok_0@ == old(self).bytes@.subrange(old(self).pos as int, old(self).pos + n)
                && final(self).pos == old(self).pos + n,
            !old(self).has(n as int) ==> r == Err::<Vec<u8>, VmError>(VmError::TruncatedInput(old(self).pos as u64))
                && final(self).pos == old(self).pos,
    {
        if self.bytes.len() - self.pos >= n {
            let start = self.pos;
            let len = self.bytes.len();
            let mut out: Vec<u8> = Vec::with_capacity(n);
            let mut i: usize = 0;
            while i < n
                invariant
                    self.pos == start,
                    len == self.bytes@.len(),
                    start + n <= self.bytes@.len(),
                    i <= n,
                    out@ == self.bytes@.subrange(start as int, start + i),
                decreases n - i,
            {
                out.push(self.bytes[start + i]);
                i = i + 1;
                assert(out@ =~= self.bytes@.subrange(start as int, start + i));
            }
            self.pos = start + n;
            Ok(out)
        } else {
            Err(VmError::TruncatedInput(self.pos as u64))
        }
    }
}

} // verus!
