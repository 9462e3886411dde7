//! The byte cursor: bounds-checked, alignment-aware reads over a buffer.

use vstd::prelude::*;
use crate::error::{ErrorKind, ErrorKindView, RszError, RszErrorView};

verus! {

/// The least multiple of `alignment` that is at or after `pos`
/// (`pos` itself where `alignment` is 0).
pub open spec fn align_up(pos: int, alignment: int) -> int {
    if alignment > 0 && pos % alignment != 0 {
        pos + (alignment - pos % alignment)
    } else {
        pos
    }
}

/// `align_up` gives a multiple of the alignment, at or after `pos`, and less
/// than one alignment step away from it.
pub proof fn lemma_align_up(pos: int, alignment: int)
    requires
        0 <= pos,
        0 < alignment,
    ensures
        align_up(pos, alignment) % alignment == 0,
        pos <= align_up(pos, alignment) < pos + alignment,
        forall|m: int| pos <= m && #[trigger] (m % alignment) == 0 ==> align_up(pos, alignment) <= m,
{
    let r = pos % alignment;
    let a = align_up(pos, alignment);
    assert(pos == alignment * (pos / alignment) + r) by {
        vstd::arithmetic::div_mod::lemma_fundamental_div_mod(pos, alignment);
    }
    if r != 0 {
        assert(a == alignment * (pos / alignment + 1)) by (nonlinear_arith)
            requires
                a == pos + (alignment - r),
                pos == alignment * (pos / alignment) + r,
        ;
        vstd::arithmetic::div_mod::lemma_mod_multiples_basic(pos / alignment + 1, alignment);
        assert((alignment * (pos / alignment + 1)) % alignment == 0) by {
            vstd::arithmetic::mul::lemma_mul_is_commutative(alignment, pos / alignment + 1);
        }
    }
    assert forall|m: int| pos <= m && #[trigger] (m % alignment) == 0 implies a <= m by {
        if m < a {
            // Two multiples of the alignment lie a full step apart, but `a` is
            // less than a step behind `pos`.
            vstd::arithmetic::div_mod::lemma_fundamental_div_mod(m, alignment);
            vstd::arithmetic::div_mod::lemma_fundamental_div_mod(a, alignment);
            let qm = m / alignment;
            let qa = a / alignment;
            assert(m == alignment * qm);
            assert(a == alignment * qa);
            assert(qm < qa) by (nonlinear_arith)
                requires
                    alignment * qm < alignment * qa,
                    alignment > 0,
            ;
            assert(alignment * qa - alignment * qm >= alignment) by (nonlinear_arith)
                requires
                    qm < qa,
                    alignment > 0,
            ;
            assert(r != 0);
            assert(pos > alignment * (pos / alignment));
            assert(a - alignment < pos);
            assert(false);
        }
    }
}

/// The unsigned value of `bytes` read least significant byte first.
pub open spec fn le_value(bytes: Seq<u8>) -> nat
    decreases bytes.len(),
{
    if bytes.len() == 0 {
        0
    } else {
        bytes[0] as nat + 256 * le_value(bytes.skip(1))
    }
}

/// `2^bits`, for the widths that occur.
pub open spec fn two_to(bits: nat) -> nat {
    if bits == 8 {
        0x100
    } else if bits == 16 {
        0x1_0000
    } else if bits == 32 {
        0x1_0000_0000
    } else {
        0x1_0000_0000_0000_0000
    }
}

/// The two's complement reading of the unsigned value `v` at `bits` bits.
pub open spec fn as_signed(v: nat, bits: nat) -> int {
    if 2 * v >= two_to(bits) {
        v - two_to(bits)
    } else {
        v as int
    }
}

/// `le_value` of one to eight bytes, written out.
pub proof fn lemma_le_value_unfold(s: Seq<u8>)
    ensures
        s.len() == 1 ==> le_value(s) == s[0],
        s.len() == 2 ==> le_value(s) == s[0] + 0x100 * s[1],
        s.len() == 4 ==> le_value(s) == s[0] + 0x100 * s[1] + 0x1_0000 * s[2] + 0x100_0000 * s[3],
        s.len() == 8 ==> le_value(s) == s[0] + 0x100 * s[1] + 0x1_0000 * s[2] + 0x100_0000 * s[3]
            + 0x1_0000_0000 * s[4] + 0x100_0000_0000 * s[5] + 0x1_0000_0000_0000 * s[6]
            + 0x100_0000_0000_0000 * s[7],
{
    let s1 = s.skip(1);
    let s2 = s1.skip(1);
    let s3 = s2.skip(1);
    let s4 = s3.skip(1);
    let s5 = s4.skip(1);
    let s6 = s5.skip(1);
    let s7 = s6.skip(1);
    let s8 = s7.skip(1);
    if s.len() >= 1 {
        assert(le_value(s) == s[0] + 256 * le_value(s1));
        if s.len() == 1 {
            assert(le_value(s1) == 0);
        }
    }
    if s.len() >= 2 {
        assert(le_value(s1) == s1[0] + 256 * le_value(s2));
        if s.len() == 2 {
            assert(le_value(s2) == 0);
        }
    }
    if s.len() >= 4 {
        assert(le_value(s2) == s2[0] + 256 * le_value(s3));
        assert(le_value(s3) == s3[0] + 256 * le_value(s4));
        if s.len() == 4 {
            assert(le_value(s4) == 0);
        }
    }
    if s.len() == 8 {
        assert(le_value(s4) == s4[0] + 256 * le_value(s5));
        assert(le_value(s5) == s5[0] + 256 * le_value(s6));
        assert(le_value(s6) == s6[0] + 256 * le_value(s7));
        assert(le_value(s7) == s7[0] + 256 * le_value(s8));
        assert(le_value(s8) == 0);
    }
}

/// What an aligned read of `width` bytes does at `pos` in a buffer of `len`
/// bytes: where the value starts, or why the read fails.
pub open spec fn read_start(len: int, pos: int, alignment: int, width: int) -> Result<
    int,
    ErrorKindView,
> {
    if (alignment == 0 && pos != 0) || align_up(pos, alignment) > u64::MAX {
        Err(ErrorKindView::AlignmentOverflow)
    } else if align_up(pos, alignment) + width > len {
        Err(ErrorKindView::UnexpectedEof)
    } else {
        Ok(align_up(pos, alignment))
    }
}

/// An aligned little-endian read of `width` bytes at `pos`: the unsigned
/// value and the offset behind it, or why the read fails.
pub open spec fn read_uint(bytes: Seq<u8>, pos: int, width: int) -> Result<(nat, int), ErrorKindView> {
    match read_start(bytes.len() as int, pos, width, width) {
        Ok(start) => Ok((le_value(bytes.subrange(start, start + width)), start + width)),
        Err(kind) => Err(kind),
    }
}

/// As `read_uint`, with the value read as two's complement.
pub open spec fn read_int(bytes: Seq<u8>, pos: int, width: int) -> Result<(int, int), ErrorKindView> {
    match read_uint(bytes, pos, width) {
        Ok((v, next)) => Ok((as_signed(v, (8 * width) as nat), next)),
        Err(kind) => Err(kind),
    }
}

/// An unaligned read of `count` raw bytes at `pos`.
pub open spec fn read_bytes(bytes: Seq<u8>, pos: int, count: int) -> Result<(Seq<u8>, int), ErrorKindView> {
    match read_start(bytes.len() as int, pos, 1, count) {
        Ok(start) => Ok((bytes.subrange(start, start + count), start + count)),
        Err(kind) => Err(kind),
    }
}

/// A read position over an immutable byte buffer.
pub struct ByteCursor {
    data: Vec<u8>,
    pos: usize,
}

impl ByteCursor {
    #[verifier::type_invariant]
    spec fn inv(self) -> bool {
        self.pos <= self.data.len()
    }

    /// The buffer the cursor reads from.
    pub closed spec fn bytes(&self) -> Seq<u8> {
        self.data@
    }

    /// The current byte offset.
    pub closed spec fn offset(&self) -> int {
        self.pos as int
    }

    /// An offset is never negative.
    pub proof fn lemma_offset_natural(&self)
        ensures
            self.offset() >= 0,
    {
    }

    /// A cursor at the start of `data`.
    pub fn new(data: Vec<u8>) -> (c: ByteCursor)
        ensures
            c.bytes() == data@,
            c.offset() == 0,
    {
        ByteCursor { data, pos: 0 }
    }

    /// The current byte offset, which never exceeds the buffer length.
    pub fn position(&self) -> (p: usize)
        ensures
            p == self.offset(),
            p <= self.bytes().len(),
    {
        proof {
            use_type_invariant(self);
        }
        self.pos
    }

    /// The length of the buffer.
    pub fn len(&self) -> (n: usize)
        ensures
            n == self.bytes().len(),
    {
        self.data.len()
    }

    /// Where an aligned read of `width` bytes would start, without moving.
    fn locate(&self, alignment: u64, width: usize) -> (r: Result<usize, RszError>)
        ensures
            match r {
                Ok(start) => read_start(
                    self.bytes().len() as int,
                    self.offset(),
                    alignment as int,
                    width as int,
                ) == Ok::<int, ErrorKindView>(start as int),
                Err(e) => e@ == RszErrorView::bare(e@.kind) && read_start(
                    self.bytes().len() as int,
                    self.offset(),
                    alignment as int,
                    width as int,
                ) == Err::<int, ErrorKindView>(e@.kind),
            },
    {
        proof {
            use_type_invariant(self);
        }
        let pos: u64 = self.pos as u64;
        let len: u64 = self.data.len() as u64;
        let mut aligned: u64 = pos;
        if alignment == 0 {
            if pos != 0 {
                return Err(RszError::new(ErrorKind::AlignmentOverflow));
            }
        } else {
            let rem: u64 = pos % alignment;
            if rem != 0 {
                match pos.checked_add(alignment - rem) {
                    Some(a) => {
                        aligned = a;
                    },
                    None => {
                        return Err(RszError::new(ErrorKind::AlignmentOverflow));
                    },
                }
            }
        }
        if aligned > len || width as u64 > len - aligned {
            return Err(RszError::new(ErrorKind::UnexpectedEof));
        }
        Ok(aligned as usize)
    }

    /// Moves to the absolute offset `pos`; fails with `UnexpectedEof`, and
    /// stays put, where `pos` lies beyond the end of the buffer.
    pub fn seek(&mut self, pos: usize) -> (r: Result<(), RszError>)
        ensures
            final(self).bytes() == old(self).bytes(),
            match r {
                Ok(_) => pos <= old(self).bytes().len() && final(self).offset() == pos,
                Err(e) => pos > old(self).bytes().len() && final(self).offset() == old(
                    self,
                ).offset() && e@ == RszErrorView::bare(ErrorKindView::UnexpectedEof),
            },
    {
        if pos > self.data.len() {
            return Err(RszError::new(ErrorKind::UnexpectedEof));
        }
        self.pos = pos;
        Ok(())
    }

    /// Skips padding up to the next multiple of `alignment`. On failure the
    /// cursor does not move: `AlignmentOverflow` where no such multiple fits
    /// in 64 bits, `UnexpectedEof` where it lies beyond the buffer.
    pub fn seek_align_up(&mut self, alignment: u64) -> (r: Result<(), RszError>)
        ensures
            final(self).bytes() == old(self).bytes(),
            match r {
                Ok(_) => read_start(
                    old(self).bytes().len() as int,
                    old(self).offset(),
                    alignment as int,
                    0,
                ) == Ok::<int, ErrorKindView>(final(self).offset()),
                Err(e) => final(self).offset() == old(self).offset() && e@ == RszErrorView::bare(
                    e@.kind,
                ) && read_start(
                    old(self).bytes().len() as int,
                    old(self).offset(),
                    alignment as int,
                    0,
                ) == Err::<int, ErrorKindView>(e@.kind),
            },
    {
        let start = self.locate(alignment, 0)?;
        self.pos = start;
        Ok(())
    }

    /// Reads `count` raw bytes, without alignment.
    pub fn read_exact(&mut self, count: usize) -> (r: Result<Vec<u8>, RszError>)
        ensures
            final(self).bytes() == old(self).bytes(),
            match r {
                Ok(v) => read_bytes(old(self).bytes(), old(self).offset(), count as int) == Ok::<
                    (Seq<u8>, int),
                    ErrorKindView,
                >((v@, final(self).offset())),
                Err(e) => final(self).offset() == old(self).offset() && e@ == RszErrorView::bare(
                    e@.kind,
                ) && read_bytes(old(self).bytes(), old(self).offset(), count as int) == Err::<
                    (Seq<u8>, int),
                    ErrorKindView,
                >(e@.kind),
            },
    {
        let start = self.locate(1, count)?;
        let mut out: Vec<u8> = Vec::new();
        let mut i: usize = 0;
        while i < count
            invariant
                i <= count,
                start + count <= self.data.len(),
                out@ == self.data@.subrange(start as int, start + i),
            decreases count - i,
        {
            out.push(self.data[start + i]);
            assert(out@ =~= self.data@.subrange(start as int, start + i + 1));
            i += 1;
        }
        self.pos = start + count;
        Ok(out)
    }

    /// Reads one unsigned byte.
    pub fn read_u8(&mut self) -> (r: Result<u8, RszError>)
        ensures
            final(self).bytes() == old(self).bytes(),
            match r {
                Ok(v) => read_uint(old(self).bytes(), old(self).offset(), 1) == Ok::<
                    (nat, int),
                    ErrorKindView,
                >((v as nat, final(self).offset())),
                Err(e) => final(self).offset() == old(self).offset() && e@ == RszErrorView::bare(
                    e@.kind,
                ) && read_uint(old(self).bytes(), old(self).offset(), 1) == Err::<
                    (nat, int),
                    ErrorKindView,
                >(e@.kind),
            },
    {
        let start = self.locate(1, 1)?;
        assert(start + 1 <= self.data.len());
        proof {
            lemma_le_value_unfold(self.data@.subrange(start as int, start + 1));
        }
        let v = self.data[start];
        self.pos = start + 1;
        Ok(v)
    }

    /// Reads an unsigned 16-bit integer at the next even offset.
    pub fn read_u16(&mut self) -> (r: Result<u16, RszError>)
        ensures
            final(self).bytes() == old(self).bytes(),
            match r {
                Ok(v) => read_uint(old(self).bytes(), old(self).offset(), 2) == Ok::<
                    (nat, int),
                    ErrorKindView,
                >((v as nat, final(self).offset())),
                Err(e) => final(self).offset() == old(self).offset() && e@ == RszErrorView::bare(
                    e@.kind,
                ) && read_uint(old(self).bytes(), old(self).offset(), 2) == Err::<
                    (nat, int),
                    ErrorKindView,
                >(e@.kind),
            },
    {
        let start = self.locate(2, 2)?;
        assert(start + 2 <= self.data.len());
        proof {
            lemma_le_value_unfold(self.data@.subrange(start as int, start + 2));
        }
        let b0 = self.data[start] as u16;
        let b1 = self.data[start + 1] as u16;
        self.pos = start + 2;
        Ok(b0 + 0x100 * b1)
    }

    /// Reads an unsigned 32-bit integer at the next multiple of 4.
    pub fn read_u32(&mut self) -> (r: Result<u32, RszError>)
        ensures
            final(self).bytes() == old(self).bytes(),
            match r {
                Ok(v) => read_uint(old(self).bytes(), old(self).offset(), 4) == Ok::<
                    (nat, int),
                    ErrorKindView,
                >((v as nat, final(self).offset())),
                Err(e) => final(self).offset() == old(self).offset() && e@ == RszErrorView::bare(
                    e@.kind,
                ) && read_uint(old(self).bytes(), old(self).offset(), 4) == Err::<
                    (nat, int),
                    ErrorKindView,
                >(e@.kind),
            },
    {
        let start = self.locate(4, 4)?;
        assert(start + 4 <= self.data.len());
        proof {
            lemma_le_value_unfold(self.data@.subrange(start as int, start + 4));
        }
        let b0 = self.data[start] as u32;
        let b1 = self.data[start + 1] as u32;
        let b2 = self.data[start + 2] as u32;
        let b3 = self.data[start + 3] as u32;
        self.pos = start + 4;
        Ok(b0 + 0x100 * b1 + 0x1_0000 * b2 + 0x100_0000 * b3)
    }

    /// Reads an unsigned 64-bit integer at the next multiple of 8.
    pub fn read_u64(&mut self) -> (r: Result<u64, RszError>)
        ensures
            final(self).bytes() == old(self).bytes(),
            match r {
                Ok(v) => read_uint(old(self).bytes(), old(self).offset(), 8) == Ok::<
                    (nat, int),
                    ErrorKindView,
                >((v as nat, final(self).offset())),
                Err(e) => final(self).offset() == old(self).offset() && e@ == RszErrorView::bare(
                    e@.kind,
                ) && read_uint(old(self).bytes(), old(self).offset(), 8) == Err::<
                    (nat, int),
                    ErrorKindView,
                >(e@.kind),
            },
    {
        let start = self.locate(8, 8)?;
        assert(start + 8 <= self.data.len());
        proof {
            lemma_le_value_unfold(self.data@.subrange(start as int, start + 8));
        }
        let b0 = self.data[start] as u64;
        let b1 = self.data[start + 1] as u64;
        let b2 = self.data[start + 2] as u64;
        let b3 = self.data[start + 3] as u64;
        let b4 = self.data[start + 4] as u64;
        let b5 = self.data[start + 5] as u64;
        let b6 = self.data[start + 6] as u64;
        let b7 = self.data[start + 7] as u64;
        self.pos = start + 8;
        Ok(
            b0 + 0x100 * b1 + 0x1_0000 * b2 + 0x100_0000 * b3 + 0x1_0000_0000 * b4
                + 0x100_0000_0000 * b5 + 0x1_0000_0000_0000 * b6 + 0x100_0000_0000_0000 * b7,
        )
    }

    /// Reads one signed byte.
    pub fn read_i8(&mut self) -> (r: Result<i8, RszError>)
        ensures
            final(self).bytes() == old(self).bytes(),
            match r {
                Ok(v) => read_int(old(self).bytes(), old(self).offset(), 1) == Ok::<
                    (int, int),
                    ErrorKindView,
                >((v as int, final(self).offset())),
                Err(e) => final(self).offset() == old(self).offset() && e@ == RszErrorView::bare(
                    e@.kind,
                ) && read_int(old(self).bytes(), old(self).offset(), 1) == Err::<
                    (int, int),
                    ErrorKindView,
                >(e@.kind),
            },
    {
        let v = self.read_u8()?;
        if v < 0x80 {
            Ok(v as i8)
        } else {
            Ok((v - 0x80) as i8 + i8::MIN)
        }
    }

    /// Reads a signed 16-bit integer at the next even offset.
    pub fn read_i16(&mut self) -> (r: Result<i16, RszError>)
        ensures
            final(self).bytes() == old(self).bytes(),
            match r {
                Ok(v) => read_int(old(self).bytes(), old(self).offset(), 2) == Ok::<
                    (int, int),
                    ErrorKindView,
                >((v as int, final(self).offset())),
                Err(e) => final(self).offset() == old(self).offset() && e@ == RszErrorView::bare(
                    e@.kind,
                ) && read_int(old(self).bytes(), old(self).offset(), 2) == Err::<
                    (int, int),
                    ErrorKindView,
                >(e@.kind),
            },
    {
        let v = self.read_u16()?;
        if v < 0x8000 {
            Ok(v as i16)
        } else {
            Ok((v - 0x8000) as i16 + i16::MIN)
        }
    }

    /// Reads a signed 32-bit integer at the next multiple of 4.
    pub fn read_i32(&mut self) -> (r: Result<i32, RszError>)
        ensures
            final(self).bytes() == old(self).bytes(),
            match r {
                Ok(v) => read_int(old(self).bytes(), old(self).offset(), 4) == Ok::<
                    (int, int),
                    ErrorKindView,
                >((v as int, final(self).offset())),
                Err(e) => final(self).offset() == old(self).offset() && e@ == RszErrorView::bare(
                    e@.kind,
                ) && read_int(old(self).bytes(), old(self).offset(), 4) == Err::<
                    (int, int),
                    ErrorKindView,
                >(e@.kind),
            },
    {
        let v = self.read_u32()?;
        if v < 0x8000_0000 {
            Ok(v as i32)
        } else {
            Ok((v - 0x8000_0000) as i32 + i32::MIN)
        }
    }

    /// Reads a signed 64-bit integer at the next multiple of 8.
    pub fn read_i64(&mut self) -> (r: Result<i64, RszError>)
        ensures
            final(self).bytes() == old(self).bytes(),
            match r {
                Ok(v) => read_int(old(self).bytes(), old(self).offset(), 8) == Ok::<
                    (int, int),
                    ErrorKindView,
                >((v as int, final(self).offset())),
                Err(e) => final(self).offset() == old(self).offset() && e@ == RszErrorView::bare(
                    e@.kind,
                ) && read_int(old(self).bytes(), old(self).offset(), 8) == Err::<
                    (int, int),
                    ErrorKindView,
                >(e@.kind),
            },
    {
        let v = self.read_u64()?;
        if v < 0x8000_0000_0000_0000 {
            Ok(v as i64)
        } else {
            Ok((v - 0x8000_0000_0000_0000) as i64 + i64::MIN)
        }
    }

    /// Reads the bit pattern of a 32-bit float at the next multiple of 4.
    pub fn read_f32(&mut self) -> (r: Result<u32, RszError>)
        ensures
            final(self).bytes() == old(self).bytes(),
            match r {
                Ok(v) => read_uint(old(self).bytes(), old(self).offset(), 4) == Ok::<
                    (nat, int),
                    ErrorKindView,
                >((v as nat, final(self).offset())),
                Err(e) => final(self).offset() == old(self).offset() && e@ == RszErrorView::bare(
                    e@.kind,
                ) && read_uint(old(self).bytes(), old(self).offset(), 4) == Err::<
                    (nat, int),
                    ErrorKindView,
                >(e@.kind),
            },
    {
        self.read_u32()
    }
}

/// A read that needs a byte the buffer does not have fails with
/// `UnexpectedEof`: where the aligned start fits in 64 bits and the bytes
/// from there on are fewer than the width, nothing else can happen.
pub proof fn lemma_short_buffer_is_eof(bytes: Seq<u8>, pos: int, alignment: int, width: int)
    requires
        0 < alignment,
        0 <= pos,
        align_up(pos, alignment) <= u64::MAX,
        align_up(pos, alignment) + width > bytes.len(),
    ensures
        read_start(bytes.len() as int, pos, alignment, width) == Err::<int, ErrorKindView>(
            ErrorKindView::UnexpectedEof,
        ),
        alignment == width ==> read_uint(bytes, pos, width) == Err::<(nat, int), ErrorKindView>(
            ErrorKindView::UnexpectedEof,
        ) && read_int(bytes, pos, width) == Err::<(int, int), ErrorKindView>(
            ErrorKindView::UnexpectedEof,
        ),
        alignment == 1 ==> read_bytes(bytes, pos, width) == Err::<(Seq<u8>, int), ErrorKindView>(
            ErrorKindView::UnexpectedEof,
        ),
{
}

/// Cutting a buffer short of the end of a read that succeeds makes the
/// read fail with `UnexpectedEof`; cutting it at or behind that end
/// changes nothing.
pub proof fn lemma_truncated_read(bytes: Seq<u8>, pos: int, width: int, keep: int)
    requires
        0 <= pos,
        0 <= keep <= bytes.len(),
        0 < width,
        read_uint(bytes, pos, width) is Ok,
    ensures
        keep < read_uint(bytes, pos, width)->Ok_0.1 ==> read_uint(bytes.take(keep), pos, width)
            == Err::<(nat, int), ErrorKindView>(ErrorKindView::UnexpectedEof),
        keep >= read_uint(bytes, pos, width)->Ok_0.1 ==> read_uint(bytes.take(keep), pos, width)
            == read_uint(bytes, pos, width),
{
    let start = align_up(pos, width);
    if keep >= start + width {
        assert(bytes.take(keep).subrange(start, start + width) =~= bytes.subrange(
            start,
            start + width,
        ));
    }
}

/// A byte at offset 0 followed by a 32-bit integer: the integer is read
/// from offset 4, behind three bytes of padding, and the cursor ends at 8.
pub proof fn lemma_byte_then_word(bytes: Seq<u8>)
    requires
        bytes.len() >= 8,
    ensures
        read_uint(bytes, 0, 1) == Ok::<(nat, int), ErrorKindView>((bytes[0] as nat, 1)),
        read_start(bytes.len() as int, 1, 4, 4) == Ok::<int, ErrorKindView>(4),
        read_uint(bytes, 1, 4) == Ok::<(nat, int), ErrorKindView>(
            (le_value(bytes.subrange(4, 8)), 8),
        ),
{
    lemma_le_value_unfold(bytes.subrange(0, 1));
}

} // verus!
