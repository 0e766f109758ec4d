//! The fixed-capacity packet buffer with its cursor.
//!
//! Every byte that comes from or goes to the network passes through
//! [`BytePacketBuffer`]. Its contracts are stated over [`BufferView`], the
//! buffer seen as 512 bytes and a cursor: an access outside the 512 bytes is
//! answered with [`BufferError::EndOfBuffer`] and never performed.

use vstd::prelude::*;
use vstd::slice::slice_subrange;

verus! {

/// Why an operation on a packet buffer was refused.
#[derive(Clone, Copy, Debug, PartialEq, Eq, Structural)]
pub enum BufferError {
    /// A read or write would have touched a byte outside the buffer.
    EndOfBuffer,
    /// A name needed more compression jumps than are allowed.
    JumpLimitExceeded,
    /// A label of a name is longer than a length byte can say.
    LabelTooLong,
}

/// A buffer of 512 bytes with a read/write cursor.
///
/// The cursor may stand anywhere, also beyond the bytes: the accessors then
/// fail.
#[derive(Clone, Debug)]
pub struct BytePacketBuffer {
    pub buf: [u8; 512],
    pub pos: usize,
}

/// What a [`BytePacketBuffer`] holds: its 512 bytes and its cursor.
pub struct BufferView {
    pub bytes: Seq<u8>,
    pub pos: int,
}

/// What a writer tries to put on the wire: the bytes in their order, and
/// the reason for which it gives up behind them, if it does.
pub struct Wire {
    pub bytes: Seq<u8>,
    pub error: Option<BufferError>,
}

impl Wire {
    /// Just `bytes`, with nothing to give up for.
    pub open spec fn of(bytes: Seq<u8>) -> Wire {
        Wire { bytes, error: None }
    }

    /// Giving up at once for `e`.
    pub open spec fn fail(e: BufferError) -> Wire {
        Wire { bytes: Seq::empty(), error: Some(e) }
    }

    /// `self` and `next` after it, unless `self` gives up.
    pub open spec fn followed_by(self, next: Wire) -> Wire {
        if self.error is Some {
            self
        } else {
            Wire { bytes: self.bytes + next.bytes, error: next.error }
        }
    }
}

/// The 16-bit number whose big-endian bytes are `hi`, `lo`.
pub open spec fn u16_of(hi: u8, lo: u8) -> u16 {
    (hi as int * 0x100 + lo as int) as u16
}

/// The 32-bit number whose big-endian bytes are `b0`, `b1`, `b2`, `b3`.
pub open spec fn u32_of(b0: u8, b1: u8, b2: u8, b3: u8) -> u32 {
    (b0 as int * 0x100_0000 + b1 as int * 0x1_0000 + b2 as int * 0x100 + b3 as int) as u32
}

/// The two bytes of `val`, most significant first.
pub open spec fn u16_bytes(val: u16) -> Seq<u8> {
    seq![(val / 0x100) as u8, (val % 0x100) as u8]
}

/// The four bytes of `val`, most significant first.
pub open spec fn u32_bytes(val: u32) -> Seq<u8> {
    seq![
        (val / 0x100_0000) as u8,
        (val / 0x1_0000 % 0x100) as u8,
        (val / 0x100 % 0x100) as u8,
        (val % 0x100) as u8,
    ]
}

impl BufferView {
    /// A buffer of zeros with the cursor at the start.
    pub open spec fn blank() -> BufferView {
        BufferView { bytes: Seq::new(512, |i: int| 0u8), pos: 0 }
    }

    /// The bytes before the cursor, as far as the buffer holds them.
    pub open spec fn filled(self) -> Seq<u8> {
        self.bytes.take(if self.pos <= 512 {
            self.pos
        } else {
            512
        })
    }

    /// Whether `n` bytes can be read or written one after the other from the
    /// cursor on.
    pub open spec fn fits(self, n: nat) -> bool {
        n == 0 || self.pos + n <= 512
    }

    /// The view after `n` single-byte accesses were tried one after the
    /// other: the cursor moves past those that succeeded.
    pub open spec fn advance(self, n: nat) -> BufferView {
        BufferView {
            bytes: self.bytes,
            pos: if self.pos >= 512 {
                self.pos
            } else if self.pos + n <= 512 {
                self.pos + n
            } else {
                512
            },
        }
    }

    /// The view with the cursor at `pos`.
    pub open spec fn at(self, pos: int) -> BufferView {
        BufferView { bytes: self.bytes, pos }
    }

    /// The view after `data` was written byte by byte from the cursor on:
    /// what fits is stored, and the cursor stands behind it.
    pub open spec fn write(self, data: Seq<u8>) -> BufferView {
        BufferView {
            bytes: Seq::new(
                512,
                |i: int|
                    if self.pos <= i < self.pos + data.len() {
                        data[i - self.pos]
                    } else {
                        self.bytes[i]
                    },
            ),
            pos: self.advance(data.len()).pos,
        }
    }

    /// The view after a writer tried `w`.
    pub open spec fn emit(self, w: Wire) -> BufferView {
        self.write(w.bytes)
    }

    /// What a writer that tries `w` returns: the end of the buffer comes
    /// before the writer's own reason to give up.
    pub open spec fn outcome(self, w: Wire) -> Result<(), BufferError> {
        if !self.fits(w.bytes.len()) {
            Err(BufferError::EndOfBuffer)
        } else {
            match w.error {
                Some(e) => Err(e),
                None => Ok(()),
            }
        }
    }

    /// The big-endian 16-bit number at `i`.
    pub open spec fn u16_at(self, i: int) -> u16 {
        u16_of(self.bytes[i], self.bytes[i + 1])
    }

    /// The big-endian 32-bit number at `i`.
    pub open spec fn u32_at(self, i: int) -> u32 {
        u32_of(self.bytes[i], self.bytes[i + 1], self.bytes[i + 2], self.bytes[i + 3])
    }
}

impl View for BytePacketBuffer {
    type V = BufferView;

    open spec fn view(&self) -> BufferView {
        BufferView { bytes: self.buf@, pos: self.pos as int }
    }
}

/// Writing nothing changes nothing.
pub proof fn lemma_write_empty(v: BufferView)
    requires
        v.bytes.len() == 512,
    ensures
        v.write(Seq::empty()) == v,
{
    assert(v.write(Seq::empty()).bytes =~= v.bytes);
}

/// Writing `a` and then `b` is writing `a + b`; once `a` did not fit, `b`
/// changes nothing more.
pub proof fn lemma_write_concat(v: BufferView, a: Seq<u8>, b: Seq<u8>)
    requires
        v.bytes.len() == 512,
        0 <= v.pos,
    ensures
        v.write(a).write(b) == v.write(a + b),
        v.fits((a + b).len()) <==> v.fits(a.len()) && v.write(a).fits(b.len()),
        !v.fits(a.len()) ==> v.write(a + b) == v.write(a),
{
    assert(v.write(a).write(b).bytes =~= v.write(a + b).bytes);
    if !v.fits(a.len()) {
        assert(v.write(a + b).bytes =~= v.write(a).bytes);
    }
}

/// A writer that tries `first` and then `next` goes on to `next` exactly
/// when `first` went well.
pub proof fn lemma_followed_by(v: BufferView, first: Wire, next: Wire)
    requires
        v.bytes.len() == 512,
        0 <= v.pos,
    ensures
        v.emit(first.followed_by(next)) == if v.outcome(first) is Ok {
            v.emit(first).emit(next)
        } else {
            v.emit(first)
        },
        v.outcome(first.followed_by(next)) == if v.outcome(first) is Ok {
            v.emit(first).outcome(next)
        } else {
            v.outcome(first)
        },
        v.emit(first).bytes.len() == 512,
        0 <= v.emit(first).pos,
{
    lemma_write_concat(v, first.bytes, next.bytes);
}

/// `hi` shifted into the upper byte, joined with `lo`.
pub(crate) proof fn lemma_u16_of(hi: u8, lo: u8)
    ensures
        ((hi as u16) << 8) | (lo as u16) == u16_of(hi, lo),
{
    assert(((hi as u16) << 8) | (lo as u16) == hi as u16 * 0x100 + lo as u16) by (bit_vector);
}

pub(crate) proof fn lemma_u32_of(b0: u8, b1: u8, b2: u8, b3: u8)
    ensures
        ((b0 as u32) << 24) | ((b1 as u32) << 16) | ((b2 as u32) << 8) | ((b3 as u32) << 0)
            == u32_of(b0, b1, b2, b3),
{
    assert(((b0 as u32) << 24) | ((b1 as u32) << 16) | ((b2 as u32) << 8) | ((b3 as u32) << 0)
        == b0 as u32 * 0x100_0000 + b1 as u32 * 0x1_0000 + b2 as u32 * 0x100 + b3 as u32)
        by (bit_vector);
}

impl BytePacketBuffer {
    /// A zeroed buffer with the cursor at the start.
    pub fn new() -> (b: BytePacketBuffer)
        ensures
            b@ == BufferView::blank(),
    {
        let b = BytePacketBuffer { buf: [0;512], pos: 0 };
        assert(b@.bytes =~= BufferView::blank().bytes);
        b
    }

    /// The bytes before the cursor: what has been written into a buffer that
    /// was filled from its start. A cursor beyond the buffer gives all 512.
    pub fn filled(&self) -> (bytes: &[u8])
        ensures
            bytes@ == self@.filled(),
    {
        let end = if self.pos <= 512 {
            self.pos
        } else {
            512
        };
        slice_subrange(self.buf.as_slice(), 0, end)
    }

    /// The cursor.
    pub fn pos(&self) -> (p: usize)
        ensures
            p == self@.pos,
    {
        self.pos
    }

    /// Moves the cursor `steps` bytes on. Fails, and leaves the cursor, only
    /// where the new position is no `usize`.
    pub fn step(&mut self, steps: usize) -> (r: Result<(), BufferError>)
        ensures
            r == if old(self)@.pos + steps <= usize::MAX {
                Ok::<(), BufferError>(())
            } else {
                Err(BufferError::EndOfBuffer)
            },
            final(self)@ == if r is Ok {
                old(self)@.at(old(self)@.pos + steps)
            } else {
                old(self)@
            },
    {
        if steps > usize::MAX - self.pos {
            return Err(BufferError::EndOfBuffer);
        }
        self.pos += steps;
        Ok(())
    }

    /// Puts the cursor at `pos`, inside the bytes or not.
    pub fn seek(&mut self, pos: usize) -> (r: Result<(), BufferError>)
        ensures
            r is Ok,
            final(self)@ == old(self)@.at(pos as int),
    {
        self.pos = pos;
        Ok(())
    }

    /// Reads the byte at the cursor and moves the cursor past it.
    pub fn read(&mut self) -> (r: Result<u8, BufferError>)
        ensures
            r == if old(self)@.pos < 512 {
                Ok::<u8, BufferError>(old(self)@.bytes[old(self)@.pos])
            } else {
                Err(BufferError::EndOfBuffer)
            },
            final(self)@ == old(self)@.advance(1),
    {
        if self.pos >= 512 {
            return Err(BufferError::EndOfBuffer);
        }
        let res = self.buf[self.pos];
        self.pos += 1;
        Ok(res)
    }

    /// The byte at `pos`; the cursor stays.
    pub fn get(&self, pos: usize) -> (r: Result<u8, BufferError>)
        ensures
            r == if pos < 512 {
                Ok::<u8, BufferError>(self@.bytes[pos as int])
            } else {
                Err(BufferError::EndOfBuffer)
            },
    {
        if pos >= 512 {
            return Err(BufferError::EndOfBuffer);
        }
        Ok(self.buf[pos])
    }

    /// The `len` bytes from `start` on; the cursor stays. Fails where the
    /// range does not lie inside the buffer.
    pub fn get_range(&self, start: usize, len: usize) -> (r: Result<&[u8], BufferError>)
        ensures
            r is Ok <==> start + len <= 512,
            r matches Ok(range) ==> range@ == self@.bytes.subrange(
                start as int,
                start + len,
            ),
            r matches Err(e) ==> e == BufferError::EndOfBuffer,
    {
        if start > 512 || len > 512 - start {
            return Err(BufferError::EndOfBuffer);
        }
        Ok(slice_subrange(self.buf.as_slice(), start, start + len))
    }

    /// Reads a big-endian 16-bit number, byte by byte.
    pub fn read_u16(&mut self) -> (r: Result<u16, BufferError>)
        ensures
            r == if old(self)@.fits(2) {
                Ok::<u16, BufferError>(old(self)@.u16_at(old(self)@.pos))
            } else {
                Err(BufferError::EndOfBuffer)
            },
            final(self)@ == old(self)@.advance(2),
    {
        let hi = self.read()?;
        let lo = self.read()?;
        proof {
            lemma_u16_of(hi, lo);
        }
        Ok(((hi as u16) << 8) | (lo as u16))
    }

    /// Reads a big-endian 32-bit number, byte by byte.
    pub fn read_u32(&mut self) -> (r: Result<u32, BufferError>)
        ensures
            r == if old(self)@.fits(4) {
                Ok::<u32, BufferError>(old(self)@.u32_at(old(self)@.pos))
            } else {
                Err(BufferError::EndOfBuffer)
            },
            final(self)@ == old(self)@.advance(4),
    {
        let b0 = self.read()?;
        let b1 = self.read()?;
        let b2 = self.read()?;
        let b3 = self.read()?;
        proof {
            lemma_u32_of(b0, b1, b2, b3);
        }
        Ok(((b0 as u32) << 24) | ((b1 as u32) << 16) | ((b2 as u32) << 8) | ((b3 as u32) << 0))
    }

    /// Stores `val` at the cursor and moves the cursor past it.
    pub fn write(&mut self, val: u8) -> (r: Result<(), BufferError>)
        ensures
            r == old(self)@.outcome(Wire::of(seq![val])),
            final(self)@ == old(self)@.emit(Wire::of(seq![val])),
    {
        if self.pos >= 512 {
            assert(self@.write(seq![val]).bytes =~= self@.bytes);
            return Err(BufferError::EndOfBuffer);
        }
        self.buf[self.pos] = val;
        self.pos += 1;
        assert(self@.bytes =~= old(self)@.write(seq![val]).bytes);
        Ok(())
    }

    /// Writes one byte.
    pub fn write_u8(&mut self, val: u8) -> (r: Result<(), BufferError>)
        ensures
            r == old(self)@.outcome(Wire::of(seq![val])),
            final(self)@ == old(self)@.emit(Wire::of(seq![val])),
    {
        self.write(val)?;
        Ok(())
    }

    /// Writes `val` as two bytes, most significant first.
    pub fn write_u16(&mut self, val: u16) -> (r: Result<(), BufferError>)
        ensures
            r == old(self)@.outcome(Wire::of(u16_bytes(val))),
            final(self)@ == old(self)@.emit(Wire::of(u16_bytes(val))),
    {
        let hi = #[verifier::truncate]
        ((val >> 8) as u8);
        let lo = #[verifier::truncate]
        ((val & 0xFF) as u8);
        proof {
            assert((val >> 8) as u8 == val / 0x100 && (val & 0xFF) as u8 == val % 0x100)
                by (bit_vector);
            lemma_write_concat(self@, seq![hi], seq![lo]);
            assert(seq![hi] + seq![lo] =~= u16_bytes(val));
        }
        self.write(hi)?;
        self.write(lo)?;
        Ok(())
    }

    /// Writes `val` as four bytes, most significant first.
    pub fn write_u32(&mut self, val: u32) -> (r: Result<(), BufferError>)
        ensures
            r == old(self)@.outcome(Wire::of(u32_bytes(val))),
            final(self)@ == old(self)@.emit(Wire::of(u32_bytes(val))),
    {
        let b0 = #[verifier::truncate]
        ((val >> 24) as u8);
        let b1 = #[verifier::truncate]
        ((val >> 16) as u8);
        let b2 = #[verifier::truncate]
        ((val >> 8) as u8);
        let b3 = #[verifier::truncate]
        ((val >> 0) as u8);
        proof {
            assert((val >> 24) as u8 == val / 0x100_0000 && (val >> 16) as u8 == val / 0x1_0000
                % 0x100 && (val >> 8) as u8 == val / 0x100 % 0x100 && (val >> 0) as u8 == val
                % 0x100) by (bit_vector);
            let v = self@;
            let r2 = seq![b2] + seq![b3];
            let r1 = seq![b1] + r2;
            lemma_write_concat(v, seq![b0], r1);
            lemma_write_concat(v.write(seq![b0]), seq![b1], r2);
            lemma_write_concat(v.write(seq![b0]).write(seq![b1]), seq![b2], seq![b3]);
            assert(seq![b0] + r1 =~= u32_bytes(val));
        }
        self.write(b0)?;
        self.write(b1)?;
        self.write(b2)?;
        self.write(b3)?;
        Ok(())
    }

    /// Writes the bytes of `data` one after the other.
    pub fn write_all(&mut self, data: &[u8]) -> (r: Result<(), BufferError>)
        ensures
            r == old(self)@.outcome(Wire::of(data@)),
            final(self)@ == old(self)@.emit(Wire::of(data@)),
    {
        let n = data.len();
        let mut i: usize = 0;
        assert(data@.skip(0) =~= data@);
        while i < n
            invariant
                n == data@.len(),
                i <= n,
                self@.bytes.len() == 512,
                old(self)@.emit(Wire::of(data@)) == self@.emit(Wire::of(data@.skip(i as int))),
                old(self)@.outcome(Wire::of(data@)) == self@.outcome(
                    Wire::of(data@.skip(i as int)),
                ),
            decreases n - i,
        {
            proof {
                let head = Wire::of(seq![data@[i as int]]);
                let rest = Wire::of(data@.skip(i + 1));
                assert(head.followed_by(rest).bytes =~= data@.skip(i as int));
                lemma_followed_by(self@, head, rest);
            }
            self.write(data[i])?;
            i += 1;
        }
        proof {
            assert(data@.skip(i as int) =~= Seq::<u8>::empty());
            lemma_write_empty(self@);
        }
        Ok(())
    }
}

} // verus!
