//! The header of a DNS message: twelve bytes.
//!
//! Two bytes of transaction id, two bytes of flags, and four 16-bit counts,
//! one for each section. The first flags byte holds, from the lowest bit up,
//! recursion desired, truncated, authoritative, four bits of opcode and the
//! response bit; the second holds four bits of response code, then checking
//! disabled, authenticated data, the reserved bit and recursion available.

use vstd::prelude::*;
use crate::buffer::{
    BufferError,
    BufferView,
    BytePacketBuffer,
    Wire,
    lemma_followed_by,
    u16_bytes,
    u16_of,
};

verus! {

/// The response code of a message.
#[allow(non_camel_case_types)]
#[derive(Copy, Clone, Debug, PartialEq, Eq, Structural)]
pub enum ResultCode {
    NOERROR,
    FORMERR,
    SERVFAIL,
    NXDOMAIN,
    NOTIMP,
    REFUSED,
}

impl ResultCode {
    /// The code that stands for `num`; a number that names none stands for
    /// `NOERROR`.
    pub open spec fn spec_from_num(num: u8) -> ResultCode {
        match num {
            1 => ResultCode::FORMERR,
            2 => ResultCode::SERVFAIL,
            3 => ResultCode::NXDOMAIN,
            4 => ResultCode::NOTIMP,
            5 => ResultCode::REFUSED,
            _ => ResultCode::NOERROR,
        }
    }

    /// The number of the code.
    pub open spec fn spec_to_num(self) -> u8 {
        match self {
            ResultCode::NOERROR => 0,
            ResultCode::FORMERR => 1,
            ResultCode::SERVFAIL => 2,
            ResultCode::NXDOMAIN => 3,
            ResultCode::NOTIMP => 4,
            ResultCode::REFUSED => 5,
        }
    }

    /// The code that stands for `num`; a number that names none stands for
    /// `NOERROR`.
    pub fn from_num(num: u8) -> (code: ResultCode)
        ensures
            code == ResultCode::spec_from_num(num),
    {
        match num {
            1 => ResultCode::FORMERR,
            2 => ResultCode::SERVFAIL,
            3 => ResultCode::NXDOMAIN,
            4 => ResultCode::NOTIMP,
            5 => ResultCode::REFUSED,
            _ => ResultCode::NOERROR,
        }
    }

    /// The number of the code.
    pub fn to_num(&self) -> (num: u8)
        ensures
            num == self.spec_to_num(),
    {
        match self {
            ResultCode::NOERROR => 0,
            ResultCode::FORMERR => 1,
            ResultCode::SERVFAIL => 2,
            ResultCode::NXDOMAIN => 3,
            ResultCode::NOTIMP => 4,
            ResultCode::REFUSED => 5,
        }
    }
}

/// A response code stands for one number, and that number for the code.
pub proof fn lemma_result_code_numbers(code: ResultCode)
    ensures
        ResultCode::spec_from_num(code.spec_to_num()) == code,
        code.spec_to_num() <= 5,
{
}

/// The header of a message.
#[derive(Copy, Clone, Debug, PartialEq, Eq, Structural)]
pub struct DnsHeader {
    pub id: u16,
    pub recursion_desired: bool,
    pub truncated_message: bool,
    pub authoritative_answer: bool,
    pub opcode: u8,
    pub response: bool,
    pub rescode: ResultCode,
    pub checking_disabled: bool,
    pub authed_data: bool,
    pub z: bool,
    pub recursion_available: bool,
    pub questions: u16,
    pub answers: u16,
    pub authoritative_entries: u16,
    pub resource_entries: u16,
}

/// A flag as a bit.
pub open spec fn bit(flag: bool) -> u8 {
    if flag {
        1
    } else {
        0
    }
}

fn bit_of(flag: bool) -> (b: u8)
    ensures
        b == bit(flag),
{
    if flag {
        1
    } else {
        0
    }
}

/// The first flags byte of `h`.
pub open spec fn flags_hi(h: DnsHeader) -> u8 {
    bit(h.recursion_desired) | (bit(h.truncated_message) << 1) | (bit(h.authoritative_answer)
        << 2) | (h.opcode << 3) | (bit(h.response) << 7)
}

/// The second flags byte of `h`.
pub open spec fn flags_lo(h: DnsHeader) -> u8 {
    h.rescode.spec_to_num() | (bit(h.checking_disabled) << 4) | (bit(h.authed_data) << 5) | (bit(
        h.z,
    ) << 6) | (bit(h.recursion_available) << 7)
}

/// `h` with the flags, the opcode and the response code that the flags
/// bytes `a`, `b` hold.
#[verifier::opaque]
pub open spec fn with_flags(h: DnsHeader, a: u8, b: u8) -> DnsHeader {
    DnsHeader {
        recursion_desired: (a & 0x01) > 0,
        truncated_message: (a & 0x02) > 0,
        authoritative_answer: (a & 0x04) > 0,
        opcode: (a >> 3) & 0x0F,
        response: (a & 0x80) > 0,
        rescode: ResultCode::spec_from_num(b & 0x0F),
        checking_disabled: (b & 0x10) > 0,
        authed_data: (b & 0x20) > 0,
        z: (b & 0x40) > 0,
        recursion_available: (b & 0x80) > 0,
        ..h
    }
}

/// The twelve bytes of `h`.
pub open spec fn header_bytes(h: DnsHeader) -> Seq<u8> {
    u16_bytes(h.id) + seq![flags_hi(h), flags_lo(h)] + u16_bytes(h.questions) + u16_bytes(
        h.answers,
    ) + u16_bytes(h.authoritative_entries) + u16_bytes(h.resource_entries)
}

/// The header that reading at the cursor of `v` makes of `h`. The fields are
/// read in their order on the wire: the id, the two flags bytes, the four
/// counts. A field that lies beyond the buffer keeps what `h` had.
pub open spec fn read_header(v: BufferView, h: DnsHeader) -> DnsHeader {
    let p = v.pos;
    let f = if v.fits(4) {
        with_flags(h, v.bytes[p + 2], v.bytes[p + 3])
    } else {
        h
    };
    DnsHeader {
        id: if v.fits(2) {
            v.u16_at(p)
        } else {
            h.id
        },
        recursion_desired: f.recursion_desired,
        truncated_message: f.truncated_message,
        authoritative_answer: f.authoritative_answer,
        opcode: f.opcode,
        response: f.response,
        rescode: f.rescode,
        checking_disabled: f.checking_disabled,
        authed_data: f.authed_data,
        z: f.z,
        recursion_available: f.recursion_available,
        questions: if v.fits(6) {
            v.u16_at(p + 4)
        } else {
            h.questions
        },
        answers: if v.fits(8) {
            v.u16_at(p + 6)
        } else {
            h.answers
        },
        authoritative_entries: if v.fits(10) {
            v.u16_at(p + 8)
        } else {
            h.authoritative_entries
        },
        resource_entries: if v.fits(12) {
            v.u16_at(p + 10)
        } else {
            h.resource_entries
        },
    }
}

/// What `with_flags` leaves as it was, and that what it sets does not
/// depend on the header it starts from.
proof fn lemma_with_flags_frame(h: DnsHeader, g: DnsHeader, a: u8, b: u8)
    ensures
        with_flags(h, a, b) == (DnsHeader {
            id: h.id,
            questions: h.questions,
            answers: h.answers,
            authoritative_entries: h.authoritative_entries,
            resource_entries: h.resource_entries,
            ..with_flags(g, a, b)
        }),
{
    reveal(with_flags);
}

/// The two bytes of a 16-bit number, taken apart by shifting and masking.
proof fn lemma_split_u16(hi: u8, lo: u8)
    ensures
        (u16_of(hi, lo) >> 8) as u8 == hi,
        (u16_of(hi, lo) & 0xFF) as u8 == lo,
{
    let flags = u16_of(hi, lo);
    assert(flags == hi as u16 * 0x100 + lo as u16 ==> (flags >> 8) as u8 == hi && (flags & 0xFF) as u8
        == lo) by (bit_vector);
}

impl DnsHeader {
    /// The header of an empty query: every field zero or false.
    pub fn new() -> (h: DnsHeader)
        ensures
            h == DnsHeader::empty(),
    {
        DnsHeader {
            id: 0,
            recursion_desired: false,
            truncated_message: false,
            authoritative_answer: false,
            opcode: 0,
            response: false,
            rescode: ResultCode::NOERROR,
            checking_disabled: false,
            authed_data: false,
            z: false,
            recursion_available: false,
            questions: 0,
            answers: 0,
            authoritative_entries: 0,
            resource_entries: 0,
        }
    }

    /// The header with every field zero or false.
    pub open spec fn empty() -> DnsHeader {
        DnsHeader {
            id: 0,
            recursion_desired: false,
            truncated_message: false,
            authoritative_answer: false,
            opcode: 0,
            response: false,
            rescode: ResultCode::NOERROR,
            checking_disabled: false,
            authed_data: false,
            z: false,
            recursion_available: false,
            questions: 0,
            answers: 0,
            authoritative_entries: 0,
            resource_entries: 0,
        }
    }

    /// Takes the flags, the opcode and the response code from the flags
    /// bytes `a`, `b`.
    fn set_flags(&mut self, a: u8, b: u8)
        ensures
            *final(self) == with_flags(*old(self), a, b),
    {
        reveal(with_flags);
        self.recursion_desired = (a & 0x01) > 0;
        self.truncated_message = (a & 0x02) > 0;
        self.authoritative_answer = (a & 0x04) > 0;
        self.opcode = (a >> 3) & 0x0F;
        self.response = (a & 0x80) > 0;
        self.rescode = ResultCode::from_num(b & 0x0F);
        self.checking_disabled = (b & 0x10) > 0;
        self.authed_data = (b & 0x20) > 0;
        self.z = (b & 0x40) > 0;
        self.recursion_available = (b & 0x80) > 0;
    }

    /// Reads the twelve bytes at the cursor into the header.
    pub fn read(&mut self, buffer: &mut BytePacketBuffer) -> (r: Result<(), BufferError>)
        ensures
            r == if old(buffer)@.fits(12) {
                Ok::<(), BufferError>(())
            } else {
                Err(BufferError::EndOfBuffer)
            },
            *final(self) == read_header(old(buffer)@, *old(self)),
            final(buffer)@ == old(buffer)@.advance(12),
    {
        let ghost v = buffer@;
        self.id = buffer.read_u16()?;
        let flags = buffer.read_u16()?;
        let a = #[verifier::truncate]
        ((flags >> 8) as u8);
        let b = #[verifier::truncate]
        ((flags & 0xFF) as u8);
        proof {
            lemma_split_u16(v.bytes[v.pos + 2], v.bytes[v.pos + 3]);
            lemma_with_flags_frame(*self, *old(self), a, b);
        }
        self.set_flags(a, b);
        self.questions = buffer.read_u16()?;
        self.answers = buffer.read_u16()?;
        self.authoritative_entries = buffer.read_u16()?;
        self.resource_entries = buffer.read_u16()?;
        Ok(())
    }

    /// Writes the header as its twelve bytes.
    pub fn write(&self, buffer: &mut BytePacketBuffer) -> (r: Result<(), BufferError>)
        ensures
            r == old(buffer)@.outcome(Wire::of(header_bytes(*self))),
            final(buffer)@ == old(buffer)@.emit(Wire::of(header_bytes(*self))),
    {
        let hi = bit_of(self.recursion_desired) | (bit_of(self.truncated_message) << 1) | (bit_of(
            self.authoritative_answer,
        ) << 2) | (self.opcode << 3) | (bit_of(self.response) << 7);
        let lo = self.rescode.to_num() | (bit_of(self.checking_disabled) << 4) | (bit_of(
            self.authed_data,
        ) << 5) | (bit_of(self.z) << 6) | (bit_of(self.recursion_available) << 7);
        proof {
            let w1 = Wire::of(u16_bytes(self.id));
            let w2 = Wire::of(seq![hi]);
            let w3 = Wire::of(seq![lo]);
            let w4 = Wire::of(u16_bytes(self.questions));
            let w5 = Wire::of(u16_bytes(self.answers));
            let w6 = Wire::of(u16_bytes(self.authoritative_entries));
            let w7 = Wire::of(u16_bytes(self.resource_entries));
            let t6 = w6.followed_by(w7);
            let t5 = w5.followed_by(t6);
            let t4 = w4.followed_by(t5);
            let t3 = w3.followed_by(t4);
            let t2 = w2.followed_by(t3);
            let t1 = w1.followed_by(t2);
            assert(t1.bytes =~= header_bytes(*self));
            let v0 = buffer@;
            lemma_followed_by(v0, w1, t2);
            let v1 = v0.emit(w1);
            lemma_followed_by(v1, w2, t3);
            let v2 = v1.emit(w2);
            lemma_followed_by(v2, w3, t4);
            let v3 = v2.emit(w3);
            lemma_followed_by(v3, w4, t5);
            let v4 = v3.emit(w4);
            lemma_followed_by(v4, w5, t6);
            let v5 = v4.emit(w5);
            lemma_followed_by(v5, w6, w7);
        }
        buffer.write_u16(self.id)?;
        buffer.write_u8(hi)?;
        buffer.write_u8(lo)?;
        buffer.write_u16(self.questions)?;
        buffer.write_u16(self.answers)?;
        buffer.write_u16(self.authoritative_entries)?;
        buffer.write_u16(self.resource_entries)?;
        Ok(())
    }
}

} // verus!
