//! Resource records: what the answer, authority and additional sections of
//! a message hold.
//!
//! An address record is read and written in full. A record of any other
//! type is read as its name, type, time to live and declared length, its
//! data passed over; on writing it is left out.

use vstd::prelude::*;
use vstd::utf8::encode_utf8;
use crate::buffer::{
    BufferError,
    BufferView,
    BytePacketBuffer,
    Wire,
    lemma_followed_by,
    lemma_write_empty,
    u16_bytes,
    u32_bytes,
    u32_of,
};
use crate::name::name_wire;
use crate::question::{CLASS_IN, QueryType};

verus! {

/// An IPv4 address: four octets, in the order in which they are written.
#[derive(Debug, Clone, Copy, PartialEq, Eq, Hash, PartialOrd, Ord, Structural)]
pub struct Ipv4Addr {
    pub first: u8,
    pub second: u8,
    pub third: u8,
    pub fourth: u8,
}

impl Ipv4Addr {
    /// The address `a.b.c.d`.
    pub fn new(a: u8, b: u8, c: u8, d: u8) -> (addr: Ipv4Addr)
        ensures
            addr == (Ipv4Addr { first: a, second: b, third: c, fourth: d }),
    {
        Ipv4Addr { first: a, second: b, third: c, fourth: d }
    }

    /// The four octets of the address.
    pub open spec fn spec_octets(self) -> Seq<u8> {
        seq![self.first, self.second, self.third, self.fourth]
    }

    /// The four octets of the address.
    pub fn octets(&self) -> (o: [u8; 4])
        ensures
            o@ == self.spec_octets(),
    {
        let o = [self.first, self.second, self.third, self.fourth];
        o
    }
}

/// A resource record.
#[derive(Debug, Clone, PartialEq, Eq, Hash, PartialOrd, Ord)]
pub enum DnsRecord {
    /// A record of a type that is not taken apart.
    Unknown { domain: String, qtype: u16, data_len: u16, ttl: u32 },
    /// An address record.
    A { domain: String, addr: Ipv4Addr, ttl: u32 },
}

/// What a resource record holds.
pub enum RecordView {
    Unknown { domain: Seq<char>, qtype: u16, data_len: u16, ttl: u32 },
    A { domain: Seq<char>, addr: Ipv4Addr, ttl: u32 },
}

impl View for DnsRecord {
    type V = RecordView;

    open spec fn view(&self) -> RecordView {
        match self {
            DnsRecord::Unknown { domain, qtype, data_len, ttl } => RecordView::Unknown {
                domain: domain@,
                qtype: *qtype,
                data_len: *data_len,
                ttl: *ttl,
            },
            DnsRecord::A { domain, addr, ttl } => RecordView::A {
                domain: domain@,
                addr: *addr,
                ttl: *ttl,
            },
        }
    }
}

/// What follows the name in an address record: type, class, time to live,
/// a data length of four, and the four octets.
pub open spec fn address_tail(addr: Ipv4Addr, ttl: u32) -> Seq<u8> {
    u16_bytes(1) + u16_bytes(CLASS_IN) + u32_bytes(ttl) + u16_bytes(4) + addr.spec_octets()
}

/// A record on the wire. A record that is no address record has no bytes.
pub open spec fn record_wire(r: RecordView) -> Wire {
    match r {
        RecordView::A { domain, addr, ttl } => name_wire(encode_utf8(domain)).followed_by(
            Wire::of(address_tail(addr, ttl)),
        ),
        RecordView::Unknown { .. } => Wire::of(Seq::empty()),
    }
}

/// What reading a record comes to.
pub struct RecordRead {
    /// The buffer as the reader leaves it.
    pub buffer: BufferView,
    /// The record, or why there is none.
    pub result: Result<RecordView, BufferError>,
}

/// Reading a record at the cursor of `v`: the name, then ten bytes of type,
/// class, time to live and data length, then the data. For an address that
/// is four octets; for any other type the cursor is moved past as many bytes
/// as the record declares, whether the buffer holds them or not.
pub open spec fn read_record(v: BufferView) -> RecordRead {
    let name = v.name();
    let behind = v.after_name();
    let p = behind.pos;
    if name.error is Some {
        RecordRead { buffer: behind, result: Err(name.error->0) }
    } else if !behind.fits(10) {
        RecordRead { buffer: behind.advance(10), result: Err(BufferError::EndOfBuffer) }
    } else if behind.u16_at(p) == 1 {
        RecordRead {
            buffer: behind.advance(14),
            result: if behind.fits(14) {
                Ok(
                    RecordView::A {
                        domain: name.text,
                        addr: Ipv4Addr {
                            first: behind.bytes[p + 10],
                            second: behind.bytes[p + 11],
                            third: behind.bytes[p + 12],
                            fourth: behind.bytes[p + 13],
                        },
                        ttl: behind.u32_at(p + 4),
                    },
                )
            } else {
                Err(BufferError::EndOfBuffer)
            },
        }
    } else {
        RecordRead {
            buffer: behind.at(p + 10 + behind.u16_at(p + 8)),
            result: Ok(
                RecordView::Unknown {
                    domain: name.text,
                    qtype: behind.u16_at(p),
                    data_len: behind.u16_at(p + 8),
                    ttl: behind.u32_at(p + 4),
                },
            ),
        }
    }
}

/// The four bytes of a 32-bit number, taken apart by shifting and masking.
proof fn lemma_split_u32(b0: u8, b1: u8, b2: u8, b3: u8)
    ensures
        ((u32_of(b0, b1, b2, b3) >> 24) & 0xFF) as u8 == b0,
        ((u32_of(b0, b1, b2, b3) >> 16) & 0xFF) as u8 == b1,
        ((u32_of(b0, b1, b2, b3) >> 8) & 0xFF) as u8 == b2,
        ((u32_of(b0, b1, b2, b3) >> 0) & 0xFF) as u8 == b3,
{
    let raw = u32_of(b0, b1, b2, b3);
    assert(raw == b0 as u32 * 0x100_0000 + b1 as u32 * 0x1_0000 + b2 as u32 * 0x100 + b3 as u32
        ==> ((raw >> 24) & 0xFF) as u8 == b0 && ((raw >> 16) & 0xFF) as u8 == b1 && ((raw >> 8)
        & 0xFF) as u8 == b2 && ((raw >> 0) & 0xFF) as u8 == b3) by (bit_vector);
}

impl DnsRecord {
    /// Reads a record at the cursor.
    pub fn read(buffer: &mut BytePacketBuffer) -> (r: Result<DnsRecord, BufferError>)
        ensures
            final(buffer)@ == read_record(old(buffer)@).buffer,
            r matches Ok(record) ==> read_record(old(buffer)@).result == Ok::<
                RecordView,
                BufferError,
            >(record@),
            r matches Err(e) ==> read_record(old(buffer)@).result == Err::<
                RecordView,
                BufferError,
            >(e),
    {
        let mut domain = String::new();
        buffer.read_qname(&mut domain)?;
        let ghost behind = buffer@;
        let qtype_num = buffer.read_u16()?;
        let qtype = QueryType::from_num(qtype_num);
        let _ = buffer.read_u16()?;
        let ttl = buffer.read_u32()?;
        let data_len = buffer.read_u16()?;
        match qtype {
            QueryType::A => {
                let raw_addr = buffer.read_u32()?;
                proof {
                    let p = behind.pos;
                    lemma_split_u32(
                        behind.bytes[p + 10],
                        behind.bytes[p + 11],
                        behind.bytes[p + 12],
                        behind.bytes[p + 13],
                    );
                }
                let addr = Ipv4Addr::new(
                    #[verifier::truncate]
                    (((raw_addr >> 24) & 0xFF) as u8),
                    #[verifier::truncate]
                    (((raw_addr >> 16) & 0xFF) as u8),
                    #[verifier::truncate]
                    (((raw_addr >> 8) & 0xFF) as u8),
                    #[verifier::truncate]
                    (((raw_addr >> 0) & 0xFF) as u8),
                );
                Ok(DnsRecord::A { domain: domain, addr: addr, ttl: ttl })
            },
            QueryType::UNKNOWN(_) => {
                let _ = buffer.step(data_len as usize);
                Ok(DnsRecord::Unknown { domain: domain, qtype: qtype_num, data_len: data_len, ttl: ttl })
            },
        }
    }

    /// Writes an address record; a record of another type is passed over.
    /// Returns the number of bytes written.
    pub fn write(&self, buffer: &mut BytePacketBuffer) -> (r: Result<usize, BufferError>)
        ensures
            final(buffer)@ == old(buffer)@.emit(record_wire(self@)),
            r == match old(buffer)@.outcome(record_wire(self@)) {
                Ok(_) => Ok::<usize, BufferError>(record_wire(self@).bytes.len() as usize),
                Err(e) => Err(e),
            },
    {
        let start_pos = buffer.pos();
        match self {
            DnsRecord::A { domain, addr, ttl } => {
                let octets = addr.octets();
                proof {
                    let name = name_wire(encode_utf8(domain@));
                    let w1 = Wire::of(u16_bytes(1));
                    let w2 = Wire::of(u16_bytes(CLASS_IN));
                    let w3 = Wire::of(u32_bytes(*ttl));
                    let w4 = Wire::of(u16_bytes(4));
                    let w5 = Wire::of(seq![octets[0]]);
                    let w6 = Wire::of(seq![octets[1]]);
                    let w7 = Wire::of(seq![octets[2]]);
                    let w8 = Wire::of(seq![octets[3]]);
                    let t7 = w7.followed_by(w8);
                    let t6 = w6.followed_by(t7);
                    let t5 = w5.followed_by(t6);
                    let t4 = w4.followed_by(t5);
                    let t3 = w3.followed_by(t4);
                    let t2 = w2.followed_by(t3);
                    let t1 = w1.followed_by(t2);
                    assert(t1.bytes =~= address_tail(*addr, *ttl));
                    let v0 = buffer@;
                    lemma_followed_by(v0, name, t1);
                    let v1 = v0.emit(name);
                    lemma_followed_by(v1, w1, t2);
                    let v2 = v1.emit(w1);
                    lemma_followed_by(v2, w2, t3);
                    let v3 = v2.emit(w2);
                    lemma_followed_by(v3, w3, t4);
                    let v4 = v3.emit(w3);
                    lemma_followed_by(v4, w4, t5);
                    let v5 = v4.emit(w4);
                    lemma_followed_by(v5, w5, t6);
                    let v6 = v5.emit(w5);
                    lemma_followed_by(v6, w6, t7);
                    let v7 = v6.emit(w6);
                    lemma_followed_by(v7, w7, w8);
                }
                buffer.write_qname(domain.as_str())?;
                buffer.write_u16(QueryType::A.to_num())?;
                buffer.write_u16(CLASS_IN)?;
                buffer.write_u32(*ttl)?;
                buffer.write_u16(4)?;
                buffer.write_u8(octets[0])?;
                buffer.write_u8(octets[1])?;
                buffer.write_u8(octets[2])?;
                buffer.write_u8(octets[3])?;
            },
            DnsRecord::Unknown { .. } => {
                proof {
                    lemma_write_empty(buffer@);
                }
            },
        }
        Ok(buffer.pos() - start_pos)
    }
}

} // verus!
