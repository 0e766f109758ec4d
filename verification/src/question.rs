//! Questions: a name and the type of record that is asked for.

use vstd::prelude::*;
use vstd::utf8::encode_utf8;
use crate::buffer::{BufferError, BufferView, BytePacketBuffer, Wire, lemma_followed_by, u16_bytes};
use crate::name::name_wire;

verus! {

/// The class that every question and record is written with: Internet.
pub const CLASS_IN: u16 = 1;

/// The type of record that a question asks for.
#[allow(non_camel_case_types)]
#[derive(PartialEq, Eq, Debug, Clone, Hash, Copy, Structural)]
pub enum QueryType {
    /// A type that has no name here, with its number.
    UNKNOWN(u16),
    /// An IPv4 address.
    A,
}

impl QueryType {
    /// The number of the type on the wire.
    pub open spec fn spec_to_num(self) -> u16 {
        match self {
            QueryType::UNKNOWN(x) => x,
            QueryType::A => 1,
        }
    }

    /// The type that `num` stands for.
    pub open spec fn spec_from_num(num: u16) -> QueryType {
        if num == 1 {
            QueryType::A
        } else {
            QueryType::UNKNOWN(num)
        }
    }

    /// The number of the type on the wire.
    pub fn to_num(&self) -> (num: u16)
        ensures
            num == self.spec_to_num(),
    {
        match *self {
            QueryType::UNKNOWN(x) => x,
            QueryType::A => 1,
        }
    }

    /// The type that `num` stands for.
    pub fn from_num(num: u16) -> (qtype: QueryType)
        ensures
            qtype == QueryType::spec_from_num(num),
    {
        match num {
            1 => QueryType::A,
            _ => QueryType::UNKNOWN(num),
        }
    }
}

/// A number stands for one type, and that type for the number; and a type
/// stands for one number, and that number for the type, but for the type
/// `UNKNOWN(1)`, whose number is that of `A`.
pub proof fn lemma_query_type_numbers(num: u16, qtype: QueryType)
    ensures
        QueryType::spec_from_num(num).spec_to_num() == num,
        qtype != QueryType::UNKNOWN(1) ==> QueryType::spec_from_num(qtype.spec_to_num())
            == qtype,
{
}

/// A question of a message.
#[derive(Debug, Clone, PartialEq, Eq)]
pub struct DnsQuestion {
    pub name: String,
    pub qtype: QueryType,
}

/// What a question holds.
pub struct QuestionView {
    pub name: Seq<char>,
    pub qtype: QueryType,
}

impl View for DnsQuestion {
    type V = QuestionView;

    open spec fn view(&self) -> QuestionView {
        QuestionView { name: self.name@, qtype: self.qtype }
    }
}

/// A question on the wire: the name, the type and the class.
pub open spec fn question_wire(q: QuestionView) -> Wire {
    name_wire(encode_utf8(q.name)).followed_by(
        Wire::of(u16_bytes(q.qtype.spec_to_num()) + u16_bytes(CLASS_IN)),
    )
}

/// What reading a question comes to.
pub struct QuestionRead {
    /// The question as the reader leaves it.
    pub question: QuestionView,
    /// The buffer as the reader leaves it.
    pub buffer: BufferView,
    /// What the reader returns.
    pub result: Result<(), BufferError>,
}

/// Reading a question at the cursor of `v` into `q`: the name is appended to
/// the name of `q`, the type replaces its type, the class is passed over.
pub open spec fn read_question(v: BufferView, q: QuestionView) -> QuestionRead {
    let name = v.name();
    let behind = v.after_name();
    if name.error is Some {
        QuestionRead {
            question: QuestionView { name: q.name + name.text, qtype: q.qtype },
            buffer: behind,
            result: name.result(),
        }
    } else {
        QuestionRead {
            question: QuestionView {
                name: q.name + name.text,
                qtype: if behind.fits(2) {
                    QueryType::spec_from_num(behind.u16_at(behind.pos))
                } else {
                    q.qtype
                },
            },
            buffer: behind.advance(4),
            result: if behind.fits(4) {
                Ok(())
            } else {
                Err(BufferError::EndOfBuffer)
            },
        }
    }
}

impl DnsQuestion {
    /// The question for `name` and `qtype`.
    pub fn new(name: String, qtype: QueryType) -> (q: DnsQuestion)
        ensures
            q.name == name,
            q.qtype == qtype,
    {
        DnsQuestion { name: name, qtype: qtype }
    }

    /// Reads a question at the cursor: its name is appended to `self.name`.
    pub fn read(&mut self, buffer: &mut BytePacketBuffer) -> (r: Result<(), BufferError>)
        ensures
            r == read_question(old(buffer)@, old(self)@).result,
            final(self)@ == read_question(old(buffer)@, old(self)@).question,
            final(buffer)@ == read_question(old(buffer)@, old(self)@).buffer,
    {
        buffer.read_qname(&mut self.name)?;
        self.qtype = QueryType::from_num(buffer.read_u16()?);
        let _ = buffer.read_u16()?;
        Ok(())
    }

    /// Writes the question: the name, the type, and the class Internet.
    pub fn write(&self, buffer: &mut BytePacketBuffer) -> (r: Result<(), BufferError>)
        ensures
            r == old(buffer)@.outcome(question_wire(self@)),
            final(buffer)@ == old(buffer)@.emit(question_wire(self@)),
    {
        proof {
            let name = name_wire(encode_utf8(self@.name));
            let qtype = Wire::of(u16_bytes(self.qtype.spec_to_num()));
            let class = Wire::of(u16_bytes(CLASS_IN));
            assert(qtype.followed_by(class) == Wire::of(
                u16_bytes(self.qtype.spec_to_num()) + u16_bytes(CLASS_IN),
            ));
            lemma_followed_by(buffer@, name, qtype.followed_by(class));
            lemma_followed_by(buffer@.emit(name), qtype, class);
        }
        buffer.write_qname(self.name.as_str())?;
        let typenum = self.qtype.to_num();
        buffer.write_u16(typenum)?;
        buffer.write_u16(CLASS_IN)?;
        Ok(())
    }
}

} // verus!
