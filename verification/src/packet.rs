//! Whole messages: the header and the four sections behind it.
//!
//! A message is read section by section, as many entries of each as the
//! header announces. It is written with the four counts of its header set
//! to the lengths of its sections, whatever the header held before.

use vstd::prelude::*;
use crate::buffer::{
    BufferError,
    BufferView,
    BytePacketBuffer,
    Wire,
    lemma_followed_by,
    lemma_write_empty,
};
use crate::header::{DnsHeader, header_bytes, read_header};
use crate::question::{DnsQuestion, QueryType, QuestionView, question_wire, read_question};
use crate::record::{DnsRecord, RecordView, read_record, record_wire};

verus! {

/// A DNS message.
#[derive(Clone, Debug)]
pub struct DnsPacket {
    pub header: DnsHeader,
    pub questions: Vec<DnsQuestion>,
    pub answers: Vec<DnsRecord>,
    pub authorities: Vec<DnsRecord>,
    pub resources: Vec<DnsRecord>,
}

/// What a message holds.
pub struct PacketView {
    pub header: DnsHeader,
    pub questions: Seq<QuestionView>,
    pub answers: Seq<RecordView>,
    pub authorities: Seq<RecordView>,
    pub resources: Seq<RecordView>,
}

/// What a list of questions holds.
pub open spec fn question_views(questions: Seq<DnsQuestion>) -> Seq<QuestionView> {
    questions.map_values(|q: DnsQuestion| q@)
}

/// What a list of records holds.
pub open spec fn record_views(records: Seq<DnsRecord>) -> Seq<RecordView> {
    records.map_values(|r: DnsRecord| r@)
}

impl View for DnsPacket {
    type V = PacketView;

    open spec fn view(&self) -> PacketView {
        PacketView {
            header: self.header,
            questions: question_views(self.questions@),
            answers: record_views(self.answers@),
            authorities: record_views(self.authorities@),
            resources: record_views(self.resources@),
        }
    }
}

/// A length as a count in the header: its lower sixteen bits.
pub open spec fn count16(len: nat) -> u16 {
    (len % 0x1_0000) as u16
}

impl PacketView {
    /// The message with the counts of its header set to the lengths of its
    /// sections.
    pub open spec fn counted(self) -> PacketView {
        PacketView {
            header: DnsHeader {
                questions: count16(self.questions.len()),
                answers: count16(self.answers.len()),
                authoritative_entries: count16(self.authorities.len()),
                resource_entries: count16(self.resources.len()),
                ..self.header
            },
            ..self
        }
    }
}

/// Questions on the wire, one after the other.
pub open spec fn questions_wire(questions: Seq<QuestionView>) -> Wire
    decreases questions.len(),
{
    if questions.len() == 0 {
        Wire::of(Seq::empty())
    } else {
        question_wire(questions[0]).followed_by(questions_wire(questions.drop_first()))
    }
}

/// Records on the wire, one after the other.
pub open spec fn records_wire(records: Seq<RecordView>) -> Wire
    decreases records.len(),
{
    if records.len() == 0 {
        Wire::of(Seq::empty())
    } else {
        record_wire(records[0]).followed_by(records_wire(records.drop_first()))
    }
}

/// A message on the wire: the header with the counts of the sections, then
/// the questions, the answers, the authority records and the additional
/// records.
pub open spec fn packet_wire(p: PacketView) -> Wire {
    Wire::of(header_bytes(p.counted().header)).followed_by(
        questions_wire(p.questions).followed_by(
            records_wire(p.answers).followed_by(
                records_wire(p.authorities).followed_by(records_wire(p.resources)),
            ),
        ),
    )
}

/// What reading a list of questions comes to.
pub struct QuestionsRead {
    /// The questions that were read.
    pub items: Seq<QuestionView>,
    /// The buffer as the reader leaves it.
    pub buffer: BufferView,
    /// Why reading stopped early, if it did.
    pub error: Option<BufferError>,
}

/// What reading a list of records comes to.
pub struct RecordsRead {
    /// The records that were read.
    pub items: Seq<RecordView>,
    /// The buffer as the reader leaves it.
    pub buffer: BufferView,
    /// Why reading stopped early, if it did.
    pub error: Option<BufferError>,
}

/// The question into which each question of a message is read.
pub open spec fn blank_question() -> QuestionView {
    QuestionView { name: Seq::empty(), qtype: QueryType::UNKNOWN(0) }
}

/// Reading `n` questions from the cursor of `v` on, up to the first that
/// fails.
pub open spec fn read_questions(v: BufferView, n: nat) -> QuestionsRead
    decreases n,
{
    if n == 0 {
        QuestionsRead { items: Seq::empty(), buffer: v, error: None }
    } else {
        let first = read_question(v, blank_question());
        match first.result {
            Err(e) => QuestionsRead { items: Seq::empty(), buffer: first.buffer, error: Some(e) },
            Ok(_) => {
                let rest = read_questions(first.buffer, (n - 1) as nat);
                QuestionsRead {
                    items: seq![first.question] + rest.items,
                    buffer: rest.buffer,
                    error: rest.error,
                }
            },
        }
    }
}

/// Reading `n` records from the cursor of `v` on, up to the first that
/// fails.
pub open spec fn read_records(v: BufferView, n: nat) -> RecordsRead
    decreases n,
{
    if n == 0 {
        RecordsRead { items: Seq::empty(), buffer: v, error: None }
    } else {
        let first = read_record(v);
        match first.result {
            Err(e) => RecordsRead { items: Seq::empty(), buffer: first.buffer, error: Some(e) },
            Ok(record) => {
                let rest = read_records(first.buffer, (n - 1) as nat);
                RecordsRead {
                    items: seq![record] + rest.items,
                    buffer: rest.buffer,
                    error: rest.error,
                }
            },
        }
    }
}

/// What reading a message comes to.
pub struct PacketRead {
    /// The buffer as the reader leaves it.
    pub buffer: BufferView,
    /// The message, or why there is none.
    pub result: Result<PacketView, BufferError>,
}

/// Reading a message at the cursor of `v`: the header, then of each section
/// as many entries as the header announces. The first failure ends it.
pub open spec fn read_packet(v: BufferView) -> PacketRead {
    let header = read_header(v, DnsHeader::empty());
    let questions = read_questions(v.advance(12), header.questions as nat);
    let answers = read_records(questions.buffer, header.answers as nat);
    let authorities = read_records(answers.buffer, header.authoritative_entries as nat);
    let resources = read_records(authorities.buffer, header.resource_entries as nat);
    if !v.fits(12) {
        PacketRead { buffer: v.advance(12), result: Err(BufferError::EndOfBuffer) }
    } else if questions.error is Some {
        PacketRead { buffer: questions.buffer, result: Err(questions.error->0) }
    } else if answers.error is Some {
        PacketRead { buffer: answers.buffer, result: Err(answers.error->0) }
    } else if authorities.error is Some {
        PacketRead { buffer: authorities.buffer, result: Err(authorities.error->0) }
    } else if resources.error is Some {
        PacketRead { buffer: resources.buffer, result: Err(resources.error->0) }
    } else {
        PacketRead {
            buffer: resources.buffer,
            result: Ok(
                PacketView {
                    header,
                    questions: questions.items,
                    answers: answers.items,
                    authorities: authorities.items,
                    resources: resources.items,
                },
            ),
        }
    }
}

/// Reads `n` questions, one after the other.
pub fn read_question_list(buffer: &mut BytePacketBuffer, n: u16) -> (r: Result<
    Vec<DnsQuestion>,
    BufferError,
>)
    ensures
        final(buffer)@ == read_questions(old(buffer)@, n as nat).buffer,
        r matches Ok(list) ==> read_questions(old(buffer)@, n as nat).error is None
            && question_views(list@) == read_questions(old(buffer)@, n as nat).items,
        r matches Err(e) ==> read_questions(old(buffer)@, n as nat).error == Some(e),
{
    let mut list: Vec<DnsQuestion> = Vec::new();
    let mut i: u16 = 0;
    let ghost all = read_questions(buffer@, n as nat);
    while i < n
        invariant
            i <= n,
            all == read_questions(old(buffer)@, n as nat),
            all.buffer == read_questions(buffer@, (n - i) as nat).buffer,
            all.error == read_questions(buffer@, (n - i) as nat).error,
            all.items == question_views(list@) + read_questions(buffer@, (n - i) as nat).items
                || all.error is Some,
        decreases n - i,
    {
        let mut question = DnsQuestion::new(String::new(), QueryType::UNKNOWN(0));
        question.read(buffer)?;
        let ghost read = question@;
        let ghost prev = list@;
        list.push(question);
        i += 1;
        proof {
            let rest = read_questions(buffer@, (n - i) as nat);
            assert(question_views(list@) + rest.items =~= question_views(prev) + (seq![read]
                + rest.items));
        }
    }
    Ok(list)
}

/// Reads `n` records, one after the other.
pub fn read_record_list(buffer: &mut BytePacketBuffer, n: u16) -> (r: Result<
    Vec<DnsRecord>,
    BufferError,
>)
    ensures
        final(buffer)@ == read_records(old(buffer)@, n as nat).buffer,
        r matches Ok(list) ==> read_records(old(buffer)@, n as nat).error is None && record_views(
            list@,
        ) == read_records(old(buffer)@, n as nat).items,
        r matches Err(e) ==> read_records(old(buffer)@, n as nat).error == Some(e),
{
    let mut list: Vec<DnsRecord> = Vec::new();
    let mut i: u16 = 0;
    let ghost all = read_records(buffer@, n as nat);
    while i < n
        invariant
            i <= n,
            all == read_records(old(buffer)@, n as nat),
            all.buffer == read_records(buffer@, (n - i) as nat).buffer,
            all.error == read_records(buffer@, (n - i) as nat).error,
            all.items == record_views(list@) + read_records(buffer@, (n - i) as nat).items
                || all.error is Some,
        decreases n - i,
    {
        let record = DnsRecord::read(buffer)?;
        let ghost view = record@;
        let ghost prev = list@;
        list.push(record);
        i += 1;
        proof {
            let rest = read_records(buffer@, (n - i) as nat);
            assert(record_views(list@) + rest.items =~= record_views(prev) + (seq![view]
                + rest.items));
        }
    }
    Ok(list)
}

/// Writes the questions of `list`, one after the other.
pub fn write_question_list(list: &Vec<DnsQuestion>, buffer: &mut BytePacketBuffer) -> (r: Result<
    (),
    BufferError,
>)
    ensures
        r == old(buffer)@.outcome(questions_wire(question_views(list@))),
        final(buffer)@ == old(buffer)@.emit(questions_wire(question_views(list@))),
{
    let ghost views = question_views(list@);
    let n = list.len();
    let mut i: usize = 0;
    assert(views.skip(0) =~= views);
    while i < n
        invariant
            n == list@.len(),
            i <= n,
            views == question_views(list@),
            buffer@.bytes.len() == 512,
            old(buffer)@.emit(questions_wire(views)) == buffer@.emit(
                questions_wire(views.skip(i as int)),
            ),
            old(buffer)@.outcome(questions_wire(views)) == buffer@.outcome(
                questions_wire(views.skip(i as int)),
            ),
        decreases n - i,
    {
        proof {
            assert(views.skip(i as int).drop_first() =~= views.skip(i + 1));
            lemma_followed_by(
                buffer@,
                question_wire(views[i as int]),
                questions_wire(views.skip(i + 1)),
            );
        }
        list[i].write(buffer)?;
        i += 1;
    }
    proof {
        lemma_write_empty(buffer@);
    }
    Ok(())
}

/// Writes the records of `list`, one after the other.
pub fn write_record_list(list: &Vec<DnsRecord>, buffer: &mut BytePacketBuffer) -> (r: Result<
    (),
    BufferError,
>)
    ensures
        r == old(buffer)@.outcome(records_wire(record_views(list@))),
        final(buffer)@ == old(buffer)@.emit(records_wire(record_views(list@))),
{
    let ghost views = record_views(list@);
    let n = list.len();
    let mut i: usize = 0;
    assert(views.skip(0) =~= views);
    while i < n
        invariant
            n == list@.len(),
            i <= n,
            views == record_views(list@),
            buffer@.bytes.len() == 512,
            old(buffer)@.emit(records_wire(views)) == buffer@.emit(
                records_wire(views.skip(i as int)),
            ),
            old(buffer)@.outcome(records_wire(views)) == buffer@.outcome(
                records_wire(views.skip(i as int)),
            ),
        decreases n - i,
    {
        proof {
            assert(views.skip(i as int).drop_first() =~= views.skip(i + 1));
            lemma_followed_by(
                buffer@,
                record_wire(views[i as int]),
                records_wire(views.skip(i + 1)),
            );
        }
        list[i].write(buffer)?;
        i += 1;
    }
    proof {
        lemma_write_empty(buffer@);
    }
    Ok(())
}

/// A length as a count in the header.
fn count_of(len: usize) -> (count: u16)
    ensures
        count == count16(len as nat),
{
    assert(len as u16 == len % 0x1_0000) by (bit_vector);
    #[verifier::truncate]
    (len as u16)
}

impl DnsPacket {
    /// A message with an empty header and empty sections.
    pub fn new() -> (p: DnsPacket)
        ensures
            p@ == (PacketView {
                header: DnsHeader::empty(),
                questions: Seq::empty(),
                answers: Seq::empty(),
                authorities: Seq::empty(),
                resources: Seq::empty(),
            }),
    {
        let p = DnsPacket {
            header: DnsHeader::new(),
            questions: Vec::new(),
            answers: Vec::new(),
            authorities: Vec::new(),
            resources: Vec::new(),
        };
        assert(p@.questions =~= Seq::empty());
        assert(p@.answers =~= Seq::empty());
        assert(p@.authorities =~= Seq::empty());
        assert(p@.resources =~= Seq::empty());
        p
    }

    /// Reads a message at the cursor.
    pub fn from_buffer(buffer: &mut BytePacketBuffer) -> (r: Result<DnsPacket, BufferError>)
        ensures
            final(buffer)@ == read_packet(old(buffer)@).buffer,
            r matches Ok(packet) ==> read_packet(old(buffer)@).result == Ok::<
                PacketView,
                BufferError,
            >(packet@),
            r matches Err(e) ==> read_packet(old(buffer)@).result == Err::<
                PacketView,
                BufferError,
            >(e),
    {
        let mut result = DnsPacket::new();
        result.header.read(buffer)?;
        result.questions = read_question_list(buffer, result.header.questions)?;
        result.answers = read_record_list(buffer, result.header.answers)?;
        result.authorities = read_record_list(buffer, result.header.authoritative_entries)?;
        result.resources = read_record_list(buffer, result.header.resource_entries)?;
        Ok(result)
    }

    /// Writes the message, with the counts of its header set to the lengths
    /// of its sections.
    pub fn write(&mut self, buffer: &mut BytePacketBuffer) -> (r: Result<(), BufferError>)
        ensures
            final(self)@ == old(self)@.counted(),
            r == old(buffer)@.outcome(packet_wire(old(self)@)),
            final(buffer)@ == old(buffer)@.emit(packet_wire(old(self)@)),
    {
        self.header.questions = count_of(self.questions.len());
        self.header.answers = count_of(self.answers.len());
        self.header.authoritative_entries = count_of(self.authorities.len());
        self.header.resource_entries = count_of(self.resources.len());
        proof {
            let p = old(self)@;
            let w1 = Wire::of(header_bytes(p.counted().header));
            let w2 = questions_wire(p.questions);
            let w3 = records_wire(p.answers);
            let w4 = records_wire(p.authorities);
            let w5 = records_wire(p.resources);
            let t4 = w4.followed_by(w5);
            let t3 = w3.followed_by(t4);
            let t2 = w2.followed_by(t3);
            let v0 = buffer@;
            lemma_followed_by(v0, w1, t2);
            let v1 = v0.emit(w1);
            lemma_followed_by(v1, w2, t3);
            let v2 = v1.emit(w2);
            lemma_followed_by(v2, w3, t4);
            let v3 = v2.emit(w3);
            lemma_followed_by(v3, w4, w5);
        }
        self.header.write(buffer)?;
        write_question_list(&self.questions, buffer)?;
        write_record_list(&self.answers, buffer)?;
        write_record_list(&self.authorities, buffer)?;
        write_record_list(&self.resources, buffer)?;
        Ok(())
    }
}

} // verus!
