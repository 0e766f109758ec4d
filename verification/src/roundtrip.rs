//! What is written is read back.
//!
//! A message that is written into a buffer and read again at the place
//! where it was written comes back as it was, up to the form in which names
//! are kept: each label decoded leniently and lower-cased. This holds of
//! the messages that the wire can carry in full: every label of every name
//! has 1 to 63 bytes, every record is an address record, no question asks
//! for the type number 1 under the name `UNKNOWN`, the opcode has four
//! bits, and no section has more than 65535 entries.

use vstd::prelude::*;
use vstd::utf8::encode_utf8;
use crate::buffer::{BufferView, Wire, u16_bytes, u16_of, u32_bytes, u32_of};
use crate::name::{
    MAX_JUMPS,
    MAX_LABEL,
    NameCursor,
    NameRead,
    label_wire,
    labels_from,
    labels_wire,
    name_wire,
    read_name_from,
};
use crate::header::{
    DnsHeader,
    ResultCode,
    bit,
    flags_hi,
    flags_lo,
    header_bytes,
    read_header,
    with_flags,
};
use crate::packet::{
    PacketRead,
    PacketView,
    QuestionsRead,
    RecordsRead,
    blank_question,
    packet_wire,
    questions_wire,
    read_packet,
    read_questions,
    read_records,
    records_wire,
};
use crate::question::{
    CLASS_IN,
    QueryType,
    QuestionRead,
    QuestionView,
    question_wire,
    read_question,
};
use crate::record::{RecordRead, RecordView, address_tail, read_record, record_wire};
use crate::text::label_text;

verus! {

/// Whether the buffer bytes `bytes` hold `data` from `pos` on.
#[verifier::opaque]
pub open spec fn holds(bytes: Seq<u8>, pos: int, data: Seq<u8>) -> bool {
    &&& bytes.len() == 512
    &&& 0 <= pos
    &&& pos + data.len() <= 512
    &&& forall|k: int| 0 <= k < data.len() ==> bytes[pos + k] == #[trigger] data[k]
}

/// A buffer that holds `a + b` holds `a`, and `b` behind it.
pub proof fn lemma_holds_split(bytes: Seq<u8>, pos: int, a: Seq<u8>, b: Seq<u8>)
    requires
        holds(bytes, pos, a + b),
    ensures
        holds(bytes, pos, a),
        holds(bytes, pos + a.len(), b),
{
    reveal(holds);
    assert forall|k: int| 0 <= k < a.len() implies bytes[pos + k] == #[trigger] a[k] by {
        assert((a + b)[k] == a[k]);
    }
    assert forall|k: int| 0 <= k < b.len() implies bytes[pos + a.len() + k] == #[trigger] b[k] by {
        assert((a + b)[a.len() + k] == b[k]);
    }
}

/// After `data` was written to a buffer in which it fits, the buffer holds
/// `data` where its cursor stood.
pub proof fn lemma_written_holds(v: BufferView, data: Seq<u8>)
    requires
        v.bytes.len() == 512,
        0 <= v.pos,
        v.fits(data.len()),
        data.len() > 0,
    ensures
        holds(v.write(data).bytes, v.pos, data),
        v.write(data).pos == v.pos + data.len(),
{
    reveal(holds);
}

/// Whether each of `labels` can stand in a name on the wire and be read
/// again: it has at least one byte and at most 63.
pub open spec fn labels_fit(labels: Seq<Seq<u8>>) -> bool {
    forall|i: int| 0 <= i < labels.len() ==> 1 <= (#[trigger] labels[i]).len() <= MAX_LABEL
}

/// `text` with `labels` appended as they are kept: each as text, with dots
/// between them, and a dot before the first if `started`.
pub open spec fn append_labels(text: Seq<char>, started: bool, labels: Seq<Seq<u8>>) -> Seq<char>
    decreases labels.len(),
{
    if labels.len() == 0 {
        text
    } else {
        append_labels(
            (if started {
                text.push('.')
            } else {
                text
            }) + label_text(labels[0]),
            true,
            labels.drop_first(),
        )
    }
}

/// The name as it is read back: its labels, each decoded leniently and
/// lower-cased, with dots between them.
pub open spec fn read_back_name(name: Seq<char>) -> Seq<char> {
    append_labels(Seq::empty(), false, labels_from(encode_utf8(name), 0))
}

/// Whether `name` can be written and read again: each of its labels has 1
/// to 63 bytes.
pub open spec fn name_fits(name: Seq<char>) -> bool {
    labels_fit(labels_from(encode_utf8(name), 0))
}

/// The wire form of labels that fit: nothing is given up, and a first label
/// stands as its length and its bytes before the others.
pub proof fn lemma_labels_wire_fit(labels: Seq<Seq<u8>>)
    requires
        labels_fit(labels),
    ensures
        labels_wire(labels).error is None,
        labels_wire(labels).bytes.len() >= 1,
        labels.len() > 0 ==> labels_wire(labels).bytes == seq![labels[0].len() as u8] + labels[0]
            + labels_wire(labels.drop_first()).bytes,
        labels.len() > 0 ==> labels_fit(labels.drop_first()),
    decreases labels.len(),
{
    if labels.len() > 0 {
        lemma_labels_wire_fit(labels.drop_first());
    }
}

/// Labels that were written are read back. A walk that comes to the wire
/// form of `labels`, with no pointer in it, gathers the labels and ends
/// behind the closing zero.
pub proof fn lemma_labels_read_back(bytes: Seq<u8>, c: NameCursor, labels: Seq<Seq<u8>>)
    requires
        c.jumps <= MAX_JUMPS,
        labels_fit(labels),
        holds(bytes, c.pos, labels_wire(labels).bytes),
    ensures
        read_name_from(bytes, c) == (NameRead {
            text: append_labels(c.text, c.started, labels),
            moved: if c.moved is None {
                Some(c.pos + labels_wire(labels).bytes.len())
            } else {
                c.moved
            },
            error: None,
        }),
    decreases labels.len(),
{
    reveal(holds);
    lemma_labels_wire_fit(labels);
    let wire = labels_wire(labels).bytes;
    if labels.len() == 0 {
        assert(bytes[c.pos + 0] == wire[0]);
    } else {
        let label = labels[0];
        let rest = labels.drop_first();
        let head = seq![label.len() as u8] + label;
        lemma_holds_split(bytes, c.pos, head, labels_wire(rest).bytes);
        lemma_holds_split(bytes, c.pos, seq![label.len() as u8], label);
        assert(bytes[c.pos + 0] == seq![label.len() as u8][0]);
        assert(bytes.subrange(c.pos + 1, c.pos + 1 + label.len()) =~= label);
        let text = if c.started {
            c.text.push('.')
        } else {
            c.text
        };
        let next = NameCursor {
            pos: c.pos + 1 + label.len(),
            jumps: c.jumps,
            text: text + label_text(label),
            started: true,
            moved: c.moved,
        };
        lemma_labels_read_back(bytes, next, rest);
    }
}

/// A name that was written is read back. Reading at the wire form of a
/// name whose labels fit gives the name as it is kept and ends behind it.
pub proof fn lemma_name_read_back(v: BufferView, name: Seq<char>)
    requires
        name_fits(name),
        holds(v.bytes, v.pos, name_wire(encode_utf8(name)).bytes),
    ensures
        name_wire(encode_utf8(name)).error is None,
        v.name() == (NameRead {
            text: read_back_name(name),
            moved: Some(v.pos + name_wire(encode_utf8(name)).bytes.len()),
            error: None,
        }),
        v.after_name() == v.at(v.pos + name_wire(encode_utf8(name)).bytes.len()),
{
    let labels = labels_from(encode_utf8(name), 0);
    lemma_labels_wire_fit(labels);
    lemma_labels_read_back(
        v.bytes,
        NameCursor { pos: v.pos, jumps: 0, text: Seq::empty(), started: false, moved: None },
        labels,
    );
}

/// The two bytes of a number give the number.
pub proof fn lemma_u16_read_back(x: u16)
    ensures
        u16_bytes(x).len() == 2,
        u16_of(u16_bytes(x)[0], u16_bytes(x)[1]) == x,
{
}

/// The four bytes of a number give the number.
pub proof fn lemma_u32_read_back(x: u32)
    ensures
        u32_bytes(x).len() == 4,
        u32_of(u32_bytes(x)[0], u32_bytes(x)[1], u32_bytes(x)[2], u32_bytes(x)[3]) == x,
{
}

/// The question as it is read back: its name in the form in which names are
/// kept.
pub open spec fn read_back_question(q: QuestionView) -> QuestionView {
    QuestionView { name: read_back_name(q.name), qtype: q.qtype }
}

/// Whether `q` can be written and read again: its name fits, and its type
/// is not the number of the address type under the name `UNKNOWN`.
pub open spec fn question_fits(q: QuestionView) -> bool {
    name_fits(q.name) && q.qtype != QueryType::UNKNOWN(1)
}

/// A question that was written is read back.
pub proof fn lemma_question_read_back(v: BufferView, q: QuestionView, into: QuestionView)
    requires
        question_fits(q),
        holds(v.bytes, v.pos, question_wire(q).bytes),
    ensures
        question_wire(q).error is None,
        read_question(v, into) == (QuestionRead {
            question: QuestionView { name: into.name + read_back_name(q.name), qtype: q.qtype },
            buffer: v.at(v.pos + question_wire(q).bytes.len()),
            result: Ok(()),
        }),
{
    reveal(holds);
    let name = name_wire(encode_utf8(q.name));
    let num = q.qtype.spec_to_num();
    let tail = u16_bytes(num) + u16_bytes(CLASS_IN);
    lemma_labels_wire_fit(labels_from(encode_utf8(q.name), 0));
    lemma_holds_split(v.bytes, v.pos, name.bytes, tail);
    lemma_name_read_back(v, q.name);
    let behind = v.after_name();
    lemma_holds_split(v.bytes, behind.pos, u16_bytes(num), u16_bytes(CLASS_IN));
    lemma_u16_read_back(num);
}

/// The record as it is read back: its name in the form in which names are
/// kept.
pub open spec fn read_back_record(r: RecordView) -> RecordView {
    match r {
        RecordView::A { domain, addr, ttl } => RecordView::A {
            domain: read_back_name(domain),
            addr,
            ttl,
        },
        RecordView::Unknown { domain, qtype, data_len, ttl } => RecordView::Unknown {
            domain: read_back_name(domain),
            qtype,
            data_len,
            ttl,
        },
    }
}

/// Whether `r` can be written and read again: it is an address record, and
/// its name fits.
pub open spec fn record_fits(r: RecordView) -> bool {
    r matches RecordView::A { domain, .. } && name_fits(domain)
}

/// An address record that was written is read back.
pub proof fn lemma_record_read_back(v: BufferView, r: RecordView)
    requires
        record_fits(r),
        holds(v.bytes, v.pos, record_wire(r).bytes),
    ensures
        record_wire(r).error is None,
        read_record(v) == (RecordRead {
            buffer: v.at(v.pos + record_wire(r).bytes.len()),
            result: Ok(read_back_record(r)),
        }),
{
    reveal(holds);
    let domain = r->A_domain;
    let addr = r->A_addr;
    let ttl = r->A_ttl;
    let name = name_wire(encode_utf8(domain));
    let tail = address_tail(addr, ttl);
    lemma_labels_wire_fit(labels_from(encode_utf8(domain), 0));
    lemma_holds_split(v.bytes, v.pos, name.bytes, tail);
    lemma_name_read_back(v, domain);
    lemma_u16_read_back(1);
    lemma_u16_read_back(CLASS_IN);
    lemma_u16_read_back(4);
    lemma_u32_read_back(ttl);
    assert(tail[0] == u16_bytes(1)[0] && tail[1] == u16_bytes(1)[1]);
    assert(tail[4] == u32_bytes(ttl)[0] && tail[5] == u32_bytes(ttl)[1] && tail[6] == u32_bytes(
        ttl,
    )[2] && tail[7] == u32_bytes(ttl)[3]);
    assert(tail[10] == addr.first && tail[11] == addr.second && tail[12] == addr.third
        && tail[13] == addr.fourth);
}

/// Whether `h` can be written and read again: its opcode has four bits.
pub open spec fn header_fits(h: DnsHeader) -> bool {
    h.opcode < 16
}

/// The flags bytes of a header give back its flags, its opcode and its
/// response code.
pub proof fn lemma_flags_read_back(h: DnsHeader, g: DnsHeader)
    requires
        header_fits(h),
    ensures
        with_flags(g, flags_hi(h), flags_lo(h)) == (DnsHeader {
            id: g.id,
            questions: g.questions,
            answers: g.answers,
            authoritative_entries: g.authoritative_entries,
            resource_entries: g.resource_entries,
            ..h
        }),
{
    reveal(with_flags);
    let r = bit(h.recursion_desired);
    let t = bit(h.truncated_message);
    let a = bit(h.authoritative_answer);
    let o = h.opcode;
    let q = bit(h.response);
    let x = r | (t << 1) | (a << 2) | (o << 3) | (q << 7);
    assert(r <= 1 && t <= 1 && a <= 1 && q <= 1 && o < 16 && x == r | (t << 1) | (a << 2) | (o
        << 3) | (q << 7) ==> ((x & 0x01) > 0 <==> r == 1) && ((x & 0x02) > 0 <==> t == 1) && ((x
        & 0x04) > 0 <==> a == 1) && (x >> 3) & 0x0F == o && ((x & 0x80) > 0 <==> q == 1))
        by (bit_vector);
    let c = h.rescode.spec_to_num();
    let d = bit(h.checking_disabled);
    let u = bit(h.authed_data);
    let z = bit(h.z);
    let v = bit(h.recursion_available);
    let y = c | (d << 4) | (u << 5) | (z << 6) | (v << 7);
    assert(c < 16 && d <= 1 && u <= 1 && z <= 1 && v <= 1 && y == c | (d << 4) | (u << 5) | (z
        << 6) | (v << 7) ==> y & 0x0F == c && ((y & 0x10) > 0 <==> d == 1) && ((y & 0x20) > 0
        <==> u == 1) && ((y & 0x40) > 0 <==> z == 1) && ((y & 0x80) > 0 <==> v == 1))
        by (bit_vector);
}

/// A header that was written is read back.
pub proof fn lemma_header_read_back(v: BufferView, h: DnsHeader, into: DnsHeader)
    requires
        header_fits(h),
        holds(v.bytes, v.pos, header_bytes(h)),
    ensures
        v.fits(12),
        read_header(v, into) == h,
{
    reveal(holds);
    let data = header_bytes(h);
    lemma_u16_read_back(h.id);
    lemma_u16_read_back(h.questions);
    lemma_u16_read_back(h.answers);
    lemma_u16_read_back(h.authoritative_entries);
    lemma_u16_read_back(h.resource_entries);
    assert(data[0] == u16_bytes(h.id)[0] && data[1] == u16_bytes(h.id)[1]);
    assert(data[2] == flags_hi(h) && data[3] == flags_lo(h));
    assert(data[4] == u16_bytes(h.questions)[0] && data[5] == u16_bytes(h.questions)[1]);
    assert(data[6] == u16_bytes(h.answers)[0] && data[7] == u16_bytes(h.answers)[1]);
    assert(data[8] == u16_bytes(h.authoritative_entries)[0] && data[9] == u16_bytes(
        h.authoritative_entries,
    )[1]);
    assert(data[10] == u16_bytes(h.resource_entries)[0] && data[11] == u16_bytes(
        h.resource_entries,
    )[1]);
    lemma_flags_read_back(h, into);
}

/// Questions that were written are read back, one after the other.
pub proof fn lemma_questions_read_back(v: BufferView, questions: Seq<QuestionView>)
    requires
        forall|i: int| 0 <= i < questions.len() ==> question_fits(#[trigger] questions[i]),
        holds(v.bytes, v.pos, questions_wire(questions).bytes),
    ensures
        questions_wire(questions).error is None,
        read_questions(v, questions.len()) == (QuestionsRead {
            items: questions.map_values(|q: QuestionView| read_back_question(q)),
            buffer: v.at(v.pos + questions_wire(questions).bytes.len()),
            error: None,
        }),
    decreases questions.len(),
{
    let back = questions.map_values(|q: QuestionView| read_back_question(q));
    if questions.len() == 0 {
        assert(back =~= Seq::empty());
    } else {
        let first = questions[0];
        let rest = questions.drop_first();
        lemma_labels_wire_fit(labels_from(encode_utf8(first.name), 0));
        let a = question_wire(first).bytes;
        let b = questions_wire(rest).bytes;
        lemma_holds_split(v.bytes, v.pos, a, b);
        lemma_question_read_back(v, first, blank_question());
        let next = v.at(v.pos + a.len());
        lemma_questions_read_back(next, rest);
        assert(seq![read_back_question(first)] + rest.map_values(
            |q: QuestionView| read_back_question(q),
        ) =~= back);
    }
}

/// Address records that were written are read back, one after the other.
pub proof fn lemma_records_read_back(v: BufferView, records: Seq<RecordView>)
    requires
        forall|i: int| 0 <= i < records.len() ==> record_fits(#[trigger] records[i]),
        holds(v.bytes, v.pos, records_wire(records).bytes),
    ensures
        records_wire(records).error is None,
        read_records(v, records.len()) == (RecordsRead {
            items: records.map_values(|r: RecordView| read_back_record(r)),
            buffer: v.at(v.pos + records_wire(records).bytes.len()),
            error: None,
        }),
    decreases records.len(),
{
    let back = records.map_values(|r: RecordView| read_back_record(r));
    if records.len() == 0 {
        assert(back =~= Seq::empty());
    } else {
        let first = records[0];
        let rest = records.drop_first();
        lemma_labels_wire_fit(labels_from(encode_utf8(first->A_domain), 0));
        let a = record_wire(first).bytes;
        let b = records_wire(rest).bytes;
        lemma_holds_split(v.bytes, v.pos, a, b);
        lemma_record_read_back(v, first);
        let next = v.at(v.pos + a.len());
        lemma_records_read_back(next, rest);
        assert(seq![read_back_record(first)] + rest.map_values(
            |r: RecordView| read_back_record(r),
        ) =~= back);
    }
}

/// The message as it is read back: the counts of its header set to the
/// lengths of its sections, and every name in the form in which names are
/// kept.
pub open spec fn read_back_packet(p: PacketView) -> PacketView {
    PacketView {
        header: p.counted().header,
        questions: p.questions.map_values(|q: QuestionView| read_back_question(q)),
        answers: p.answers.map_values(|r: RecordView| read_back_record(r)),
        authorities: p.authorities.map_values(|r: RecordView| read_back_record(r)),
        resources: p.resources.map_values(|r: RecordView| read_back_record(r)),
    }
}

/// Whether `p` can be written and read again: its header, its questions and
/// its records can, its records are address records, and no section has
/// more entries than a count of the header can say.
pub open spec fn packet_fits(p: PacketView) -> bool {
    &&& header_fits(p.header)
    &&& p.questions.len() <= 0xFFFF
    &&& p.answers.len() <= 0xFFFF
    &&& p.authorities.len() <= 0xFFFF
    &&& p.resources.len() <= 0xFFFF
    &&& forall|i: int| 0 <= i < p.questions.len() ==> question_fits(#[trigger] p.questions[i])
    &&& forall|i: int| 0 <= i < p.answers.len() ==> record_fits(#[trigger] p.answers[i])
    &&& forall|i: int| 0 <= i < p.authorities.len() ==> record_fits(#[trigger] p.authorities[i])
    &&& forall|i: int| 0 <= i < p.resources.len() ==> record_fits(#[trigger] p.resources[i])
}

/// The wire form of a message that fits: nothing is given up, and the
/// sections follow the header.
pub proof fn lemma_wire_of_fitting_packet(p: PacketView)
    requires
        packet_fits(p),
    ensures
        packet_wire(p).error is None,
        packet_wire(p).bytes == header_bytes(p.counted().header) + (questions_wire(
            p.questions,
        ).bytes + (records_wire(p.answers).bytes + (records_wire(p.authorities).bytes
            + records_wire(p.resources).bytes))),
        header_bytes(p.counted().header).len() == 12,
        header_fits(p.counted().header),
        p.counted().header.questions == p.questions.len(),
        p.counted().header.answers == p.answers.len(),
        p.counted().header.authoritative_entries == p.authorities.len(),
        p.counted().header.resource_entries == p.resources.len(),
{
    lemma_wire_of_fitting_questions(p.questions);
    lemma_wire_of_fitting_records(p.answers);
    lemma_wire_of_fitting_records(p.authorities);
    lemma_wire_of_fitting_records(p.resources);
}

/// A message that a buffer holds is read from it. Reading at the wire form
/// of a message that fits gives the message as [`read_back_packet`] says,
/// and ends behind it.
pub proof fn lemma_packet_read_from_wire(v: BufferView, p: PacketView)
    requires
        packet_fits(p),
        holds(v.bytes, v.pos, packet_wire(p).bytes),
    ensures
        read_packet(v) == (PacketRead {
            buffer: v.at(v.pos + packet_wire(p).bytes.len()),
            result: Ok(read_back_packet(p)),
        }),
{
    let header = p.counted().header;
    let hb = header_bytes(header);
    let qb = questions_wire(p.questions).bytes;
    let ab = records_wire(p.answers).bytes;
    let ub = records_wire(p.authorities).bytes;
    let rb = records_wire(p.resources).bytes;
    lemma_wire_of_fitting_packet(p);
    let t3 = ub + rb;
    let t2 = ab + t3;
    let t1 = qb + t2;
    lemma_holds_split(v.bytes, v.pos, hb, t1);
    lemma_header_read_back(v, header, DnsHeader::empty());
    let at_questions = v.at(v.pos + 12);
    assert(v.advance(12) == at_questions) by {
        reveal(holds);
    }
    lemma_holds_split(v.bytes, at_questions.pos, qb, t2);
    lemma_questions_read_back(at_questions, p.questions);
    let at_answers = v.at(at_questions.pos + qb.len());
    lemma_holds_split(v.bytes, at_answers.pos, ab, t3);
    lemma_records_read_back(at_answers, p.answers);
    let at_authorities = v.at(at_answers.pos + ab.len());
    lemma_holds_split(v.bytes, at_authorities.pos, ub, rb);
    lemma_records_read_back(at_authorities, p.authorities);
    let at_resources = v.at(at_authorities.pos + ub.len());
    lemma_records_read_back(at_resources, p.resources);
}

/// A message that was written is read back. Where a message that fits is
/// written into a buffer that has room for it, reading at the place where
/// it was written gives the message as [`read_back_packet`] says, and ends
/// where writing ended.
pub proof fn lemma_packet_read_back(v: BufferView, p: PacketView)
    requires
        v.bytes.len() == 512,
        0 <= v.pos,
        packet_fits(p),
        v.outcome(packet_wire(p)) is Ok,
    ensures
        read_packet(v.emit(packet_wire(p)).at(v.pos)) == (PacketRead {
            buffer: v.emit(packet_wire(p)),
            result: Ok(read_back_packet(p)),
        }),
{
    lemma_wire_of_fitting_packet(p);
    lemma_written_holds(v, packet_wire(p).bytes);
    lemma_packet_read_from_wire(v.emit(packet_wire(p)).at(v.pos), p);
}

/// Questions that fit have a wire form.
pub proof fn lemma_wire_of_fitting_questions(questions: Seq<QuestionView>)
    requires
        forall|i: int| 0 <= i < questions.len() ==> question_fits(#[trigger] questions[i]),
    ensures
        questions_wire(questions).error is None,
    decreases questions.len(),
{
    if questions.len() > 0 {
        let rest = questions.drop_first();
        lemma_labels_wire_fit(labels_from(encode_utf8(questions[0].name), 0));
        lemma_wire_of_fitting_questions(rest);
    }
}

/// Address records that fit have a wire form.
pub proof fn lemma_wire_of_fitting_records(records: Seq<RecordView>)
    requires
        forall|i: int| 0 <= i < records.len() ==> record_fits(#[trigger] records[i]),
    ensures
        records_wire(records).error is None,
    decreases records.len(),
{
    if records.len() > 0 {
        let rest = records.drop_first();
        lemma_labels_wire_fit(labels_from(encode_utf8(records[0]->A_domain), 0));
        lemma_wire_of_fitting_records(rest);
    }
}

} // verus!
