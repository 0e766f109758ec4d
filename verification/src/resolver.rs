//! The decisions of iterative resolution.
//!
//! A resolution starts at a root server and asks one nameserver after the
//! other, always with the bytes of the client's query. Each response names
//! the next nameserver by its first address record, in the answers if the
//! response has any and else among the additional records. When the name of
//! that record is the name that was asked for, its address is the answer.
//!
//! Nothing here sends or receives. [`Resolution`] holds where a resolution
//! stands; [`Resolution::step`] takes what came back from the network and
//! says what to do next.

use vstd::prelude::*;
use crate::buffer::{BufferView, BytePacketBuffer};
use crate::errors::{DnsResolverError, ResolverErrorView};
use crate::packet::{
    DnsPacket,
    PacketRead,
    PacketView,
    packet_wire,
    read_packet,
    record_views,
};
use crate::record::{DnsRecord, Ipv4Addr, RecordView};
use crate::roundtrip::{lemma_packet_read_back, packet_fits, read_back_packet};

verus! {

/// Most responses that a resolution takes before it gives up.
pub const MAX_ATTEMPTS: u8 = 13;

/// Time to live, in seconds, of the answer that a resolution makes.
pub const ANSWER_TTL: u32 = 1000;

/// The port on which nameservers are asked.
pub const DNS_PORT: u16 = 53;

/// The root server at which every resolution starts.
pub open spec fn spec_root_server() -> Ipv4Addr {
    Ipv4Addr { first: 192, second: 203, third: 230, fourth: 10 }
}

/// The root server at which every resolution starts.
pub fn root_server() -> (addr: Ipv4Addr)
    ensures
        addr == spec_root_server(),
{
    Ipv4Addr::new(192, 203, 230, 10)
}

/// Name and address of the first address record among `records`.
pub open spec fn first_address(records: Seq<RecordView>) -> Option<(Seq<char>, Ipv4Addr)>
    decreases records.len(),
{
    if records.len() == 0 {
        None
    } else {
        match records[0] {
            RecordView::A { domain, addr, .. } => Some((domain, addr)),
            RecordView::Unknown { .. } => first_address(records.drop_first()),
        }
    }
}

/// The nameserver that the response `p` names: the first address record of
/// its answers if the header counts any answer, else the first among its
/// additional records.
pub open spec fn candidate(p: PacketView) -> Option<(Seq<char>, Ipv4Addr)> {
    if p.header.answers != 0 {
        first_address(p.answers)
    } else {
        first_address(p.resources)
    }
}

/// Whether the nameserver named `candidate` ends the resolution of
/// `queried`: it does when the two names are the same.
pub open spec fn reached_authority(candidate: Seq<char>, queried: Seq<char>) -> bool {
    candidate == queried
}

/// Whether the nameserver named `candidate` ends the resolution of
/// `queried`.
pub fn is_authority(candidate: &String, queried: &String) -> (b: bool)
    ensures
        b == reached_authority(candidate@, queried@),
{
    *candidate == *queried
}

/// Name and address of the first address record of `list`.
pub fn first_address_record(list: &Vec<DnsRecord>) -> (r: Result<
    (String, Ipv4Addr),
    DnsResolverError,
>)
    ensures
        match first_address(record_views(list@)) {
            Some((domain, addr)) => r matches Ok(found) && found.0@ == domain && found.1 == addr,
            None => r matches Err(e) && e@ == ResolverErrorView::NoNameserverFound,
        },
{
    let ghost views = record_views(list@);
    let n = list.len();
    let mut i: usize = 0;
    assert(views.skip(0) =~= views);
    while i < n
        invariant
            n == list@.len(),
            i <= n,
            views == record_views(list@),
            first_address(views) == first_address(views.skip(i as int)),
        decreases n - i,
    {
        assert(views.skip(i as int).drop_first() =~= views.skip(i + 1));
        match &list[i] {
            DnsRecord::A { domain, addr, .. } => {
                return Ok((domain.clone(), *addr));
            },
            DnsRecord::Unknown { .. } => {},
        }
        i += 1;
    }
    Err(DnsResolverError::NoNameserverFound)
}

/// The nameserver that `response` names.
pub fn pick_nameserver(response: &DnsPacket) -> (r: Result<(String, Ipv4Addr), DnsResolverError>)
    ensures
        match candidate(response@) {
            Some((domain, addr)) => r matches Ok(found) && found.0@ == domain && found.1 == addr,
            None => r matches Err(e) && e@ == ResolverErrorView::NoNameserverFound,
        },
{
    if response.header.answers != 0 {
        return first_address_record(&response.answers);
    }
    first_address_record(&response.resources)
}

/// Where a resolution stands.
pub struct Resolution {
    query: BytePacketBuffer,
    packet: DnsPacket,
    nameserver: Ipv4Addr,
    attempts: u8,
}

/// What a [`Resolution`] holds.
pub struct ResolutionView {
    /// The client's query as it was received, the cursor behind what was
    /// read of it.
    pub query: BufferView,
    /// The client's query, read.
    pub packet: PacketView,
    /// The nameserver to ask next.
    pub nameserver: Ipv4Addr,
    /// The number of responses taken so far.
    pub attempts: nat,
}

impl ResolutionView {
    /// What holds of every resolution: there is a question, and a response
    /// may still be taken.
    pub open spec fn wf(self) -> bool {
        self.packet.questions.len() > 0 && self.attempts < MAX_ATTEMPTS
    }

    /// The name that is asked for: that of the first question.
    pub open spec fn domain(self) -> Seq<char> {
        self.packet.questions[0].name
    }
}

/// What comes back from the network.
pub enum Event {
    /// A datagram was received, and this buffer holds it.
    Response(BytePacketBuffer),
    /// Sending or receiving failed.
    TransportFailed(std::io::Error),
}

/// What an [`Event`] holds.
pub enum EventView {
    Response(BufferView),
    TransportFailed(std::io::Error),
}

impl View for Event {
    type V = EventView;

    open spec fn view(&self) -> EventView {
        match self {
            Event::Response(buffer) => EventView::Response(buffer@),
            Event::TransportFailed(cause) => EventView::TransportFailed(*cause),
        }
    }
}

/// What to do next.
pub enum Step {
    /// Send the query to the nameserver of this resolution and hand its
    /// response to [`Resolution::step`].
    Ask(Resolution),
    /// The resolution is done: this buffer holds the response to the client.
    Done(BytePacketBuffer),
    /// The resolution failed.
    Failed(DnsResolverError),
}

/// What a [`Step`] holds.
pub enum StepView {
    Ask(ResolutionView),
    Done(BufferView),
    Failed(ResolverErrorView),
}

/// The client's query with the answer to it: one more answer, an address
/// record for the name that was asked for.
pub open spec fn answered(query: PacketView, addr: Ipv4Addr) -> PacketView {
    PacketView {
        answers: query.answers.push(
            RecordView::A { domain: query.questions[0].name, addr, ttl: ANSWER_TTL },
        ),
        ..query
    }
}

/// The end of a resolution that found `addr`: the answered query, written
/// into a fresh buffer.
pub open spec fn finish(query: PacketView, addr: Ipv4Addr) -> StepView {
    let wire = packet_wire(answered(query, addr));
    match BufferView::blank().outcome(wire) {
        Ok(_) => StepView::Done(BufferView::blank().emit(wire)),
        Err(e) => StepView::Failed(ResolverErrorView::ParseError(e.spec_message())),
    }
}

/// How a resolution starts: the query is read, and has to hold a question.
pub open spec fn start(query: BufferView) -> Result<ResolutionView, ResolverErrorView> {
    match read_packet(query).result {
        Err(e) => Err(ResolverErrorView::ParseError(e.spec_message())),
        Ok(packet) => if packet.questions.len() == 0 {
            Err(ResolverErrorView::NoQuestionFound)
        } else {
            Ok(
                ResolutionView {
                    query: read_packet(query).buffer,
                    packet,
                    nameserver: spec_root_server(),
                    attempts: 0,
                },
            )
        },
    }
}

/// What a resolution at `s` does with the response `response`.
pub open spec fn respond(s: ResolutionView, response: BufferView) -> StepView {
    match read_packet(response).result {
        Err(e) => StepView::Failed(ResolverErrorView::ParseError(e.spec_message())),
        Ok(packet) => match candidate(packet) {
            None => StepView::Failed(ResolverErrorView::NoNameserverFound),
            Some((domain, addr)) => if reached_authority(domain, s.domain()) {
                finish(s.packet, addr)
            } else if s.attempts + 1 >= MAX_ATTEMPTS {
                StepView::Failed(ResolverErrorView::ResolutionFailed)
            } else {
                StepView::Ask(
                    ResolutionView { nameserver: addr, attempts: s.attempts + 1, ..s },
                )
            },
        },
    }
}

/// What a resolution at `s` does with `event`.
pub open spec fn step(s: ResolutionView, event: EventView) -> StepView {
    match event {
        EventView::Response(response) => respond(s, response),
        EventView::TransportFailed(cause) => StepView::Failed(
            ResolverErrorView::NetworkError(cause),
        ),
    }
}

/// What a resolution at `s` comes to when it is handed `responses` one
/// after the other: the first step that is no `Ask` ends it, and responses
/// behind that one are not looked at.
pub open spec fn run(s: ResolutionView, responses: Seq<BufferView>) -> StepView
    decreases responses.len(),
{
    if responses.len() == 0 {
        StepView::Ask(s)
    } else {
        match respond(s, responses[0]) {
            StepView::Ask(next) => run(next, responses.drop_first()),
            end => end,
        }
    }
}

/// Whether `response` names a nameserver whose name is the one that `s`
/// asks for, with the address `addr`.
pub open spec fn settles(s: ResolutionView, response: BufferView, addr: Ipv4Addr) -> bool {
    &&& read_packet(response).result matches Ok(packet)
    &&& candidate(packet) matches Some(found)
    &&& reached_authority(found.0, s.domain())
    &&& found.1 == addr
}

/// Whether `response` names a nameserver whose name is the one that `s`
/// asks for.
pub open spec fn answers_query(s: ResolutionView, response: BufferView) -> bool {
    &&& read_packet(response).result matches Ok(packet)
    &&& candidate(packet) matches Some(found)
    &&& reached_authority(found.0, s.domain())
}

/// Whether `response` names a nameserver under another name than the one
/// that `s` asks for.
pub open spec fn refers(s: ResolutionView, response: BufferView) -> bool {
    &&& read_packet(response).result matches Ok(packet)
    &&& candidate(packet) matches Some(found)
    &&& !reached_authority(found.0, s.domain())
}

/// Whether `step` asks again, for the query of `s` and with `k` responses
/// more taken than `s` has.
pub open spec fn still_asks(step: StepView, s: ResolutionView, k: int) -> bool {
    &&& step matches StepView::Ask(at)
    &&& at.attempts == s.attempts + k
    &&& at.packet == s.packet
}

/// A resolution ends with the response that settles it. If the first
/// `n - 1` responses each name a nameserver under another name, and the
/// `n`-th names one under the name that is asked for, with the address
/// `addr`, then the resolution asks `n` times and no more: after fewer
/// responses it still asks, and with the `n`-th it ends as [`finish`] says,
/// with the query and one more answer, an address record for `addr` with a
/// time to live of 1000 seconds. The responses behind the `n`-th play no
/// part.
pub proof fn lemma_resolves_with_nth_response(
    s: ResolutionView,
    responses: Seq<BufferView>,
    n: nat,
    addr: Ipv4Addr,
)
    requires
        1 <= n <= responses.len(),
        s.attempts + n <= MAX_ATTEMPTS,
        forall|i: int| 0 <= i < n - 1 ==> refers(s, #[trigger] responses[i]),
        settles(s, responses[n - 1], addr),
    ensures
        run(s, responses) == finish(s.packet, addr),
        run(s, responses.take(n as int)) == finish(s.packet, addr),
        forall|k: int| 0 <= k < n ==> still_asks(#[trigger] run(s, responses.take(k)), s, k),
        answered(s.packet, addr).answers.len() == s.packet.answers.len() + 1,
        answered(s.packet, addr).answers.last() == (RecordView::A {
            domain: s.domain(),
            addr,
            ttl: 1000,
        }),
    decreases n,
{
    if n > 1 {
        let next = respond(s, responses[0])->Ask_0;
        let rest = responses.drop_first();
        assert(rest[n - 2] == responses[n - 1]);
        lemma_resolves_with_nth_response(next, rest, (n - 1) as nat, addr);
        assert(responses.take(n as int).drop_first() =~= rest.take(n - 1));
        assert forall|k: int| 0 <= k < n implies still_asks(
            #[trigger] run(s, responses.take(k)),
            s,
            k,
        ) by {
            if k > 0 {
                assert(responses.take(k).drop_first() =~= rest.take(k - 1));
                assert(still_asks(run(next, rest.take(k - 1)), next, k - 1));
            }
        }
    }
}

/// The response of a resolution that is done holds the answered query. If
/// the query with its answer can be written and read again, reading the
/// buffer that the resolution hands out, from its start, gives the query
/// with one more answer, in the form in which a message is read back.
pub proof fn lemma_done_holds_answered_query(query: PacketView, addr: Ipv4Addr)
    requires
        packet_fits(answered(query, addr)),
        finish(query, addr) is Done,
    ensures
        read_packet(finish(query, addr)->Done_0.at(0)) == (PacketRead {
            buffer: finish(query, addr)->Done_0,
            result: Ok(read_back_packet(answered(query, addr))),
        }),
{
    lemma_packet_read_back(BufferView::blank(), answered(query, addr));
}

/// A resolution takes thirteen responses at most: handed as many as it may
/// still take, it does not ask again.
pub proof fn lemma_run_ends(s: ResolutionView, responses: Seq<BufferView>)
    requires
        s.attempts < MAX_ATTEMPTS,
        responses.len() >= MAX_ATTEMPTS - s.attempts,
    ensures
        !(run(s, responses) is Ask),
    decreases responses.len(),
{
    match respond(s, responses[0]) {
        StepView::Ask(next) => {
            lemma_run_ends(next, responses.drop_first());
        },
        _ => {},
    }
}

/// A resolution that is never settled fails. If none of the responses that
/// the resolution may still take names a nameserver under the name that is
/// asked for, the resolution fails; and if each of them names a nameserver,
/// under another name, it fails as one that did not come to an end.
pub proof fn lemma_fails_when_never_settled(s: ResolutionView, responses: Seq<BufferView>)
    requires
        s.attempts < MAX_ATTEMPTS,
        responses.len() >= MAX_ATTEMPTS - s.attempts,
        forall|i: int|
            0 <= i < MAX_ATTEMPTS - s.attempts ==> !answers_query(s, #[trigger] responses[i]),
    ensures
        run(s, responses) is Failed,
        (forall|i: int| 0 <= i < MAX_ATTEMPTS - s.attempts ==> refers(s, #[trigger] responses[i]))
            ==> run(s, responses) == StepView::Failed(ResolverErrorView::ResolutionFailed),
    decreases responses.len(),
{
    match respond(s, responses[0]) {
        StepView::Ask(next) => {
            lemma_fails_when_never_settled(next, responses.drop_first());
        },
        _ => {},
    }
}

impl View for Resolution {
    type V = ResolutionView;

    closed spec fn view(&self) -> ResolutionView {
        ResolutionView {
            query: self.query@,
            packet: self.packet@,
            nameserver: self.nameserver,
            attempts: self.attempts as nat,
        }
    }
}

impl View for Step {
    type V = StepView;

    open spec fn view(&self) -> StepView {
        match self {
            Step::Ask(resolution) => StepView::Ask(resolution@),
            Step::Done(buffer) => StepView::Done(buffer@),
            Step::Failed(e) => StepView::Failed(e@),
        }
    }
}

impl Resolution {
    #[verifier::type_invariant]
    spec fn inv(self) -> bool {
        self.packet@.questions.len() > 0 && self.attempts < MAX_ATTEMPTS
    }

    /// Starts the resolution of the query that `query` holds at its cursor.
    pub fn start(query: BytePacketBuffer) -> (r: Result<Resolution, DnsResolverError>)
        ensures
            r matches Ok(resolution) ==> start(query@) == Ok::<
                ResolutionView,
                ResolverErrorView,
            >(resolution@) && resolution@.wf(),
            r matches Err(e) ==> start(query@) == Err::<ResolutionView, ResolverErrorView>(e@),
    {
        let mut buffer = query;
        let packet = match DnsPacket::from_buffer(&mut buffer) {
            Ok(packet) => packet,
            Err(e) => {
                return Err(DnsResolverError::malformed(e));
            },
        };
        if packet.questions.len() == 0 {
            return Err(DnsResolverError::NoQuestionFound);
        }
        Ok(Resolution { query: buffer, packet: packet, nameserver: root_server(), attempts: 0 })
    }

    /// The nameserver to ask next, on port [`DNS_PORT`].
    pub fn nameserver(&self) -> (addr: Ipv4Addr)
        ensures
            addr == self@.nameserver,
    {
        self.nameserver
    }

    /// The number of responses taken so far.
    pub fn attempts(&self) -> (n: u8)
        ensures
            n == self@.attempts,
            n < MAX_ATTEMPTS,
    {
        proof {
            use_type_invariant(self);
        }
        self.attempts
    }

    /// The client's query as it was received. What is sent to a nameserver
    /// is what this buffer holds before its cursor.
    pub fn query(&self) -> (buffer: &BytePacketBuffer)
        ensures
            buffer@ == self@.query,
    {
        &self.query
    }

    /// The client's query, read.
    pub fn packet(&self) -> (packet: &DnsPacket)
        ensures
            packet@ == self@.packet,
            packet@.questions.len() > 0,
    {
        proof {
            use_type_invariant(self);
        }
        &self.packet
    }

    /// Ends the resolution with the address `addr`: appends the answer to
    /// the query and writes it into a fresh buffer.
    fn answer(self, addr: Ipv4Addr) -> (next: Step)
        ensures
            next@ == finish(self@.packet, addr),
    {
        proof {
            use_type_invariant(&self);
        }
        let mut packet = self.packet;
        let ghost query = packet@;
        let domain = packet.questions[0].name.clone();
        packet.answers.push(DnsRecord::A { domain: domain, addr: addr, ttl: ANSWER_TTL });
        assert(packet@.answers =~= answered(query, addr).answers);
        let mut out = BytePacketBuffer::new();
        match packet.write(&mut out) {
            Ok(_) => Step::Done(out),
            Err(e) => Step::Failed(DnsResolverError::malformed(e)),
        }
    }

    /// Takes the response that `response` holds at its cursor.
    fn respond(self, response: BytePacketBuffer) -> (next: Step)
        ensures
            next@ == respond(self@, response@),
            next matches Step::Ask(resolution) ==> resolution@.wf(),
    {
        proof {
            use_type_invariant(&self);
        }
        let mut buffer = response;
        let packet = match DnsPacket::from_buffer(&mut buffer) {
            Ok(packet) => packet,
            Err(e) => {
                return Step::Failed(DnsResolverError::malformed(e));
            },
        };
        let (domain, addr) = match pick_nameserver(&packet) {
            Ok(found) => found,
            Err(e) => {
                return Step::Failed(e);
            },
        };
        if is_authority(&domain, &self.packet.questions[0].name) {
            return self.answer(addr);
        }
        if self.attempts + 1 >= MAX_ATTEMPTS {
            return Step::Failed(DnsResolverError::ResolutionFailed);
        }
        Step::Ask(
            Resolution {
                query: self.query,
                packet: self.packet,
                nameserver: addr,
                attempts: self.attempts + 1,
            },
        )
    }

    /// Takes what came back from the network and says what to do next.
    pub fn step(self, event: Event) -> (next: Step)
        ensures
            next@ == step(self@, event@),
            next matches Step::Ask(resolution) ==> resolution@.wf(),
    {
        match event {
            Event::Response(response) => self.respond(response),
            Event::TransportFailed(cause) => Step::Failed(DnsResolverError::from(cause)),
        }
    }
}

} // verus!
