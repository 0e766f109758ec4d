use dns_resolver::resolver::{
    first_address_record, is_authority, pick_nameserver, root_server, ANSWER_TTL, DNS_PORT,
    MAX_ATTEMPTS,
};
use dns_resolver::{
    BufferError, BytePacketBuffer, DnsPacket, DnsQuestion, DnsRecord, DnsResolverError, Event,
    Ipv4Addr, QueryType, Resolution, Step,
};

fn a_record(domain: &str, addr: Ipv4Addr) -> DnsRecord {
    DnsRecord::A { domain: domain.to_string(), addr, ttl: 77 }
}

fn unknown_record(domain: &str) -> DnsRecord {
    DnsRecord::Unknown { domain: domain.to_string(), qtype: 2, data_len: 0, ttl: 1 }
}

fn datagram(mut packet: DnsPacket) -> BytePacketBuffer {
    let mut b = BytePacketBuffer::new();
    packet.write(&mut b).unwrap();
    b.seek(0).unwrap();
    b
}

fn query(name: &str) -> BytePacketBuffer {
    let mut p = DnsPacket::new();
    p.header.id = 6666;
    p.header.recursion_desired = true;
    p.questions.push(DnsQuestion::new(name.to_string(), QueryType::A));
    datagram(p)
}

fn referral(glue: &str, addr: Ipv4Addr) -> BytePacketBuffer {
    let mut p = DnsPacket::new();
    p.header.response = true;
    p.resources.push(a_record(glue, addr));
    datagram(p)
}

fn answer(name: &str, addr: Ipv4Addr) -> BytePacketBuffer {
    let mut p = DnsPacket::new();
    p.header.response = true;
    p.answers.push(a_record(name, addr));
    datagram(p)
}

fn ask(step: Step) -> Resolution {
    match step {
        Step::Ask(resolution) => resolution,
        Step::Done(_) => panic!("the resolution is done"),
        Step::Failed(e) => panic!("the resolution failed: {}", e.message()),
    }
}

fn done(step: Step) -> DnsPacket {
    match step {
        Step::Done(mut buffer) => {
            buffer.seek(0).unwrap();
            DnsPacket::from_buffer(&mut buffer).unwrap()
        }
        Step::Ask(_) => panic!("the resolution asks again"),
        Step::Failed(e) => panic!("the resolution failed: {}", e.message()),
    }
}

fn failed(step: Step) -> DnsResolverError {
    match step {
        Step::Failed(e) => e,
        Step::Ask(_) => panic!("the resolution asks again"),
        Step::Done(_) => panic!("the resolution is done"),
    }
}

#[test]
fn constants_of_the_resolution() {
    assert_eq!(root_server(), Ipv4Addr::new(192, 203, 230, 10));
    assert_eq!(MAX_ATTEMPTS, 13);
    assert_eq!(ANSWER_TTL, 1000);
    assert_eq!(DNS_PORT, 53);
}

#[test]
fn first_address_record_passes_over_other_records() {
    let list = vec![
        unknown_record("ns"),
        a_record("first", Ipv4Addr::new(1, 1, 1, 1)),
        a_record("second", Ipv4Addr::new(2, 2, 2, 2)),
    ];
    let found = first_address_record(&list).unwrap();
    assert_eq!(found, ("first".to_string(), Ipv4Addr::new(1, 1, 1, 1)));
    let none = first_address_record(&vec![unknown_record("ns")]);
    assert!(matches!(none, Err(DnsResolverError::NoNameserverFound)));
    assert!(matches!(first_address_record(&vec![]), Err(DnsResolverError::NoNameserverFound)));
}

#[test]
fn pick_nameserver_looks_at_answers_only_when_the_header_counts_some() {
    let mut p = DnsPacket::new();
    p.resources.push(a_record("glue", Ipv4Addr::new(9, 9, 9, 9)));
    assert_eq!(pick_nameserver(&p).unwrap().0, "glue");
    p.answers.push(a_record("answer", Ipv4Addr::new(8, 8, 8, 8)));
    assert_eq!(pick_nameserver(&p).unwrap().0, "glue");
    p.header.answers = 1;
    assert_eq!(pick_nameserver(&p).unwrap(), ("answer".to_string(), Ipv4Addr::new(8, 8, 8, 8)));
    p.answers.clear();
    assert!(matches!(pick_nameserver(&p), Err(DnsResolverError::NoNameserverFound)));
}

#[test]
fn authority_is_reached_when_the_names_are_the_same() {
    assert!(is_authority(&"a.b".to_string(), &"a.b".to_string()));
    assert!(!is_authority(&"a.b".to_string(), &"A.b".to_string()));
    assert!(!is_authority(&"b".to_string(), &"a.b".to_string()));
}

#[test]
fn start_reads_the_query_and_begins_at_the_root() {
    let q = query("Google.com");
    let sent = q.buf;
    let r = Resolution::start(q).ok().unwrap();
    assert_eq!(r.nameserver(), root_server());
    assert_eq!(r.attempts(), 0);
    assert_eq!(r.packet().questions[0].name, "google.com");
    assert_eq!(r.packet().header.id, 6666);
    assert_eq!(r.query().pos(), 28);
    assert_eq!(r.query().filled(), &sent[..28]);
}

#[test]
fn start_fails_without_a_question() {
    let none = Resolution::start(BytePacketBuffer::new());
    assert!(matches!(none, Err(DnsResolverError::NoQuestionFound)));
}

#[test]
fn start_fails_for_a_query_that_cannot_be_read() {
    let mut b = BytePacketBuffer::new();
    b.buf[5] = 1;
    b.buf[12] = 0xC0;
    b.buf[13] = 12;
    match Resolution::start(b) {
        Err(DnsResolverError::ParseError(reason)) => {
            assert_eq!(reason, BufferError::JumpLimitExceeded.message())
        }
        _ => panic!("the query was read"),
    }
    let mut c = BytePacketBuffer::new();
    c.seek(512).unwrap();
    match Resolution::start(c) {
        Err(DnsResolverError::ParseError(reason)) => assert_eq!(reason, "End of buffer"),
        _ => panic!("the query was read"),
    }
}

#[test]
fn resolution_ends_with_the_first_response_that_names_the_queried_domain() {
    let r = Resolution::start(query("google.com")).ok().unwrap();
    let addr = Ipv4Addr::new(142, 250, 72, 14);
    let p = done(r.step(Event::Response(answer("google.com", addr))));
    assert_eq!(p.header.id, 6666);
    assert_eq!(p.questions, vec![DnsQuestion::new("google.com".to_string(), QueryType::A)]);
    assert_eq!(
        p.answers,
        vec![DnsRecord::A { domain: "google.com".to_string(), addr, ttl: 1000 }]
    );
    assert_eq!(p.header.answers, 1);
}

#[test]
fn resolution_follows_referrals_until_the_nth_response_settles_it() {
    let mut r = Resolution::start(query("www.example.com")).ok().unwrap();
    let hops = [
        ("a.gtld-servers.net", Ipv4Addr::new(192, 5, 6, 30)),
        ("ns1.example.com", Ipv4Addr::new(10, 0, 0, 1)),
        ("ns2.example.com", Ipv4Addr::new(10, 0, 0, 2)),
    ];
    for (i, (name, addr)) in hops.iter().enumerate() {
        assert_eq!(r.attempts() as usize, i);
        r = ask(r.step(Event::Response(referral(name, *addr))));
        assert_eq!(r.nameserver(), *addr);
    }
    assert_eq!(r.attempts(), 3);
    let addr = Ipv4Addr::new(93, 184, 216, 34);
    let p = done(r.step(Event::Response(referral("www.example.com", addr))));
    assert_eq!(p.answers.len(), 1);
    assert_eq!(
        p.answers[0],
        DnsRecord::A { domain: "www.example.com".to_string(), addr, ttl: 1000 }
    );
}

#[test]
fn resolution_appends_to_the_answers_of_the_query() {
    let mut q = DnsPacket::new();
    q.questions.push(DnsQuestion::new("x.org".to_string(), QueryType::A));
    q.answers.push(a_record("old.org", Ipv4Addr::new(5, 5, 5, 5)));
    let r = Resolution::start(datagram(q)).ok().unwrap();
    let addr = Ipv4Addr::new(6, 6, 6, 6);
    let p = done(r.step(Event::Response(answer("x.org", addr))));
    assert_eq!(p.answers.len(), 2);
    assert_eq!(p.answers[0], a_record("old.org", Ipv4Addr::new(5, 5, 5, 5)));
    assert_eq!(p.answers[1], DnsRecord::A { domain: "x.org".to_string(), addr, ttl: 1000 });
}

#[test]
fn resolution_settles_with_the_thirteenth_response() {
    let mut r = Resolution::start(query("deep.example")).ok().unwrap();
    for i in 0..12u8 {
        r = ask(r.step(Event::Response(referral("ns.example", Ipv4Addr::new(10, 0, 0, i)))));
    }
    assert_eq!(r.attempts(), 12);
    let addr = Ipv4Addr::new(7, 7, 7, 7);
    let p = done(r.step(Event::Response(answer("deep.example", addr))));
    assert_eq!(p.answers, vec![DnsRecord::A { domain: "deep.example".to_string(), addr, ttl: 1000 }]);
}

#[test]
fn resolution_gives_up_after_thirteen_responses() {
    let mut r = Resolution::start(query("never.example")).ok().unwrap();
    for i in 0..12u8 {
        r = ask(r.step(Event::Response(referral("ns.example", Ipv4Addr::new(10, 0, 0, i)))));
    }
    let last = r.step(Event::Response(referral("ns.example", Ipv4Addr::new(10, 0, 0, 12))));
    assert!(matches!(failed(last), DnsResolverError::ResolutionFailed));
}

#[test]
fn resolution_fails_when_a_response_names_no_nameserver() {
    let r = Resolution::start(query("a.example")).ok().unwrap();
    let mut p = DnsPacket::new();
    p.resources.push(unknown_record("ns.example"));
    let e = failed(r.step(Event::Response(datagram(p))));
    assert!(matches!(e, DnsResolverError::NoNameserverFound));
    let r = Resolution::start(query("a.example")).ok().unwrap();
    let e = failed(r.step(Event::Response(BytePacketBuffer::new())));
    assert!(matches!(e, DnsResolverError::NoNameserverFound));
}

#[test]
fn resolution_fails_for_a_response_that_cannot_be_read() {
    let r = Resolution::start(query("a.example")).ok().unwrap();
    let mut b = BytePacketBuffer::new();
    b.buf[7] = 1;
    b.buf[12] = 0xC0;
    b.buf[13] = 12;
    match failed(r.step(Event::Response(b))) {
        DnsResolverError::ParseError(reason) => assert_eq!(reason, "Limit of jumps exceeded"),
        e => panic!("{}", e.message()),
    }
}

#[test]
fn resolution_fails_when_the_answer_does_not_fit() {
    let mut q = DnsPacket::new();
    let long = format!("{}.{}.{}.{}", "a".repeat(60), "b".repeat(60), "c".repeat(60), "d".repeat(50));
    q.questions.push(DnsQuestion::new(long.clone(), QueryType::A));
    q.questions.push(DnsQuestion::new(long.clone(), QueryType::A));
    let r = Resolution::start(datagram(q)).ok().unwrap();
    match failed(r.step(Event::Response(answer(&long, Ipv4Addr::new(1, 1, 1, 1))))) {
        DnsResolverError::ParseError(reason) => assert_eq!(reason, "End of buffer"),
        e => panic!("{}", e.message()),
    }
}

#[test]
fn transport_failure_ends_the_resolution_with_its_cause() {
    let r = Resolution::start(query("a.example")).ok().unwrap();
    let cause = std::io::Error::new(std::io::ErrorKind::TimedOut, "no route");
    match failed(r.step(Event::TransportFailed(cause))) {
        DnsResolverError::NetworkError(e) => {
            assert_eq!(e.kind(), std::io::ErrorKind::TimedOut);
            assert_eq!(e.to_string(), "no route");
        }
        e => panic!("{}", e.message()),
    }
}

#[test]
fn a_failed_resolution_leaves_another_one_untouched() {
    let first = Resolution::start(query("one.example")).ok().unwrap();
    let second = Resolution::start(query("two.example")).ok().unwrap();
    let second = ask(second.step(Event::Response(referral("ns", Ipv4Addr::new(3, 3, 3, 3)))));
    let cause = std::io::Error::new(std::io::ErrorKind::BrokenPipe, "down");
    assert!(matches!(
        failed(first.step(Event::TransportFailed(cause))),
        DnsResolverError::NetworkError(_)
    ));
    assert_eq!(second.nameserver(), Ipv4Addr::new(3, 3, 3, 3));
    let addr = Ipv4Addr::new(4, 4, 4, 4);
    let p = done(second.step(Event::Response(answer("two.example", addr))));
    assert_eq!(p.answers, vec![DnsRecord::A { domain: "two.example".to_string(), addr, ttl: 1000 }]);
}

#[test]
fn errors_in_words() {
    let io = std::io::Error::new(std::io::ErrorKind::Other, "boom");
    assert_eq!(DnsResolverError::from(io).message(), "Network error: boom");
    assert_eq!(
        DnsResolverError::ParseError("bad".to_string()).message(),
        "Parsing error: bad"
    );
    assert_eq!(
        DnsResolverError::NoQuestionFound.message(),
        "No DNS question found in the packet"
    );
    assert_eq!(
        DnsResolverError::NoNameserverFound.message(),
        "Unable to find a valid nameserver"
    );
    assert_eq!(DnsResolverError::ResolutionFailed.message(), "DNS resolution failed");
    assert_eq!(
        DnsResolverError::malformed(BufferError::LabelTooLong).message(),
        "Parsing error: Single label exceeds 63 characters of length"
    );
}
