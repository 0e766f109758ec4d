use dns_resolver::packet::{read_question_list, read_record_list, write_record_list};
use dns_resolver::{
    BufferError, BytePacketBuffer, DnsPacket, DnsQuestion, DnsRecord, Ipv4Addr, QueryType,
};

fn a_record(domain: &str, addr: [u8; 4], ttl: u32) -> DnsRecord {
    DnsRecord::A {
        domain: domain.to_string(),
        addr: Ipv4Addr::new(addr[0], addr[1], addr[2], addr[3]),
        ttl,
    }
}

#[test]
fn ipv4_addr_keeps_its_octets_in_order() {
    let a = Ipv4Addr::new(192, 203, 230, 10);
    assert_eq!(a.octets(), [192, 203, 230, 10]);
    assert!(Ipv4Addr::new(1, 2, 3, 4) < Ipv4Addr::new(1, 2, 4, 0));
}

#[test]
fn question_write_gives_name_type_and_class() {
    let q = DnsQuestion::new("a.bc".to_string(), QueryType::UNKNOWN(0x0102));
    let mut b = BytePacketBuffer::new();
    assert_eq!(q.write(&mut b), Ok(()));
    assert_eq!(b.filled(), &[1, b'a', 2, b'b', b'c', 0, 0x01, 0x02, 0x00, 0x01][..]);
}

#[test]
fn question_read_takes_the_type_and_passes_over_the_class() {
    let mut b = BytePacketBuffer::new();
    b.buf[..10].copy_from_slice(&[1, b'A', 2, b'b', b'c', 0, 0, 1, 0xAB, 0xCD]);
    let mut q = DnsQuestion::new(String::new(), QueryType::UNKNOWN(0));
    assert_eq!(q.read(&mut b), Ok(()));
    assert_eq!(q, DnsQuestion::new("a.bc".to_string(), QueryType::A));
    assert_eq!(b.pos(), 10);
}

#[test]
fn question_read_fails_when_the_class_is_cut_off() {
    let mut b = BytePacketBuffer::new();
    b.buf[508] = 0;
    b.buf[509] = 0;
    b.buf[510] = 28;
    b.seek(508).unwrap();
    let mut q = DnsQuestion::new(String::new(), QueryType::A);
    assert_eq!(q.read(&mut b), Err(BufferError::EndOfBuffer));
    assert_eq!(q.qtype, QueryType::UNKNOWN(28));
    assert_eq!(b.pos(), 512);
}

#[test]
fn address_record_write_gives_the_exact_bytes() {
    let r = a_record("x.y", [10, 20, 30, 40], 0x01020304);
    let mut b = BytePacketBuffer::new();
    assert_eq!(r.write(&mut b), Ok(19));
    assert_eq!(
        b.filled(),
        &[1, b'x', 1, b'y', 0, 0, 1, 0, 1, 1, 2, 3, 4, 0, 4, 10, 20, 30, 40][..]
    );
}

#[test]
fn unknown_record_is_left_out_on_writing() {
    let r = DnsRecord::Unknown { domain: "x.y".to_string(), qtype: 28, data_len: 16, ttl: 5 };
    let mut b = BytePacketBuffer::new();
    b.seek(7).unwrap();
    assert_eq!(r.write(&mut b), Ok(0));
    assert_eq!(b.pos(), 7);
    b.seek(700).unwrap();
    assert_eq!(r.write(&mut b), Ok(0));
}

#[test]
fn address_record_write_fails_at_the_end_of_the_buffer() {
    let r = a_record("x.y", [1, 2, 3, 4], 1);
    let mut b = BytePacketBuffer::new();
    b.seek(494).unwrap();
    assert_eq!(r.write(&mut b), Err(BufferError::EndOfBuffer));
    assert_eq!(b.pos(), 512);
    b.seek(493).unwrap();
    assert_eq!(r.write(&mut b), Ok(19));
}

#[test]
fn address_record_is_read_with_octets_in_network_order() {
    let mut b = BytePacketBuffer::new();
    let bytes = [3, b'W', b'w', b'W', 0, 0, 1, 0, 1, 0, 0, 0x0E, 0x10, 0, 4, 93, 184, 216, 34];
    b.buf[..bytes.len()].copy_from_slice(&bytes);
    assert_eq!(DnsRecord::read(&mut b), Ok(a_record("www", [93, 184, 216, 34], 3600)));
    assert_eq!(b.pos(), 19);
}

#[test]
fn unknown_record_is_read_and_its_data_passed_over() {
    let mut b = BytePacketBuffer::new();
    let bytes = [1, b'n', 0, 0, 28, 0, 1, 0, 0, 0, 60, 0, 3, 0xAA, 0xBB, 0xCC, 0x55];
    b.buf[..bytes.len()].copy_from_slice(&bytes);
    assert_eq!(
        DnsRecord::read(&mut b),
        Ok(DnsRecord::Unknown { domain: "n".to_string(), qtype: 28, data_len: 3, ttl: 60 })
    );
    assert_eq!(b.pos(), 16);
    assert_eq!(b.read(), Ok(0x55));
}

#[test]
fn unknown_record_with_a_false_length_moves_the_cursor_beyond_the_buffer() {
    let mut b = BytePacketBuffer::new();
    let bytes = [0, 0, 99, 0, 1, 0, 0, 0, 1, 0xFF, 0xFF];
    b.buf[..bytes.len()].copy_from_slice(&bytes);
    assert_eq!(
        DnsRecord::read(&mut b),
        Ok(DnsRecord::Unknown { domain: String::new(), qtype: 99, data_len: 65535, ttl: 1 })
    );
    assert_eq!(b.pos(), 11 + 65535);
    assert_eq!(DnsRecord::read(&mut b), Err(BufferError::EndOfBuffer));
}

#[test]
fn record_read_fails_when_the_address_is_cut_off() {
    let mut b = BytePacketBuffer::new();
    let bytes = [0, 0, 1, 0, 1, 0, 0, 0, 1, 0, 4, 1, 2];
    b.buf[499..512].copy_from_slice(&bytes);
    b.seek(499).unwrap();
    assert_eq!(DnsRecord::read(&mut b), Err(BufferError::EndOfBuffer));
    assert_eq!(b.pos(), 512);
}

#[test]
fn new_packet_is_empty() {
    let p = DnsPacket::new();
    assert_eq!(p.header.id, 0);
    assert!(p.questions.is_empty() && p.answers.is_empty());
    assert!(p.authorities.is_empty() && p.resources.is_empty());
}

fn sample_packet() -> DnsPacket {
    let mut p = DnsPacket::new();
    p.header.id = 6666;
    p.header.recursion_desired = true;
    p.header.response = true;
    p.header.opcode = 9;
    p.questions.push(DnsQuestion::new("google.com".to_string(), QueryType::A));
    p.questions.push(DnsQuestion::new("example.org".to_string(), QueryType::UNKNOWN(15)));
    p.answers.push(a_record("google.com", [142, 250, 72, 14], 300));
    p.authorities.push(a_record("ns1.google.com", [216, 239, 32, 10], 86400));
    p.resources.push(a_record("a.root-servers.net", [198, 41, 0, 4], 1));
    p.resources.push(a_record("b.root-servers.net", [199, 9, 14, 201], u32::MAX));
    p
}

#[test]
fn packet_round_trips_through_a_buffer() {
    let mut p = sample_packet();
    let mut b = BytePacketBuffer::new();
    assert_eq!(p.write(&mut b), Ok(()));
    let end = b.pos();
    b.seek(0).unwrap();
    let q = DnsPacket::from_buffer(&mut b).unwrap();
    assert_eq!(b.pos(), end);
    assert_eq!(q.header, p.header);
    assert_eq!(q.questions, p.questions);
    assert_eq!(q.answers, p.answers);
    assert_eq!(q.authorities, p.authorities);
    assert_eq!(q.resources, p.resources);
}

#[test]
fn packet_round_trip_lower_cases_names() {
    let mut p = DnsPacket::new();
    p.questions.push(DnsQuestion::new("WWW.Example.COM".to_string(), QueryType::A));
    p.answers.push(a_record("WWW.Example.COM", [1, 2, 3, 4], 9));
    let mut b = BytePacketBuffer::new();
    p.write(&mut b).unwrap();
    b.seek(0).unwrap();
    let q = DnsPacket::from_buffer(&mut b).unwrap();
    assert_eq!(q.questions[0].name, "www.example.com");
    assert_eq!(q.answers, vec![a_record("www.example.com", [1, 2, 3, 4], 9)]);
}

#[test]
fn packet_write_sets_the_counts_from_the_sections() {
    let mut p = sample_packet();
    p.header.questions = 40;
    p.header.answers = 0;
    p.header.authoritative_entries = 77;
    p.header.resource_entries = 1;
    let mut b = BytePacketBuffer::new();
    assert_eq!(p.write(&mut b), Ok(()));
    assert_eq!(p.header.questions, 2);
    assert_eq!(p.header.answers, 1);
    assert_eq!(p.header.authoritative_entries, 1);
    assert_eq!(p.header.resource_entries, 2);
    assert_eq!(&b.buf[4..12], &[0, 2, 0, 1, 0, 1, 0, 2][..]);
}

#[test]
fn packet_write_counts_an_unknown_record_that_it_leaves_out() {
    let mut p = DnsPacket::new();
    p.answers.push(DnsRecord::Unknown { domain: "x".to_string(), qtype: 16, data_len: 0, ttl: 0 });
    let mut b = BytePacketBuffer::new();
    assert_eq!(p.write(&mut b), Ok(()));
    assert_eq!(b.pos(), 12);
    assert_eq!(p.header.answers, 1);
}

#[test]
fn packet_write_fails_for_a_label_that_is_too_long() {
    let mut p = DnsPacket::new();
    p.questions.push(DnsQuestion::new("ok.com".to_string(), QueryType::A));
    p.answers.push(a_record(&"b".repeat(70), [1, 1, 1, 1], 1));
    p.resources.push(a_record("never.written", [1, 1, 1, 1], 1));
    let mut b = BytePacketBuffer::new();
    assert_eq!(p.write(&mut b), Err(BufferError::LabelTooLong));
    assert_eq!(b.pos(), 12 + 12);
    assert_eq!(p.header.answers, 1);
}

#[test]
fn packet_write_fails_when_the_buffer_is_full() {
    let mut p = DnsPacket::new();
    for i in 0..40u8 {
        p.answers.push(a_record("some.name.example", [10, 0, 0, i], 1));
    }
    let mut b = BytePacketBuffer::new();
    assert_eq!(p.write(&mut b), Err(BufferError::EndOfBuffer));
    assert_eq!(b.pos(), 512);
}

#[test]
fn from_buffer_reads_as_many_entries_as_the_header_says() {
    let mut p = sample_packet();
    let mut b = BytePacketBuffer::new();
    p.write(&mut b).unwrap();
    b.buf[11] = 1;
    b.seek(0).unwrap();
    let q = DnsPacket::from_buffer(&mut b).unwrap();
    assert_eq!(q.resources.len(), 1);
    assert_eq!(q.header.resource_entries, 1);
}

#[test]
fn from_buffer_fails_for_a_header_that_is_cut_off() {
    let mut b = BytePacketBuffer::new();
    b.seek(505).unwrap();
    assert_eq!(DnsPacket::from_buffer(&mut b).err(), Some(BufferError::EndOfBuffer));
    assert_eq!(b.pos(), 512);
}

#[test]
fn from_buffer_fails_for_a_question_with_a_pointer_loop() {
    let mut b = BytePacketBuffer::new();
    b.buf[5] = 1;
    b.buf[12] = 0xC0;
    b.buf[13] = 12;
    assert_eq!(DnsPacket::from_buffer(&mut b).err(), Some(BufferError::JumpLimitExceeded));
}

#[test]
fn from_buffer_of_zeros_is_an_empty_message() {
    let mut b = BytePacketBuffer::new();
    let p = DnsPacket::from_buffer(&mut b).unwrap();
    assert_eq!(b.pos(), 12);
    assert!(p.questions.is_empty() && p.answers.is_empty());
}

#[test]
fn lists_are_read_and_written_one_entry_after_the_other() {
    let records = vec![a_record("a", [1, 1, 1, 1], 1), a_record("b", [2, 2, 2, 2], 2)];
    let mut b = BytePacketBuffer::new();
    assert_eq!(write_record_list(&records, &mut b), Ok(()));
    let end = b.pos();
    b.seek(0).unwrap();
    assert_eq!(read_record_list(&mut b, 2), Ok(records));
    assert_eq!(b.pos(), end);
    b.seek(0).unwrap();
    assert_eq!(read_question_list(&mut b, 0), Ok(vec![]));
    assert_eq!(b.pos(), 0);
}
