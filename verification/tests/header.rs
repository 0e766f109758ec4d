use dns_resolver::{BufferError, BytePacketBuffer, DnsHeader, QueryType, ResultCode};

#[test]
fn result_code_from_num_maps_unknown_numbers_to_noerror() {
    assert_eq!(ResultCode::from_num(0), ResultCode::NOERROR);
    assert_eq!(ResultCode::from_num(1), ResultCode::FORMERR);
    assert_eq!(ResultCode::from_num(2), ResultCode::SERVFAIL);
    assert_eq!(ResultCode::from_num(3), ResultCode::NXDOMAIN);
    assert_eq!(ResultCode::from_num(4), ResultCode::NOTIMP);
    assert_eq!(ResultCode::from_num(5), ResultCode::REFUSED);
    assert_eq!(ResultCode::from_num(6), ResultCode::NOERROR);
    assert_eq!(ResultCode::from_num(255), ResultCode::NOERROR);
}

#[test]
fn result_code_numbers_round_trip() {
    for n in 0u8..=5 {
        assert_eq!(ResultCode::from_num(n).to_num(), n);
    }
}

#[test]
fn query_type_numbers() {
    assert_eq!(QueryType::A.to_num(), 1);
    assert_eq!(QueryType::UNKNOWN(28).to_num(), 28);
    assert_eq!(QueryType::from_num(1), QueryType::A);
    assert_eq!(QueryType::from_num(28), QueryType::UNKNOWN(28));
    assert_eq!(QueryType::from_num(0), QueryType::UNKNOWN(0));
    for n in [0u16, 1, 2, 15, 255, 65535] {
        assert_eq!(QueryType::from_num(n).to_num(), n);
    }
}

#[test]
fn new_header_is_all_zero() {
    let h = DnsHeader::new();
    assert_eq!(h.id, 0);
    assert!(!h.recursion_desired && !h.truncated_message && !h.authoritative_answer);
    assert_eq!(h.opcode, 0);
    assert!(!h.response);
    assert_eq!(h.rescode, ResultCode::NOERROR);
    assert!(!h.checking_disabled && !h.authed_data && !h.z && !h.recursion_available);
    assert_eq!((h.questions, h.answers, h.authoritative_entries, h.resource_entries), (0, 0, 0, 0));
}

#[test]
fn header_write_packs_the_flags() {
    let mut h = DnsHeader::new();
    h.id = 0x1A2B;
    h.recursion_desired = true;
    h.opcode = 2;
    h.response = true;
    h.rescode = ResultCode::NXDOMAIN;
    h.authed_data = true;
    h.recursion_available = true;
    h.questions = 1;
    h.answers = 2;
    h.authoritative_entries = 0x0304;
    h.resource_entries = 5;
    let mut b = BytePacketBuffer::new();
    assert_eq!(h.write(&mut b), Ok(()));
    assert_eq!(
        b.filled(),
        &[0x1A, 0x2B, 0x91, 0xA3, 0x00, 0x01, 0x00, 0x02, 0x03, 0x04, 0x00, 0x05][..]
    );
}

#[test]
fn header_read_unpacks_the_flags() {
    let mut b = BytePacketBuffer::new();
    b.buf[..12].copy_from_slice(&[0xBE, 0xEF, 0x86, 0x55, 0, 1, 0, 2, 0, 3, 1, 0]);
    let mut h = DnsHeader::new();
    assert_eq!(h.read(&mut b), Ok(()));
    assert_eq!(b.pos(), 12);
    assert_eq!(h.id, 0xBEEF);
    assert!(!h.recursion_desired);
    assert!(h.truncated_message);
    assert!(h.authoritative_answer);
    assert_eq!(h.opcode, 0);
    assert!(h.response);
    assert_eq!(h.rescode, ResultCode::REFUSED);
    assert!(h.checking_disabled);
    assert!(!h.authed_data);
    assert!(h.z);
    assert!(!h.recursion_available);
    assert_eq!(h.questions, 1);
    assert_eq!(h.answers, 2);
    assert_eq!(h.authoritative_entries, 3);
    assert_eq!(h.resource_entries, 256);
}

#[test]
fn header_read_maps_an_unknown_response_code_to_noerror() {
    let mut b = BytePacketBuffer::new();
    b.buf[3] = 0x0F;
    let mut h = DnsHeader::new();
    h.rescode = ResultCode::SERVFAIL;
    assert_eq!(h.read(&mut b), Ok(()));
    assert_eq!(h.rescode, ResultCode::NOERROR);
}

#[test]
fn header_round_trips_for_every_flag() {
    for bits in 0u16..512 {
        let mut h = DnsHeader::new();
        h.id = bits.wrapping_mul(77);
        h.recursion_desired = bits & 1 != 0;
        h.truncated_message = bits & 2 != 0;
        h.authoritative_answer = bits & 4 != 0;
        h.response = bits & 8 != 0;
        h.checking_disabled = bits & 16 != 0;
        h.authed_data = bits & 32 != 0;
        h.z = bits & 64 != 0;
        h.recursion_available = bits & 128 != 0;
        h.opcode = (bits % 16) as u8;
        h.rescode = ResultCode::from_num((bits % 6) as u8);
        h.questions = bits;
        h.resource_entries = 65535 - bits;
        let mut b = BytePacketBuffer::new();
        assert_eq!(h.write(&mut b), Ok(()));
        b.seek(0).unwrap();
        let mut back = DnsHeader::new();
        assert_eq!(back.read(&mut b), Ok(()));
        assert_eq!(back, h);
    }
}

#[test]
fn header_read_beyond_the_buffer_keeps_the_fields_it_did_not_reach() {
    let mut b = BytePacketBuffer::new();
    b.buf[506] = 0x12;
    b.buf[507] = 0x34;
    b.buf[508] = 0x01;
    b.buf[509] = 0x03;
    b.buf[510] = 0x00;
    b.buf[511] = 0x07;
    b.seek(506).unwrap();
    let mut h = DnsHeader::new();
    h.answers = 99;
    assert_eq!(h.read(&mut b), Err(BufferError::EndOfBuffer));
    assert_eq!(b.pos(), 512);
    assert_eq!(h.id, 0x1234);
    assert!(h.recursion_desired);
    assert_eq!(h.rescode, ResultCode::NXDOMAIN);
    assert_eq!(h.questions, 7);
    assert_eq!(h.answers, 99);
}

#[test]
fn header_write_beyond_the_buffer_fails() {
    let mut b = BytePacketBuffer::new();
    b.seek(501).unwrap();
    assert_eq!(DnsHeader::new().write(&mut b), Err(BufferError::EndOfBuffer));
    assert_eq!(b.pos(), 512);
    b.seek(500).unwrap();
    assert_eq!(DnsHeader::new().write(&mut b), Ok(()));
}
