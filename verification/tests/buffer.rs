use dns_resolver::{BufferError, BytePacketBuffer};

#[test]
fn new_buffer_is_zeroed_with_cursor_at_start() {
    let b = BytePacketBuffer::new();
    assert_eq!(b.pos(), 0);
    assert!(b.buf.iter().all(|x| *x == 0));
    assert_eq!(b.filled().len(), 0);
}

#[test]
fn read_advances_and_returns_bytes_in_order() {
    let mut b = BytePacketBuffer::new();
    b.buf[0] = 0xAB;
    b.buf[1] = 0xCD;
    assert_eq!(b.read(), Ok(0xAB));
    assert_eq!(b.pos(), 1);
    assert_eq!(b.read(), Ok(0xCD));
    assert_eq!(b.pos(), 2);
}

#[test]
fn read_at_byte_512_fails_and_leaves_cursor() {
    let mut b = BytePacketBuffer::new();
    b.buf[511] = 7;
    assert_eq!(b.seek(511), Ok(()));
    assert_eq!(b.read(), Ok(7));
    assert_eq!(b.pos(), 512);
    assert_eq!(b.read(), Err(BufferError::EndOfBuffer));
    assert_eq!(b.pos(), 512);
    assert_eq!(b.seek(100_000), Ok(()));
    assert_eq!(b.read(), Err(BufferError::EndOfBuffer));
    assert_eq!(b.pos(), 100_000);
}

#[test]
fn get_checks_the_position_and_keeps_the_cursor() {
    let mut b = BytePacketBuffer::new();
    b.buf[511] = 9;
    assert_eq!(b.get(511), Ok(9));
    assert_eq!(b.get(512), Err(BufferError::EndOfBuffer));
    assert_eq!(b.get(usize::MAX), Err(BufferError::EndOfBuffer));
    assert_eq!(b.pos(), 0);
}

#[test]
fn get_range_gives_every_range_inside_the_buffer() {
    let mut b = BytePacketBuffer::new();
    b.buf[10] = 1;
    b.buf[11] = 2;
    b.buf[12] = 3;
    b.buf[508..512].copy_from_slice(&[1, 2, 3, 4]);
    assert_eq!(b.get_range(10, 3), Ok(&[1u8, 2, 3][..]));
    assert_eq!(b.get_range(10, 0), Ok(&[][..]));
    assert_eq!(b.get_range(508, 4), Ok(&[1u8, 2, 3, 4][..]));
    assert_eq!(b.get_range(500, 12).map(|r| r.len()), Ok(12));
    assert_eq!(b.get_range(0, 512).map(|r| r.len()), Ok(512));
    assert_eq!(b.get_range(512, 0), Ok(&[][..]));
    assert_eq!(b.pos(), 0);
}

#[test]
fn get_range_beyond_the_buffer_fails() {
    let b = BytePacketBuffer::new();
    assert_eq!(b.get_range(508, 5), Err(BufferError::EndOfBuffer));
    assert_eq!(b.get_range(500, 13), Err(BufferError::EndOfBuffer));
    assert_eq!(b.get_range(0, 513), Err(BufferError::EndOfBuffer));
    assert_eq!(b.get_range(512, 1), Err(BufferError::EndOfBuffer));
    assert_eq!(b.get_range(513, 0), Err(BufferError::EndOfBuffer));
    assert_eq!(b.get_range(usize::MAX, 2), Err(BufferError::EndOfBuffer));
    assert_eq!(b.get_range(2, usize::MAX), Err(BufferError::EndOfBuffer));
    assert_eq!(b.pos(), 0);
}

#[test]
fn read_u16_and_u32_are_big_endian() {
    let mut b = BytePacketBuffer::new();
    b.buf[0] = 0x12;
    b.buf[1] = 0x34;
    b.buf[2] = 0xDE;
    b.buf[3] = 0xAD;
    b.buf[4] = 0xBE;
    b.buf[5] = 0xEF;
    assert_eq!(b.read_u16(), Ok(0x1234));
    assert_eq!(b.read_u32(), Ok(0xDEADBEEF));
    assert_eq!(b.pos(), 6);
}

#[test]
fn read_u16_across_the_end_fails_with_cursor_at_the_end() {
    let mut b = BytePacketBuffer::new();
    b.seek(511).unwrap();
    assert_eq!(b.read_u16(), Err(BufferError::EndOfBuffer));
    assert_eq!(b.pos(), 512);
    b.seek(510).unwrap();
    assert_eq!(b.read_u16(), Ok(0));
    b.seek(509).unwrap();
    assert_eq!(b.read_u32(), Err(BufferError::EndOfBuffer));
    assert_eq!(b.pos(), 512);
    b.seek(508).unwrap();
    assert_eq!(b.read_u32(), Ok(0));
}

#[test]
fn writes_store_big_endian_bytes() {
    let mut b = BytePacketBuffer::new();
    assert_eq!(b.write_u8(0x01), Ok(()));
    assert_eq!(b.write_u16(0xA1B2), Ok(()));
    assert_eq!(b.write_u32(0x01020304), Ok(()));
    assert_eq!(b.write(0xFF), Ok(()));
    assert_eq!(b.pos(), 8);
    assert_eq!(b.filled(), &[0x01, 0xA1, 0xB2, 0x01, 0x02, 0x03, 0x04, 0xFF][..]);
}

#[test]
fn write_beyond_the_end_stores_what_fits_and_fails() {
    let mut b = BytePacketBuffer::new();
    b.seek(510).unwrap();
    assert_eq!(b.write_u32(0x0A0B0C0D), Err(BufferError::EndOfBuffer));
    assert_eq!(b.pos(), 512);
    assert_eq!(b.buf[510], 0x0A);
    assert_eq!(b.buf[511], 0x0B);
    assert_eq!(b.write_u8(1), Err(BufferError::EndOfBuffer));
    assert_eq!(b.write_u16(1), Err(BufferError::EndOfBuffer));
    assert_eq!(b.pos(), 512);
}

#[test]
fn write_all_copies_a_slice() {
    let mut b = BytePacketBuffer::new();
    assert_eq!(b.write_all(b"abc"), Ok(()));
    assert_eq!(b.filled(), &b"abc"[..]);
    assert_eq!(b.write_all(&[]), Ok(()));
    b.seek(511).unwrap();
    assert_eq!(b.write_all(b"xy"), Err(BufferError::EndOfBuffer));
    assert_eq!(b.buf[511], b'x');
    b.seek(600).unwrap();
    assert_eq!(b.write_all(&[]), Ok(()));
}

#[test]
fn step_moves_the_cursor_and_refuses_overflow() {
    let mut b = BytePacketBuffer::new();
    assert_eq!(b.step(5), Ok(()));
    assert_eq!(b.pos(), 5);
    assert_eq!(b.step(1000), Ok(()));
    assert_eq!(b.pos(), 1005);
    assert_eq!(b.step(usize::MAX), Err(BufferError::EndOfBuffer));
    assert_eq!(b.pos(), 1005);
}

#[test]
fn filled_is_clamped_to_the_buffer() {
    let mut b = BytePacketBuffer::new();
    b.seek(3).unwrap();
    assert_eq!(b.filled().len(), 3);
    b.seek(512).unwrap();
    assert_eq!(b.filled().len(), 512);
    b.seek(9999).unwrap();
    assert_eq!(b.filled().len(), 512);
}

#[test]
fn buffer_error_messages() {
    assert_eq!(BufferError::EndOfBuffer.message(), "End of buffer");
    assert_eq!(BufferError::JumpLimitExceeded.message(), "Limit of jumps exceeded");
    assert_eq!(
        BufferError::LabelTooLong.message(),
        "Single label exceeds 63 characters of length"
    );
}
