use a2s_query::reader::{DecodeError, PacketBytes};

#[test]
fn reads_little_endian_fields() {
    let mut rd = PacketBytes::new(vec![7, 0x34, 0x12, 0xFE, 0xFF, 0xFF, 0xFF, 1, 2, 3, 4]);
    assert_eq!(rd.read_u8(), Ok(7));
    assert_eq!(rd.read_u16(), Ok(0x1234));
    assert_eq!(rd.read_i32(), Ok(-2));
    assert_eq!(rd.read_u32(), Ok(0x04030201));
    assert_eq!(rd.read_u8(), Err(DecodeError::ShortRead));
    assert_eq!(rd.cursor().position(), 11);
}

#[test]
fn i32_extremes() {
    let mut rd = PacketBytes::new(vec![0, 0, 0, 0x80, 0xFF, 0xFF, 0xFF, 0x7F]);
    assert_eq!(rd.read_i32(), Ok(i32::MIN));
    assert_eq!(rd.read_i32(), Ok(i32::MAX));
}

#[test]
fn f32_bits() {
    let mut rd = PacketBytes::new(1.5f32.to_le_bytes().to_vec());
    assert_eq!(rd.read_f32_bits().map(f32::from_bits), Ok(1.5));
}

#[test]
fn short_read_keeps_position() {
    let mut rd = PacketBytes::new(vec![1, 2, 3]);
    assert_eq!(rd.read_u8(), Ok(1));
    assert_eq!(rd.read_u32(), Err(DecodeError::ShortRead));
    assert_eq!(rd.cursor().position(), 1);
    assert_eq!(rd.read_u16(), Ok(0x0302));
}

#[test]
fn until_zero_consumes_terminator() {
    let mut rd = PacketBytes::new(vec![b'a', b'b', 0, 0, b'c']);
    assert_eq!(rd.read_until_zero(), Ok(vec![b'a', b'b']));
    assert_eq!(rd.read_until_zero(), Ok(vec![]));
    assert_eq!(rd.cursor().position(), 4);
    assert_eq!(rd.read_until_zero(), Err(DecodeError::ShortRead));
    assert_eq!(rd.cursor().position(), 4);
}

#[test]
fn read_str_lossy() {
    let mut rd = PacketBytes::new(vec![b'h', 0xFF, b'i', 0]);
    assert_eq!(rd.read_str(), Ok("h\u{FFFD}i".to_string()));
}

#[test]
fn skip_and_read_bytes() {
    let mut rd = PacketBytes::new(vec![1, 2, 3, 4, 5]);
    assert_eq!(rd.skip(2), Ok(()));
    assert_eq!(rd.read_bytes(2), Ok(vec![3, 4]));
    assert_eq!(rd.skip(2), Err(DecodeError::ShortRead));
    assert_eq!(rd.read_bytes(1), Ok(vec![5]));
}

#[test]
fn hex_dump_shows_bytes() {
    let rd = PacketBytes::new(vec![0xFF, 0x41]);
    let dump = rd.hex_dump();
    assert!(dump.contains("ff 41"), "{dump}");
    assert!(dump.starts_with("Length: 2"), "{dump}");
}
