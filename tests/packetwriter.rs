use allenap_libtftp::packetwriter::{Error, PacketWriter};

#[test]
fn packetwriter_test_create_new_buffer() {
    let mut storage = vec![0u8; 10];
    let buffer = PacketWriter::new(&mut storage);
    assert_eq!(10, buffer.len());
    assert_eq!(0, buffer.pos());
    assert_eq!(10, buffer.rem());
}

#[test]
fn test_get_underlying_storage() {
    let mut storage = vec![0u8; 10];
    let buffer = PacketWriter::new(&mut storage);
    let (storage, position) = buffer.get();
    assert_eq!(10, storage.len());
    assert_eq!(0, position);
}

#[test]
fn test_put_u16() {
    let mut storage = vec![0u8; 3];
    let mut buffer = PacketWriter::new(&mut storage);
    buffer.put_u16(1234).unwrap();
    assert_eq!(2, buffer.pos());
    assert_eq!((&mut [4u8, 210, 0][..], 2), buffer.get());
}

#[test]
fn test_put_u16_out_of_range() {
    let mut storage = vec![0u8; 1];
    let mut buffer = PacketWriter::new(&mut storage);
    assert_eq!(Error::NotEnoughSpace, buffer.put_u16(1).unwrap_err());
    assert_eq!(0, buffer.pos());
}

#[test]
fn test_put_string() {
    let mut storage = vec![0u8; 5];
    let mut buffer = PacketWriter::new(&mut storage);
    buffer.put_string("foo").unwrap();
    assert_eq!(4, buffer.pos());
    assert_eq!((&mut [102u8, 111, 111, 0, 0][..], 4), buffer.get());
}

#[test]
fn test_put_string_out_of_range() {
    let mut storage = vec![0u8; 6];
    let mut buffer = PacketWriter::new(&mut storage);
    assert_eq!(Error::NotEnoughSpace, buffer.put_string("foobar").unwrap_err());
    assert_eq!(0, buffer.pos());
}

#[test]
fn test_put_string_not_ascii() {
    let mut storage = vec![0u8; 6];
    let mut buffer = PacketWriter::new(&mut storage);
    assert_eq!(Error::StringNotASCII, buffer.put_string("â€¦").unwrap_err());
    assert_eq!(0, buffer.pos());
}

#[test]
fn test_put_string_with_null() {
    let mut storage = vec![0u8; 6];
    let mut buffer = PacketWriter::new(&mut storage);
    assert_eq!(Error::StringContainsNull, buffer.put_string("foo\0bar").unwrap_err());
    assert_eq!(0, buffer.pos());
}

// Further cases.

#[test]
fn put_string_needs_room_for_the_terminator() {
    let mut storage = vec![0u8; 4];
    let mut buffer = PacketWriter::new(&mut storage);
    buffer.put_u16(9).unwrap();
    assert_eq!(Error::NotEnoughSpace, buffer.put_string("ab").unwrap_err());
    assert_eq!(2, buffer.pos());
    buffer.put_string("a").unwrap();
    assert_eq!((&mut [0u8, 9, b'a', 0][..], 4), buffer.get());
}

#[test]
fn put_empty_string_writes_terminator() {
    let mut storage = vec![9u8; 1];
    let mut buffer = PacketWriter::new(&mut storage);
    buffer.put_string("").unwrap();
    assert_eq!((&mut [0u8][..], 1), buffer.get());
}

#[test]
fn put_bytes_may_fill_the_buffer() {
    let mut storage = vec![0u8; 3];
    let mut buffer = PacketWriter::new(&mut storage);
    buffer.put_bytes(&[1, 2, 3]).unwrap();
    assert_eq!(0, buffer.rem());
    assert_eq!(Error::NotEnoughSpace, buffer.put_bytes(&[4]).unwrap_err());
    assert_eq!((&mut [1u8, 2, 3][..], 3), buffer.get());
}

#[test]
fn put_u16_writes_big_endian() {
    let mut storage = vec![0u8; 2];
    let mut buffer = PacketWriter::new(&mut storage);
    buffer.put_u16(0xabcd).unwrap();
    assert_eq!((&mut [0xabu8, 0xcd][..], 2), buffer.get());
}

#[test]
fn writer_error_messages() {
    assert_eq!(Error::NotEnoughSpace.message(), "not enough space for packet data");
    assert_eq!(Error::StringNotASCII.message(), "string is not ASCII");
    assert_eq!(Error::StringContainsNull.message(), "string contains null byte");
}
