use allenap_libtftp::packetreader::{Error, PacketReader};
use byteorder::{BigEndian, ByteOrder};

#[test]
fn packetreader_test_create_new_buffer() {
    let mut storage = vec![0u8; 10];
    let buffer = PacketReader::new(&mut storage);
    assert_eq!(10, buffer.len());
    assert_eq!(0, buffer.pos());
    assert_eq!(10, buffer.rem());
}

#[test]
fn test_take_u16() {
    let mut storage = vec![0u8; 2];
    BigEndian::write_u16(&mut storage, 1234);
    let mut buffer = PacketReader::new(&mut storage);
    assert_eq!(1234, buffer.take_u16().unwrap());
    assert_eq!(2, buffer.pos());
}

#[test]
fn test_take_u16_out_of_range() {
    let mut storage = vec![0u8; 1];
    let mut buffer = PacketReader::new(&mut storage);
    assert_eq!(Error::NotEnoughData, buffer.take_u16().unwrap_err());
    assert_eq!(0, buffer.pos());
}

#[test]
fn test_take_string() {
    let mut storage = "foobar\0".as_bytes();
    let mut buffer = PacketReader::new(&mut storage);
    assert_eq!("foobar", buffer.take_string().unwrap());
    assert_eq!(7, buffer.pos());
}

#[test]
fn test_take_string_out_of_range() {
    let mut storage = vec!['a' as u8; 10];
    let mut buffer = PacketReader::new(&mut storage);
    assert_eq!(Error::StringNotTerminated, buffer.take_string().unwrap_err());
    assert_eq!(0, buffer.pos());
}

// Further cases.

#[test]
fn take_u16_is_big_endian() {
    let storage = [0x12u8, 0x34, 0xff];
    let mut buffer = PacketReader::new(&storage);
    assert_eq!(0x1234, buffer.take_u16().unwrap());
    assert_eq!(1, buffer.rem());
}

#[test]
fn take_string_replaces_invalid_utf8() {
    let storage = [b'a', 0xff, b'b', 0, b'z'];
    let mut buffer = PacketReader::new(&storage);
    assert_eq!("a\u{FFFD}b", buffer.take_string().unwrap());
    assert_eq!(4, buffer.pos());
}

#[test]
fn take_string_keeps_valid_utf8() {
    let storage = "h\u{e9}\x00".as_bytes();
    let mut buffer = PacketReader::new(storage);
    assert_eq!("h\u{e9}", buffer.take_string().unwrap());
}

#[test]
fn take_empty_string() {
    let storage = [0u8, 7];
    let mut buffer = PacketReader::new(&storage);
    assert_eq!("", buffer.take_string().unwrap());
    assert_eq!(1, buffer.pos());
}

#[test]
fn take_remaining_consumes_everything() {
    let storage = [1u8, 2, 3, 4];
    let mut buffer = PacketReader::new(&storage);
    buffer.take_u16().unwrap();
    assert_eq!(&[3u8, 4][..], buffer.take_remaining().unwrap());
    assert_eq!(4, buffer.pos());
    assert_eq!(0, buffer.rem());
    assert_eq!(&[] as &[u8], buffer.take_remaining().unwrap());
}

#[test]
fn reader_error_messages() {
    assert_eq!(Error::NotEnoughData.message(), "not enough data");
    assert_eq!(Error::StringNotTerminated.message(), "string not terminated with null byte");
}
