use allenap_libtftp::options::{OptionString, OptionStringIter, Options};
use allenap_libtftp::packetwriter::PacketWriter;

#[test]
fn test_creating_new_options() {
    let options = Options::new();
    assert_eq!(options.blksize, None);
    assert_eq!(options.timeout, None);
    assert_eq!(options.tsize, None);
    assert_eq!(options.windowsize, None);
}

#[test]
fn test_parsing_blksize() {
    assert_eq!(Options::parse_blksize("123"), Ok(123u16));
    assert_eq!(
        Options::parse_blksize("foo"),
        Err("Invalid blksize value \"foo\": ".to_string() + "invalid digit found in string")
    );
    assert_eq!(
        Options::parse_blksize("65536"),
        Err("Invalid blksize value \"65536\": ".to_string()
            + "number too large to fit in target type")
    );
}

#[test]
fn test_parsing_timeout() {
    assert_eq!(Options::parse_timeout("123"), Ok(123u8));
    assert_eq!(
        Options::parse_timeout("foo"),
        Err("Invalid timeout value \"foo\": ".to_string() + "invalid digit found in string")
    );
    assert_eq!(
        Options::parse_timeout("256"),
        Err("Invalid timeout value \"256\": ".to_string()
            + "number too large to fit in target type")
    );
}

#[test]
fn test_parsing_tsize() {
    assert_eq!(Options::parse_tsize("123"), Ok(123u64));
    assert_eq!(
        Options::parse_tsize("foo"),
        Err("Invalid tsize value \"foo\": ".to_string() + "invalid digit found in string")
    );
    assert_eq!(
        Options::parse_tsize("18446744073709551616"),
        Err("Invalid tsize value \"18446744073709551616\": ".to_string()
            + "number too large to fit in target type")
    );
}

#[test]
fn test_parsing_windowsize() {
    assert_eq!(Options::parse_windowsize("123"), Ok(123u16));
    assert_eq!(
        Options::parse_windowsize("foo"),
        Err("Invalid windowsize value \"foo\": ".to_string() + "invalid digit found in string")
    );
    assert_eq!(
        Options::parse_windowsize("65536"),
        Err("Invalid windowsize value \"65536\": ".to_string()
            + "number too large to fit in target type")
    );
}

#[test]
fn test_parsing_options() {
    let buf = "blksize\067\0timeout\076\0tsize\098\0windowsize\0429\0".as_bytes();
    let options = Options::parse(buf).unwrap();
    assert_eq!(options.blksize, Some(67));
    assert_eq!(options.timeout, Some(76));
    assert_eq!(options.tsize, Some(98));
    assert_eq!(options.windowsize, Some(429));
}

#[test]
fn test_parsing_empty_options() {
    let buf = "".as_bytes();
    let options = Options::parse(buf).unwrap();
    assert_eq!(options.blksize, None);
    assert_eq!(options.timeout, None);
    assert_eq!(options.tsize, None);
    assert_eq!(options.windowsize, None);
}

#[test]
fn test_parsing_incorrectly_terminated_option_results_in_error() {
    let buf = "blksize".as_bytes(); // No trailing null byte.
    assert_eq!(Options::parse(buf).unwrap_err(), "Option blksize is unterminated");
}

#[test]
fn test_parsing_incorrectly_terminated_value_results_in_error() {
    let buf = "blksize\067".as_bytes(); // No trailing null byte.
    assert_eq!(
        Options::parse(buf).unwrap_err(),
        "Option blksize has unterminated value 67"
    );
}

#[test]
fn test_parsing_option_without_value_results_in_error() {
    let buf = "foo\0".as_bytes();
    assert_eq!(
        Options::parse(buf).unwrap_err(),
        "Option foo has no corresponding value"
    );
}

#[test]
fn test_parsing_option_with_empty_value_results_in_error() {
    let buf = "blksize\0\0".as_bytes();
    assert_eq!(
        Options::parse(buf).unwrap_err(),
        "Invalid blksize value \"\": ".to_string() + "cannot parse integer from empty string"
    );
}

#[test]
fn test_split() {
    let buf = "one\0two\0three".as_bytes();
    let mut iter = OptionStringIter::new(buf);
    assert_eq!(iter.next(), OptionString::Terminated("one".as_bytes()));
    assert_eq!(iter.next(), OptionString::Terminated("two".as_bytes()));
    assert_eq!(iter.next(), OptionString::Unterminated("three".as_bytes()));
    assert_eq!(iter.next(), OptionString::End);
}

#[test]
fn test_split_unterminated() {
    let buf = "one".as_bytes();
    let mut iter = OptionStringIter::new(buf);
    assert_eq!(iter.next(), OptionString::Unterminated("one".as_bytes()));
    assert_eq!(iter.next(), OptionString::End);
}

#[test]
fn test_split_with_empty() {
    let buf = "one\0\0three".as_bytes();
    let mut iter = OptionStringIter::new(buf);
    assert_eq!(iter.next(), OptionString::Terminated("one".as_bytes()));
    assert_eq!(iter.next(), OptionString::Terminated("".as_bytes()));
    assert_eq!(iter.next(), OptionString::Unterminated("three".as_bytes()));
    assert_eq!(iter.next(), OptionString::End);
}

#[test]
fn test_split_empty() {
    let buf = "".as_bytes();
    let mut iter = OptionStringIter::new(buf);
    assert_eq!(iter.next(), OptionString::End);
}

// Further cases.

#[test]
fn unknown_options_are_dropped() {
    let buf = "UNKNOWN\x00x\x00blksize\x00512\x00".as_bytes();
    let options = Options::parse(buf).unwrap();
    assert_eq!(options.blksize, Some(512));
    assert_eq!(options.timeout, None);
    assert_eq!(options.tsize, None);
    assert_eq!(options.windowsize, None);
}

#[test]
fn option_names_ignore_case() {
    let buf = "BlkSize\x001024\x00TIMEOUT\x005\x00".as_bytes();
    let options = Options::parse(buf).unwrap();
    assert_eq!(options.blksize, Some(1024));
    assert_eq!(options.timeout, Some(5));
}

#[test]
fn option_value_overflow_is_an_error() {
    let buf = "blksize\x0065536\x00".as_bytes();
    assert_eq!(
        Options::parse(buf).unwrap_err(),
        "Invalid blksize value \"65536\": number too large to fit in target type"
    );
}

#[test]
fn option_value_with_plus_sign() {
    assert_eq!(Options::parse_blksize("+512"), Ok(512));
    assert_eq!(
        Options::parse_blksize("+"),
        Err("Invalid blksize value \"+\": invalid digit found in string".to_string())
    );
    assert_eq!(
        Options::parse_blksize("-1"),
        Err("Invalid blksize value \"-1\": invalid digit found in string".to_string())
    );
}

#[test]
fn option_value_is_quoted_with_escapes() {
    assert_eq!(
        Options::parse_timeout("a\"b"),
        Err("Invalid timeout value \"a\\\"b\": invalid digit found in string".to_string())
    );
}

#[test]
fn option_largest_values() {
    assert_eq!(Options::parse_blksize("65535"), Ok(65535));
    assert_eq!(Options::parse_timeout("255"), Ok(255));
    assert_eq!(Options::parse_tsize("18446744073709551615"), Ok(u64::MAX));
}

#[test]
fn later_option_overrides_earlier() {
    let buf = "blksize\x00600\x00blksize\x00700\x00".as_bytes();
    assert_eq!(Options::parse(buf).unwrap().blksize, Some(700));
}

#[test]
fn is_set_when_any_option_is() {
    let mut options = Options::new();
    assert!(!options.is_set());
    options.windowsize = Some(4);
    assert!(options.is_set());
}

#[test]
fn options_write_in_canonical_order() {
    let options = Options {
        blksize: Some(1024),
        timeout: Some(3),
        tsize: Some(0),
        windowsize: Some(65535),
    };
    let mut storage = vec![0u8; 64];
    let mut writer = PacketWriter::new(&mut storage);
    options.write(&mut writer).unwrap();
    let (buf, len) = writer.get();
    assert_eq!(
        &buf[..len],
        "blksize\x001024\x00timeout\x003\x00tsize\x000\x00windowsize\x0065535\x00".as_bytes()
    );
}

#[test]
fn empty_options_write_nothing() {
    let mut storage = vec![0u8; 4];
    let mut writer = PacketWriter::new(&mut storage);
    Options::new().write(&mut writer).unwrap();
    assert_eq!(writer.pos(), 0);
}

#[test]
fn options_round_trip() {
    let options = Options {
        blksize: Some(8),
        timeout: None,
        tsize: Some(u64::MAX),
        windowsize: Some(1),
    };
    let mut storage = vec![0u8; 128];
    let mut writer = PacketWriter::new(&mut storage);
    options.write(&mut writer).unwrap();
    let (buf, len) = writer.get();
    assert_eq!(Options::parse(&buf[..len]).unwrap(), options);
}

#[test]
fn options_write_without_room_fails() {
    let options = Options {
        blksize: Some(1024),
        timeout: None,
        tsize: None,
        windowsize: None,
    };
    let mut storage = vec![0u8; 12];
    let mut writer = PacketWriter::new(&mut storage);
    assert!(options.write(&mut writer).is_err());
}

#[test]
fn non_utf8_option_name_is_replaced_in_message() {
    let buf = [0x66u8, 0xff];
    assert_eq!(
        Options::parse(&buf).unwrap_err(),
        "Option f\u{FFFD} is unterminated"
    );
}

#[test]
fn option_name_with_kelvin_sign_lowercases_to_k() {
    let buf = "BL\u{212A}SIZE\x001024\x00".as_bytes();
    assert_eq!(Options::parse(buf).unwrap().blksize, Some(1024));
}

#[test]
fn option_name_must_lowercase_exactly() {
    let buf = "blksize2\x001024\x00".as_bytes();
    assert_eq!(Options::parse(buf).unwrap().blksize, None);
}
