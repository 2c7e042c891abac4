use allenap_libtftp::options::Options;
use allenap_libtftp::packet::{
    BlockNum, Data, Error, ErrorCode, ErrorMessage, Filename, OpCode, Packet, TransferMode,
};
use allenap_libtftp::packetreader;
use allenap_libtftp::packetwriter;

fn written(packet: Packet, size: usize) -> Vec<u8> {
    let mut buf = vec![0u8; size];
    let n = packet.write(&mut buf).unwrap();
    buf.truncate(n);
    buf
}

#[test]
fn read_request_round_trip() {
    let options = Options {
        blksize: Some(1024),
        timeout: Some(2),
        tsize: Some(0),
        windowsize: None,
    };
    let bytes = written(
        Packet::Read(Filename("hello".to_string()), TransferMode::Octet, options),
        512,
    );
    assert_eq!(
        bytes,
        b"\x00\x01hello\x00octet\x00blksize\x001024\x00timeout\x002\x00tsize\x000\x00".to_vec()
    );
    match Packet::parse(&bytes).unwrap() {
        Packet::Read(Filename(name), TransferMode::Octet, parsed) => {
            assert_eq!(name, "hello");
            assert_eq!(parsed, options);
        },
        other => panic!("unexpected {:?}", other),
    }
}

#[test]
fn write_request_round_trip() {
    let bytes = written(
        Packet::Write(Filename("f".to_string()), TransferMode::NetASCII, Options::new()),
        512,
    );
    assert_eq!(bytes, b"\x00\x02f\x00netascii\x00".to_vec());
    match Packet::parse(&bytes).unwrap() {
        Packet::Write(Filename(name), TransferMode::NetASCII, parsed) => {
            assert_eq!(name, "f");
            assert_eq!(parsed, Options::new());
        },
        other => panic!("unexpected {:?}", other),
    }
}

#[test]
fn data_round_trip() {
    let payload = [7u8, 0, 9];
    let bytes = written(Packet::Data(BlockNum(258), Data(&payload)), 16);
    assert_eq!(bytes, vec![0, 3, 1, 2, 7, 0, 9]);
    match Packet::parse(&bytes).unwrap() {
        Packet::Data(BlockNum(258), Data(d)) => assert_eq!(d, &payload[..]),
        other => panic!("unexpected {:?}", other),
    }
}

#[test]
fn ack_round_trip() {
    let bytes = written(Packet::Ack(BlockNum(65535)), 4);
    assert_eq!(bytes, vec![0, 4, 255, 255]);
    assert!(matches!(Packet::parse(&bytes).unwrap(), Packet::Ack(BlockNum(65535))));
}

#[test]
fn error_round_trip() {
    let bytes = written(
        Packet::Error(ErrorCode::BadOptions, ErrorMessage("no".to_string())),
        16,
    );
    assert_eq!(bytes, vec![0, 5, 0, 8, b'n', b'o', 0]);
    match Packet::parse(&bytes).unwrap() {
        Packet::Error(ErrorCode::BadOptions, ErrorMessage(m)) => assert_eq!(m, "no"),
        other => panic!("unexpected {:?}", other),
    }
}

#[test]
fn oack_round_trip() {
    let options = Options {
        blksize: None,
        timeout: None,
        tsize: Some(1000),
        windowsize: Some(4),
    };
    let bytes = written(Packet::OAck(options), 64);
    assert_eq!(bytes, b"\x00\x06tsize\x001000\x00windowsize\x004\x00".to_vec());
    match Packet::parse(&bytes).unwrap() {
        Packet::OAck(parsed) => assert_eq!(parsed, options),
        other => panic!("unexpected {:?}", other),
    }
}

#[test]
fn data_header_only_write() {
    let mut buf = vec![0u8, 0, 0, 0, 0xaa, 0xbb];
    let n = Packet::Data(BlockNum(1), Data(&[])).write(&mut buf[..4]).unwrap();
    assert_eq!(n, 4);
    assert_eq!(buf, vec![0, 3, 0, 1, 0xaa, 0xbb]);
}

#[test]
fn transfer_mode_ignores_case() {
    let bytes = b"\x00\x01f\x00OcTeT\x00";
    assert!(matches!(
        Packet::parse(bytes).unwrap(),
        Packet::Read(_, TransferMode::Octet, _)
    ));
    let bytes = b"\x00\x01f\x00NETASCII\x00";
    assert!(matches!(
        Packet::parse(bytes).unwrap(),
        Packet::Read(_, TransferMode::NetASCII, _)
    ));
}

#[test]
fn opcode_of_packets() {
    assert!(matches!(Packet::Ack(BlockNum(1)).opcode(), OpCode::ACK));
    assert!(matches!(Packet::OAck(Options::new()).opcode(), OpCode::OACK));
    assert!(matches!(
        Packet::Data(BlockNum(1), Data(&[])).opcode(),
        OpCode::DATA
    ));
}

#[test]
fn parse_rejects_unknown_opcode() {
    assert_eq!(Packet::parse(&[0, 7]).unwrap_err(), Error::InvalidOpCode(7));
    assert_eq!(Packet::parse(&[1, 1]).unwrap_err(), Error::InvalidOpCode(257));
}

#[test]
fn parse_rejects_unknown_transfer_mode() {
    assert_eq!(
        Packet::parse(b"\x00\x01f\x00mail\x00").unwrap_err(),
        Error::InvalidTransferMode("mail".to_string())
    );
}

#[test]
fn parse_rejects_unknown_error_code() {
    assert_eq!(
        Packet::parse(b"\x00\x05\x00\x09x\x00").unwrap_err(),
        Error::InvalidErrorCode(9)
    );
}

#[test]
fn parse_rejects_bad_options() {
    assert_eq!(
        Packet::parse(b"\x00\x06blksize").unwrap_err(),
        Error::InvalidOptions("Option blksize is unterminated".to_string())
    );
    assert_eq!(
        Packet::parse(b"\x00\x01f\x00octet\x00tsize\x00x\x00").unwrap_err(),
        Error::InvalidOptions(
            "Invalid tsize value \"x\": invalid digit found in string".to_string()
        )
    );
}

#[test]
fn parse_reports_short_reads() {
    assert_eq!(
        Packet::parse(&[0]).unwrap_err(),
        Error::ReadError(packetreader::Error::NotEnoughData)
    );
    assert_eq!(
        Packet::parse(&[0, 4, 1]).unwrap_err(),
        Error::ReadError(packetreader::Error::NotEnoughData)
    );
    assert_eq!(
        Packet::parse(b"\x00\x01file").unwrap_err(),
        Error::ReadError(packetreader::Error::StringNotTerminated)
    );
    assert_eq!(
        Packet::parse(b"\x00\x01file\x00octet").unwrap_err(),
        Error::ReadError(packetreader::Error::StringNotTerminated)
    );
}

#[test]
fn write_reports_faults() {
    let mut small = [0u8; 3];
    assert_eq!(
        Packet::Ack(BlockNum(1)).write(&mut small).unwrap_err(),
        Error::WriteError(packetwriter::Error::NotEnoughSpace)
    );
    let mut buf = [0u8; 32];
    assert_eq!(
        Packet::Error(ErrorCode::NotDefined, ErrorMessage("caf\u{e9}".to_string()))
            .write(&mut buf)
            .unwrap_err(),
        Error::WriteError(packetwriter::Error::StringNotASCII)
    );
    assert_eq!(
        Packet::Read(Filename("a\0b".to_string()), TransferMode::Octet, Options::new())
            .write(&mut buf)
            .unwrap_err(),
        Error::WriteError(packetwriter::Error::StringContainsNull)
    );
}

#[test]
fn error_conversions() {
    assert_eq!(
        Error::from(packetreader::Error::NotEnoughData),
        Error::ReadError(packetreader::Error::NotEnoughData)
    );
    assert_eq!(
        Error::from(packetwriter::Error::NotEnoughSpace),
        Error::WriteError(packetwriter::Error::NotEnoughSpace)
    );
}
