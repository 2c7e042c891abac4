use allenap_libtftp::options::Options;
use allenap_libtftp::packet::{BlockNum, ErrorCode, ErrorMessage, Filename, Packet, TransferMode};
use allenap_libtftp::{route, Handler, Request};

struct Defaults;

impl Handler<u32> for Defaults {}

#[test]
fn default_handler_rejects_reads() {
    let request = Packet::Read(Filename("f".to_string()), TransferMode::Octet, Options::new());
    match Defaults.handle(1, 2, request) {
        Some(Packet::Error(ErrorCode::AccessViolation, ErrorMessage(m))) => {
            assert_eq!(m, "read not supported")
        },
        other => panic!("unexpected {:?}", other),
    }
}

#[test]
fn default_handler_rejects_writes() {
    let request = Packet::Write(Filename("f".to_string()), TransferMode::Octet, Options::new());
    match Defaults.handle(1, 2, request) {
        Some(Packet::Error(ErrorCode::AccessViolation, ErrorMessage(m))) => {
            assert_eq!(m, "write not supported")
        },
        other => panic!("unexpected {:?}", other),
    }
}

#[test]
fn default_handler_ignores_other_packets() {
    assert!(Defaults.handle(1, 2, Packet::Ack(BlockNum(3))).is_none());
}

#[test]
fn route_sorts_packets_by_shape() {
    let request = Packet::Read(Filename("f".to_string()), TransferMode::NetASCII, Options::new());
    assert!(matches!(route(request), Request::Read(_, TransferMode::NetASCII, _)));
    let request = Packet::Write(Filename("g".to_string()), TransferMode::Octet, Options::new());
    match route(request) {
        Request::Write(Filename(name), TransferMode::Octet, _) => assert_eq!(name, "g"),
        other => panic!("unexpected {:?}", other),
    }
    assert!(matches!(
        route(Packet::Ack(BlockNum(5))),
        Request::Other(Packet::Ack(BlockNum(5)))
    ));
}
