use allenap_libtftp::options::Options;
use allenap_libtftp::packet::{BlockNum, ErrorCode, ErrorMessage, OpCode, Packet};
use allenap_libtftp::rrq::{negotiate, Action, Event, Failure, Ignored, Phase, Transfer};

fn ack(n: u16) -> Vec<u8> {
    let mut buf = vec![0u8; 4];
    Packet::Ack(BlockNum(n)).write(&mut buf).unwrap();
    buf
}

fn data_header(n: u16) -> Vec<u8> {
    vec![0, 3, (n >> 8) as u8, n as u8]
}

fn request_options(bytes: &[u8]) -> Options {
    match Packet::parse(bytes).unwrap() {
        Packet::Read(_, _, options) => options,
        other => panic!("not a read request: {:?}", other),
    }
}

fn file(len: usize) -> Vec<u8> {
    (0..len).map(|i| (i % 251) as u8).collect()
}

#[test]
fn happy_path_with_default_options() {
    let options = request_options(b"\x00\x01hello\x00octet\x00");
    let contents = file(1000);
    let mut t = Transfer::new(&options, Some(1000));
    assert_eq!(t.blksize(), 512);
    assert_eq!(t.timeout(), 8);
    assert!(matches!(t.step(Event::Start), Action::Load));

    assert!(matches!(t.step(Event::Loaded(&contents[..512])), Action::SendThenAwait));
    let mut expected = data_header(1);
    expected.extend_from_slice(&contents[..512]);
    assert_eq!(t.outgoing(), &expected[..]);

    assert!(matches!(t.step(Event::Received(&ack(1))), Action::Load));
    assert!(matches!(t.step(Event::Loaded(&contents[512..])), Action::SendThenAwait));
    let mut expected = data_header(2);
    expected.extend_from_slice(&contents[512..]);
    assert_eq!(t.outgoing().len(), 4 + 488);
    assert_eq!(t.outgoing(), &expected[..]);

    assert!(matches!(t.step(Event::Received(&ack(2))), Action::Finish));
    assert_eq!(t.phase(), Phase::Done);
}

#[test]
fn negotiated_blksize() {
    let options = request_options(b"\x00\x01f\x00octet\x00blksize\x001024\x00");
    let mut t = Transfer::new(&options, Some(5000));
    assert_eq!(t.blksize(), 1024);
    assert!(matches!(t.step(Event::Start), Action::SendThenLoad));
    assert_eq!(t.outgoing(), &b"\x00\x06blksize\x001024\x00"[..]);
    let contents = file(1024);
    assert!(matches!(t.step(Event::Loaded(&contents)), Action::SendThenAwait));
    assert_eq!(t.outgoing().len(), 1028);
    assert_eq!(&t.outgoing()[..4], &data_header(1)[..]);
    assert!(matches!(t.step(Event::Received(&ack(1))), Action::Load));
}

#[test]
fn timeout_and_retransmit() {
    let mut t = Transfer::new(&Options::new(), None);
    assert!(matches!(t.step(Event::Start), Action::Load));
    let contents = file(100);
    assert!(matches!(t.step(Event::Loaded(&contents)), Action::SendThenAwait));
    let sent = t.outgoing().to_vec();
    for _ in 0..8 {
        assert!(matches!(t.step(Event::TimedOut), Action::SendThenAwait));
        assert_eq!(t.outgoing(), &sent[..]);
    }
    assert!(matches!(
        t.step(Event::TimedOut),
        Action::Abort(Failure::TooManyTimeouts)
    ));
    assert_eq!(t.phase(), Phase::Failed);
}

#[test]
fn peer_sent_error() {
    let mut t = Transfer::new(&Options::new(), None);
    t.step(Event::Start);
    let contents = file(512);
    t.step(Event::Loaded(&contents));
    assert!(matches!(t.step(Event::Received(&ack(1))), Action::Load));
    t.step(Event::Loaded(&contents));
    let mut buf = vec![0u8; 32];
    let n = Packet::Error(ErrorCode::NotDefined, ErrorMessage("cancel".to_string()))
        .write(&mut buf)
        .unwrap();
    match t.step(Event::Received(&buf[..n])) {
        Action::Abort(Failure::Peer(ErrorCode::NotDefined, ErrorMessage(m))) => {
            assert_eq!(m, "cancel")
        },
        other => panic!("unexpected {:?}", other),
    }
    assert_eq!(t.phase(), Phase::Failed);
    assert!(matches!(t.step(Event::TimedOut), Action::Abort(Failure::OutOfTurn)));
}

#[test]
fn exact_multiple_file_size() {
    let contents = file(1024);
    let mut t = Transfer::new(&Options::new(), Some(1024));
    assert!(matches!(t.step(Event::Start), Action::Load));
    assert!(matches!(t.step(Event::Loaded(&contents[..512])), Action::SendThenAwait));
    assert_eq!(t.outgoing().len(), 516);
    assert!(matches!(t.step(Event::Received(&ack(1))), Action::Load));
    assert!(matches!(t.step(Event::Loaded(&contents[512..])), Action::SendThenAwait));
    assert_eq!(&t.outgoing()[..4], &data_header(2)[..]);
    assert_eq!(t.outgoing().len(), 516);
    assert!(matches!(t.step(Event::Received(&ack(2))), Action::Load));
    assert!(matches!(t.step(Event::Loaded(&[])), Action::SendThenAwait));
    assert_eq!(t.outgoing(), &data_header(3)[..]);
    assert!(matches!(t.step(Event::Received(&ack(3))), Action::Finish));
}

#[test]
fn tsize_query() {
    let options = request_options(b"\x00\x01f\x00octet\x00tsize\x000\x00");
    let mut t = Transfer::new(&options, Some(1234));
    assert!(matches!(t.step(Event::Start), Action::SendThenLoad));
    assert_eq!(t.outgoing(), &b"\x00\x06tsize\x001234\x00"[..]);
    assert_eq!(t.reply().tsize, Some(1234));
}

#[test]
fn stale_and_unexpected_datagrams_are_ignored() {
    let mut t = Transfer::new(&Options::new(), None);
    t.step(Event::Start);
    t.step(Event::Loaded(&[1, 2, 3]));
    assert!(matches!(
        t.step(Event::Received(&ack(7))),
        Action::Ignore(Ignored::StaleAck(7))
    ));
    assert!(matches!(
        t.step(Event::Received(b"\x00\x03\x00\x01x")),
        Action::Ignore(Ignored::Unexpected(OpCode::DATA))
    ));
    assert!(matches!(
        t.step(Event::Received(&[0, 9])),
        Action::Ignore(Ignored::Mangled(_))
    ));
    assert_eq!(t.phase(), Phase::Waiting);
    assert!(matches!(t.step(Event::Received(&ack(1))), Action::Finish));
}

#[test]
fn read_failure_prepares_error_packet() {
    let mut t = Transfer::new(&Options::new(), None);
    t.step(Event::Start);
    assert!(matches!(
        t.step(Event::LoadFailed("disk".to_string())),
        Action::Abort(Failure::LoadFailed(true))
    ));
    assert_eq!(t.outgoing(), &b"\x00\x05\x00\x00Something broke: disk\x00"[..]);
}

#[test]
fn receive_failure_aborts() {
    let mut t = Transfer::new(&Options::new(), None);
    t.step(Event::Start);
    t.step(Event::Loaded(&[1]));
    assert!(matches!(
        t.step(Event::ReceiveFailed),
        Action::Abort(Failure::ReceiveFailed)
    ));
}

#[test]
fn oversized_block_is_out_of_turn() {
    let mut t = Transfer::new(&Options::new(), None);
    t.step(Event::Start);
    let contents = file(513);
    assert!(matches!(
        t.step(Event::Loaded(&contents)),
        Action::Abort(Failure::OutOfTurn)
    ));
}

#[test]
fn negotiation_rules() {
    let asked = Options {
        blksize: Some(256),
        timeout: Some(0),
        tsize: Some(99),
        windowsize: Some(4),
    };
    let n = negotiate(&asked, Some(10));
    assert_eq!(n.blksize, 512);
    assert_eq!(n.timeout, 8);
    assert_eq!(n.reply, Options::new());
    assert_eq!(n.ignored_tsize, Some(99));

    let asked = Options {
        blksize: Some(512),
        timeout: Some(1),
        tsize: Some(0),
        windowsize: None,
    };
    let n = negotiate(&asked, None);
    assert_eq!(n.blksize, 512);
    assert_eq!(n.timeout, 1);
    assert_eq!(
        n.reply,
        Options {
            blksize: Some(512),
            timeout: Some(1),
            tsize: None,
            windowsize: None,
        }
    );
    assert_eq!(n.ignored_tsize, None);
}
