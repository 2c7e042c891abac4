//! The engine that answers a read request: option negotiation, then the
//! stop-and-wait send loop, as a state machine. The caller owns the socket
//! and the file: it performs each action that `Transfer::step` returns and
//! reports back what happened as the next event.

use crate::options::Options;
use crate::packet::{
    decode, encode, frame_opcode, lemma_be_round_trip, opcode_of, BlockNum, Data,
    Error, ErrorCode, ErrorMessage, Fault, Frame, OpCode, Packet,
};
use crate::options::{decimal_chars, digit_char, lemma_decimal_chars, option_fields};
use crate::packetwriter::{self, be_octets, emit, field_fault, overwrite, Field};
use vstd::utf8::encode_utf8;
use vstd::prelude::*;
use vstd::string::*;

verus! {

/// The block size used unless the client asks for at least this much.
pub const DEFAULT_BLKSIZE: u16 = 512;

/// The receive time-out, in seconds, unless the client asks for another.
pub const DEFAULT_TIMEOUT: u8 = 8;

/// How many times a block is sent again after a time-out before the
/// transfer is given up.
pub const MAX_RETRANSMITS: u8 = 8;

/// The options a transfer runs with, and those acknowledged to the peer.
#[derive(Debug, Clone, Copy, PartialEq, Eq, Structural)]
pub struct Negotiation {
    /// Octets per data block.
    pub blksize: u16,
    /// Receive time-out, in seconds.
    pub timeout: u8,
    /// The accepted options, to be sent in an OACK when any is set.
    pub reply: Options,
    /// A transfer size the client sent other than the query value 0; it is
    /// ignored.
    pub ignored_tsize: Option<u64>,
}

/// The negotiation for a client's options and, when it is known, the length
/// of the file.
pub open spec fn negotiation(o: Options, file_len: Option<u64>) -> Negotiation {
    let blksize_ok = o.blksize matches Some(b) && b >= DEFAULT_BLKSIZE;
    let timeout_ok = o.timeout matches Some(t) && t >= 1;
    Negotiation {
        blksize: if blksize_ok {
            o.blksize->Some_0
        } else {
            DEFAULT_BLKSIZE
        },
        timeout: if timeout_ok {
            o.timeout->Some_0
        } else {
            DEFAULT_TIMEOUT
        },
        reply: Options {
            blksize: if blksize_ok {
                o.blksize
            } else {
                None
            },
            timeout: if timeout_ok {
                o.timeout
            } else {
                None
            },
            tsize: if o.tsize == Some(0u64) {
                file_len
            } else {
                None
            },
            windowsize: None,
        },
        ignored_tsize: match o.tsize {
            Some(t) => if t != 0 {
                Some(t)
            } else {
                None
            },
            None => None,
        },
    }
}

/// Works out the options of a transfer: a requested block size of at least
/// 512 is accepted (smaller ones fall back to 512), a requested time-out of
/// at least one second is accepted (else 8 seconds), and a transfer size
/// query is answered with the file's length.
pub fn negotiate(options: &Options, file_len: Option<u64>) -> (r: Negotiation)
    ensures
        r == negotiation(*options, file_len),
{
    let mut reply = Options::new();
    let blksize = match options.blksize {
        Some(b) => if b >= DEFAULT_BLKSIZE {
            reply.blksize = Some(b);
            b
        } else {
            DEFAULT_BLKSIZE
        },
        None => DEFAULT_BLKSIZE,
    };
    let timeout = match options.timeout {
        Some(t) => if t >= 1 {
            reply.timeout = Some(t);
            t
        } else {
            DEFAULT_TIMEOUT
        },
        None => DEFAULT_TIMEOUT,
    };
    let ignored_tsize = match options.tsize {
        Some(t) => if t == 0 {
            reply.tsize = file_len;
            None
        } else {
            Some(t)
        },
        None => None,
    };
    Negotiation { blksize, timeout, reply, ignored_tsize }
}

/// Where a transfer stands.
#[derive(Debug, Clone, Copy, PartialEq, Eq, Structural)]
pub enum Phase {
    /// Nothing has been sent yet.
    Opening,
    /// The next block is to be read from the file.
    Loading,
    /// A block was sent; its acknowledgement is awaited.
    Waiting,
    /// The last block was acknowledged.
    Done,
    /// The transfer was given up.
    Failed,
}

/// What happened since the last action.
pub enum Event<'a> {
    /// The transfer begins.
    Start,
    /// The next block was read from the file: these octets, at most a block
    /// size of them; fewer at the end of the file.
    Loaded(&'a [u8]),
    /// Reading the file failed, for this reason.
    LoadFailed(String),
    /// A datagram arrived from the peer.
    Received(&'a [u8]),
    /// No datagram arrived within the time-out.
    TimedOut,
    /// Receiving failed otherwise.
    ReceiveFailed,
}

/// A datagram that the transfer passes over.
#[derive(Debug)]
pub enum Ignored {
    /// An acknowledgement of another block than the one in flight.
    StaleAck(u16),
    /// A well-formed packet of a kind that the peer should not send now.
    Unexpected(OpCode),
    /// A datagram that does not decode.
    Mangled(Error),
}

/// Why a transfer was given up.
#[derive(Debug)]
pub enum Failure {
    /// The peer sent an error.
    Peer(ErrorCode, ErrorMessage),
    /// The block was sent again too often without an acknowledgement.
    TooManyTimeouts,
    /// Receiving from the peer failed.
    ReceiveFailed,
    /// Reading the file failed; when `true`, `outgoing()` holds an error
    /// packet to send to the peer, as a courtesy.
    LoadFailed(bool),
    /// The option acknowledgement does not fit in the send buffer.
    Unencodable(packetwriter::Error),
    /// An event that does not fit the phase of the transfer, or a block
    /// larger than the block size.
    OutOfTurn,
}

/// What to do next.
#[derive(Debug)]
pub enum Action {
    /// Send `outgoing()`, then read the next block and report it.
    SendThenLoad,
    /// Read the next block and report it.
    Load,
    /// Send `outgoing()`, then wait for a datagram, up to the time-out.
    SendThenAwait,
    /// Pass over what was received and keep waiting, up to the time-out.
    Ignore(Ignored),
    /// The transfer is complete.
    Finish,
    /// The transfer is given up.
    Abort(Failure),
}

/// An event, with its strings as characters and its octets as sequences.
pub enum Happening {
    Start,
    Loaded(Seq<u8>),
    LoadFailed(Seq<char>),
    Received(Seq<u8>),
    TimedOut,
    ReceiveFailed,
}

/// A failure, with its strings as characters.
pub enum Outcome {
    Peer(ErrorCode, Seq<char>),
    TooManyTimeouts,
    ReceiveFailed,
    LoadFailed(bool),
    Unencodable(packetwriter::Error),
    OutOfTurn,
}

/// An action, with its strings as characters.
pub enum Move {
    SendThenLoad,
    Load,
    SendThenAwait,
    IgnoreStaleAck(u16),
    IgnoreUnexpected(OpCode),
    IgnoreMangled(Fault),
    Finish,
    Abort(Outcome),
}

impl<'a> View for Event<'a> {
    type V = Happening;

    open spec fn view(&self) -> Happening {
        match self {
            Event::Start => Happening::Start,
            Event::Loaded(d) => Happening::Loaded(d@),
            Event::LoadFailed(m) => Happening::LoadFailed(m@),
            Event::Received(d) => Happening::Received(d@),
            Event::TimedOut => Happening::TimedOut,
            Event::ReceiveFailed => Happening::ReceiveFailed,
        }
    }
}

impl View for Action {
    type V = Move;

    open spec fn view(&self) -> Move {
        match self {
            Action::SendThenLoad => Move::SendThenLoad,
            Action::Load => Move::Load,
            Action::SendThenAwait => Move::SendThenAwait,
            Action::Ignore(Ignored::StaleAck(n)) => Move::IgnoreStaleAck(*n),
            Action::Ignore(Ignored::Unexpected(op)) => Move::IgnoreUnexpected(*op),
            Action::Ignore(Ignored::Mangled(e)) => Move::IgnoreMangled(e@),
            Action::Finish => Move::Finish,
            Action::Abort(Failure::Peer(c, m)) => Move::Abort(Outcome::Peer(*c, m.0@)),
            Action::Abort(Failure::TooManyTimeouts) => Move::Abort(Outcome::TooManyTimeouts),
            Action::Abort(Failure::ReceiveFailed) => Move::Abort(Outcome::ReceiveFailed),
            Action::Abort(Failure::LoadFailed(b)) => Move::Abort(Outcome::LoadFailed(*b)),
            Action::Abort(Failure::Unencodable(e)) => Move::Abort(Outcome::Unencodable(*e)),
            Action::Abort(Failure::OutOfTurn) => Move::Abort(Outcome::OutOfTurn),
        }
    }
}

/// The state of a transfer.
pub struct TransferState {
    /// Octets per block.
    pub blksize: nat,
    /// The options to acknowledge.
    pub reply: Options,
    /// The number of the block being sent.
    pub blkno: u16,
    /// How many times the block in flight was sent again.
    pub retransmits: nat,
    /// The payload length of the block in flight.
    pub size: nat,
    pub phase: Phase,
    /// The datagram to send, or last sent.
    pub outgoing: Seq<u8>,
}

/// The state of a transfer before it starts.
pub open spec fn opening(n: Negotiation) -> TransferState {
    TransferState {
        blksize: n.blksize as nat,
        reply: n.reply,
        blkno: 1,
        retransmits: 0,
        size: 0,
        phase: Phase::Opening,
        outgoing: Seq::empty(),
    }
}

pub open spec fn is_set(o: Options) -> bool {
    o.blksize is Some || o.timeout is Some || o.tsize is Some || o.windowsize is Some
}

/// The block number after `n`, wrapping to 0 after 65535.
pub open spec fn next_blkno(n: u16) -> u16 {
    if n == u16::MAX {
        0
    } else {
        (n + 1) as u16
    }
}

/// The header and payload of a data packet.
pub open spec fn data_octets(blkno: u16, payload: Seq<u8>) -> Seq<u8> {
    be_octets(3) + be_octets(blkno) + payload
}

/// The message sent to the peer when the file cannot be read.
pub open spec fn broken_text(reason: Seq<char>) -> Seq<char> {
    "Something broke: "@ + reason
}

/// The transfer state machine: the state and action that follow an event.
pub open spec fn next(s: TransferState, e: Happening) -> (TransferState, Move) {
    let cap = s.blksize + 4int;
    let failed = TransferState { phase: Phase::Failed, ..s };
    match (s.phase, e) {
        (Phase::Opening, Happening::Start) => if is_set(s.reply) {
            match encode(Frame::OAck(s.reply), cap) {
                Ok(o) => (TransferState { phase: Phase::Loading, outgoing: o, ..s }, Move::SendThenLoad),
                Err(w) => (
                    TransferState { phase: Phase::Failed, outgoing: Seq::empty(), ..s },
                    Move::Abort(Outcome::Unencodable(w)),
                ),
            }
        } else {
            (TransferState { phase: Phase::Loading, ..s }, Move::Load)
        },
        (Phase::Loading, Happening::Loaded(d)) => if d.len() <= s.blksize {
            (
                TransferState {
                    phase: Phase::Waiting,
                    size: d.len(),
                    retransmits: 0,
                    outgoing: data_octets(s.blkno, d),
                    ..s
                },
                Move::SendThenAwait,
            )
        } else {
            (failed, Move::Abort(Outcome::OutOfTurn))
        },
        (Phase::Loading, Happening::LoadFailed(reason)) => match encode(
            Frame::Error(ErrorCode::NotDefined, broken_text(reason)),
            cap,
        ) {
            Ok(o) => (
                TransferState { phase: Phase::Failed, outgoing: o, ..s },
                Move::Abort(Outcome::LoadFailed(true)),
            ),
            Err(_) => (
                TransferState { phase: Phase::Failed, outgoing: Seq::empty(), ..s },
                Move::Abort(Outcome::LoadFailed(false)),
            ),
        },
        (Phase::Waiting, Happening::Received(b)) => match decode(b) {
            Ok(Frame::Ack(n)) => if n != s.blkno {
                (s, Move::IgnoreStaleAck(n))
            } else if s.size < s.blksize {
                (TransferState { phase: Phase::Done, ..s }, Move::Finish)
            } else {
                (
                    TransferState { phase: Phase::Loading, blkno: next_blkno(s.blkno), ..s },
                    Move::Load,
                )
            },
            Ok(Frame::Error(c, m)) => (failed, Move::Abort(Outcome::Peer(c, m))),
            Ok(f) => (s, Move::IgnoreUnexpected(frame_opcode(f))),
            Err(x) => (s, Move::IgnoreMangled(x)),
        },
        (Phase::Waiting, Happening::TimedOut) => if s.retransmits < MAX_RETRANSMITS {
            (TransferState { retransmits: s.retransmits + 1, ..s }, Move::SendThenAwait)
        } else {
            (failed, Move::Abort(Outcome::TooManyTimeouts))
        },
        (Phase::Waiting, Happening::ReceiveFailed) => (failed, Move::Abort(Outcome::ReceiveFailed)),
        _ => (failed, Move::Abort(Outcome::OutOfTurn)),
    }
}

/// One transfer of a file to a peer.
pub struct Transfer {
    blksize: usize,
    timeout: u8,
    reply: Options,
    blkno: u16,
    retransmits: u8,
    size: usize,
    phase: Phase,
    sendbuf: Vec<u8>,
    out_len: usize,
}

impl View for Transfer {
    type V = TransferState;

    closed spec fn view(&self) -> TransferState {
        TransferState {
            blksize: self.blksize as nat,
            reply: self.reply,
            blkno: self.blkno,
            retransmits: self.retransmits as nat,
            size: self.size as nat,
            phase: self.phase,
            outgoing: self.sendbuf@.subrange(0, self.out_len as int),
        }
    }
}

impl Transfer {
    /// Whether the internal state is consistent: the send buffer holds a
    /// header and a block.
    pub closed spec fn wf(&self) -> bool {
        &&& self.sendbuf@.len() == self.blksize + 4
        &&& self.out_len <= self.sendbuf@.len()
        &&& self.size <= self.blksize
        &&& self.retransmits <= MAX_RETRANSMITS
        &&& self.blksize <= u16::MAX
    }

    /// The receive time-out, in seconds.
    pub closed spec fn timeout_secs(&self) -> u8 {
        self.timeout
    }

    /// Sets up a transfer for a client's options and, when it is known, the
    /// length of the file.
    pub fn new(options: &Options, file_len: Option<u64>) -> (r: Transfer)
        ensures
            r.wf(),
            r@ == opening(negotiation(*options, file_len)),
            r.timeout_secs() == negotiation(*options, file_len).timeout,
    {
        let n = negotiate(options, file_len);
        let blksize = n.blksize as usize;
        let sendbuf = vec![0u8; blksize + 4];
        let t = Transfer {
            blksize,
            timeout: n.timeout,
            reply: n.reply,
            blkno: 1,
            retransmits: 0,
            size: 0,
            phase: Phase::Opening,
            sendbuf,
            out_len: 0,
        };
        proof {
            assert(t@.outgoing =~= Seq::<u8>::empty());
        }
        t
    }

    /// Octets per block: how much to read from the file for each block.
    pub fn blksize(&self) -> (r: usize)
        ensures
            r == self@.blksize,
    {
        self.blksize
    }

    /// The receive time-out, in seconds.
    pub fn timeout(&self) -> (r: u8)
        ensures
            r == self.timeout_secs(),
    {
        self.timeout
    }

    /// The options acknowledged to the peer.
    pub fn reply(&self) -> (r: Options)
        ensures
            r == self@.reply,
    {
        self.reply
    }

    /// Where the transfer stands.
    pub fn phase(&self) -> (r: Phase)
        ensures
            r == self@.phase,
    {
        self.phase
    }

    /// The datagram to send.
    pub fn outgoing(&self) -> (r: &[u8])
        requires
            self.wf(),
        ensures
            r@ == self@.outgoing,
    {
        vstd::slice::slice_subrange(self.sendbuf.as_slice(), 0, self.out_len)
    }

    /// Advances the transfer by one event and says what to do next.
    pub fn step(&mut self, event: Event) -> (r: Action)
        requires
            old(self).wf(),
        ensures
            final(self).wf(),
            final(self).timeout_secs() == old(self).timeout_secs(),
            (final(self)@, r@) == next(old(self)@, event@),
    {
        let ghost s = self@;
        match (self.phase, event) {
            (Phase::Opening, Event::Start) => {
                if self.reply.is_set() {
                    let ghost cap = s.blksize + 4int;
                    let ghost before = self.sendbuf@;
                    let packet = Packet::OAck(self.reply);
                    match packet.write(self.sendbuf.as_mut_slice()) {
                        Ok(n) => {
                            self.out_len = n;
                            self.phase = Phase::Loading;
                            proof {
                                let o = encode(Frame::OAck(s.reply), cap)->Ok_0;
                                assert(self.sendbuf@.subrange(0, n as int) =~= o);
                            }
                            Action::SendThenLoad
                        },
                        Err(Error::WriteError(w)) => {
                            self.phase = Phase::Failed;
                            self.out_len = 0;
                            proof {
                                assert(self@.outgoing =~= Seq::<u8>::empty());
                            }
                            Action::Abort(Failure::Unencodable(w))
                        },
                        Err(_) => {
                            proof {
                                assert(false);
                            }
                            Action::Abort(Failure::OutOfTurn)
                        },
                    }
                } else {
                    self.phase = Phase::Loading;
                    Action::Load
                }
            },
            (Phase::Loading, Event::Loaded(data)) => {
                if data.len() > self.blksize {
                    self.phase = Phase::Failed;
                    return Action::Abort(Failure::OutOfTurn);
                }
                self.load_block(data);
                Action::SendThenAwait
            },
            (Phase::Loading, Event::LoadFailed(reason)) => {
                let mut text = String::from_str("Something broke: ");
                text.append(reason.as_str());
                let ghost before = self.sendbuf@;
                let packet = Packet::Error(ErrorCode::NotDefined, ErrorMessage(text));
                self.phase = Phase::Failed;
                match packet.write(self.sendbuf.as_mut_slice()) {
                    Ok(n) => {
                        self.out_len = n;
                        proof {
                            assert(self@.outgoing =~= next(s, event@).0.outgoing);
                        }
                        Action::Abort(Failure::LoadFailed(true))
                    },
                    Err(_) => {
                        self.out_len = 0;
                        proof {
                            assert(self@.outgoing =~= Seq::<u8>::empty());
                        }
                        Action::Abort(Failure::LoadFailed(false))
                    },
                }
            },
            (Phase::Waiting, Event::Received(datagram)) => match Packet::parse(datagram) {
                Ok(Packet::Ack(BlockNum(blocknum))) => {
                    if blocknum != self.blkno {
                        Action::Ignore(Ignored::StaleAck(blocknum))
                    } else if self.size < self.blksize {
                        self.phase = Phase::Done;
                        Action::Finish
                    } else {
                        self.blkno = if self.blkno == u16::MAX {
                            0
                        } else {
                            self.blkno + 1
                        };
                        self.phase = Phase::Loading;
                        Action::Load
                    }
                },
                Ok(Packet::Error(code, message)) => {
                    self.phase = Phase::Failed;
                    Action::Abort(Failure::Peer(code, message))
                },
                Ok(packet) => Action::Ignore(Ignored::Unexpected(packet.opcode())),
                Err(error) => Action::Ignore(Ignored::Mangled(error)),
            },
            (Phase::Waiting, Event::TimedOut) => {
                if self.retransmits < MAX_RETRANSMITS {
                    self.retransmits = self.retransmits + 1;
                    Action::SendThenAwait
                } else {
                    self.phase = Phase::Failed;
                    Action::Abort(Failure::TooManyTimeouts)
                }
            },
            (Phase::Waiting, Event::ReceiveFailed) => {
                self.phase = Phase::Failed;
                Action::Abort(Failure::ReceiveFailed)
            },
            _ => {
                self.phase = Phase::Failed;
                Action::Abort(Failure::OutOfTurn)
            },
        }
    }

    /// Puts block `blkno` with payload `data` into the send buffer: the
    /// payload after the 4-octet header, then the header itself, written as
    /// a `Data` packet with an empty payload.
    fn load_block(&mut self, data: &[u8])
        requires
            old(self).wf(),
            old(self).phase == Phase::Loading,
            data@.len() <= old(self).blksize,
        ensures
            final(self).wf(),
            final(self).timeout == old(self).timeout,
            final(self)@ == (TransferState {
                phase: Phase::Waiting,
                size: data@.len(),
                retransmits: 0,
                outgoing: data_octets(old(self).blkno, data@),
                ..old(self)@
            }),
    {
        let n = data.len();
        let mut k: usize = 0;
        while k < n
            invariant
                n == data@.len(),
                k <= n,
                self.sendbuf@.len() == old(self).sendbuf@.len(),
                self.blksize == old(self).blksize,
                self.sendbuf@.len() == self.blksize + 4,
                self.blksize <= u16::MAX,
                self.out_len <= self.sendbuf@.len(),
                self.size <= self.blksize,
                n <= self.blksize,
                forall|i: int| 0 <= i < k ==> self.sendbuf@[4 + i] == data@[i],
                self.blkno == old(self).blkno,
                self.timeout == old(self).timeout,
                self.reply == old(self).reply,
                self.retransmits == old(self).retransmits,
                self.phase == old(self).phase,
            decreases n - k,
        {
            self.sendbuf.set(4 + k, data[k]);
            k = k + 1;
        }
        let ghost with_payload = self.sendbuf@;
        let header = Packet::Data(BlockNum(self.blkno), Data(&[]));
        let written = header.write(self.sendbuf.as_mut_slice());
        proof {
            let f = Frame::Data(old(self).blkno, Seq::<u8>::empty());
            reveal_with_fuel(packetwriter::emit, 4);
            let h = be_octets(3) + be_octets(old(self).blkno);
            assert(encode(f, self.blksize + 4) == Ok::<Seq<u8>, packetwriter::Error>(h)) by {
                assert(be_octets(3) + (be_octets(old(self).blkno) + (Seq::<u8>::empty()
                    + Seq::<u8>::empty())) =~= h);
            }
            assert(self.sendbuf@ == overwrite(with_payload, 0, h));
        }
        self.out_len = n + 4;
        self.size = n;
        self.retransmits = 0;
        self.phase = Phase::Waiting;
        proof {
            assert(self@.outgoing =~= data_octets(old(self).blkno, data@));
        }
    }
}

} // verus!

verus! {

/// The acknowledgement of block `n`, as the peer sends it.
pub open spec fn ack_octets(n: u16) -> Seq<u8> {
    be_octets(4) + be_octets(n)
}

/// The datagrams that a transfer about to read block `s.blkno` sends for the
/// rest `f` of the file, when the peer acknowledges each block as soon as it
/// arrives.
pub open spec fn sent_for(s: TransferState, f: Seq<u8>) -> Seq<Seq<u8>>
    decreases f.len(),
{
    if s.blksize == 0 {
        Seq::empty()
    } else if f.len() < s.blksize {
        seq![next(s, Happening::Loaded(f)).0.outgoing]
    } else {
        let loaded = next(s, Happening::Loaded(f.take(s.blksize as int))).0;
        let acked = next(loaded, Happening::Received(ack_octets(s.blkno))).0;
        seq![loaded.outgoing] + sent_for(acked, f.skip(s.blksize as int))
    }
}

/// The data packets that carry `f` from block `blkno` on, `blksize` octets
/// each, up to a last block that is shorter, and empty when the length of
/// `f` is a multiple of the block size.
pub open spec fn data_packets(blkno: u16, blksize: nat, f: Seq<u8>) -> Seq<Seq<u8>>
    decreases f.len(),
{
    if blksize == 0 || f.len() < blksize {
        seq![data_octets(blkno, f)]
    } else {
        seq![data_octets(blkno, f.take(blksize as int))] + data_packets(
            next_blkno(blkno),
            blksize,
            f.skip(blksize as int),
        )
    }
}

/// The acknowledgement of block `n` decodes as such.
pub proof fn lemma_ack_decodes(n: u16)
    ensures
        decode(ack_octets(n)) == Ok::<Frame, Fault>(Frame::Ack(n)),
{
    lemma_be_round_trip(4);
    lemma_be_round_trip(n);
    let b = ack_octets(n);
    assert(b.len() == 4);
    assert(b[0] == be_octets(4)[0] && b[1] == be_octets(4)[1]);
    assert(b[2] == be_octets(n)[0] && b[3] == be_octets(n)[1]);
    assert(opcode_of(4) == Some(OpCode::ACK));
}

/// A transfer whose blocks are each acknowledged at once sends the file as
/// numbered data packets of one block size each, the last one shorter, and
/// then finishes on the acknowledgement of that last block.
pub proof fn lemma_transfer_sends_blocks(s: TransferState, f: Seq<u8>)
    requires
        s.phase == Phase::Loading,
        s.blksize > 0,
    ensures
        sent_for(s, f) == data_packets(s.blkno, s.blksize, f),
    decreases f.len(),
{
    if f.len() >= s.blksize {
        let d = f.take(s.blksize as int);
        let loaded = next(s, Happening::Loaded(d)).0;
        assert(loaded.outgoing == data_octets(s.blkno, d));
        assert(loaded.size == s.blksize);
        lemma_ack_decodes(s.blkno);
        let acked = next(loaded, Happening::Received(ack_octets(s.blkno))).0;
        assert(acked.phase == Phase::Loading);
        assert(acked.blkno == next_blkno(s.blkno));
        assert(acked.blksize == s.blksize);
        lemma_transfer_sends_blocks(acked, f.skip(s.blksize as int));
    }
}

/// The last, short block, once acknowledged, finishes the transfer.
pub proof fn lemma_short_block_finishes(s: TransferState, d: Seq<u8>)
    requires
        s.phase == Phase::Loading,
        d.len() < s.blksize,
    ensures
        next(next(s, Happening::Loaded(d)).0, Happening::Received(ack_octets(s.blkno))).1
            == Move::Finish,
{
    lemma_ack_decodes(s.blkno);
}

/// A client that asks for a block size of 1024 alone is answered with an
/// option acknowledgement of exactly that, and the transfer then reads its
/// first block, of 1024 octets.
pub proof fn lemma_blksize_1024_acknowledged(file_len: Option<u64>)
    ensures
        ({
            let asked = Options { blksize: Some(1024), timeout: None, tsize: None, windowsize: None };
            let (s, m) = next(opening(negotiation(asked, file_len)), Happening::Start);
            &&& m == Move::SendThenLoad
            &&& s.phase == Phase::Loading
            &&& s.blksize == 1024
            &&& s.blkno == 1
            &&& s.outgoing == seq![0u8, 6, 98, 108, 107, 115, 105, 122, 101, 0, 49, 48, 50, 52, 0]
        }),
{
    let asked = Options { blksize: Some(1024), timeout: None, tsize: None, windowsize: None };
    let reply = negotiation(asked, file_len).reply;
    assert(reply == asked);
    reveal_strlit("blksize");
    reveal_with_fuel(decimal_chars, 5);
    let dec = decimal_chars(1024);
    assert(dec == seq![digit_char(1), digit_char(0), digit_char(2), digit_char(4)]);
    lemma_decimal_chars(1024);
    let name = "blksize"@;
    assert(vstd::utf8::is_ascii_chars(name));
    vstd::utf8::is_ascii_chars_encode_utf8(name);
    let en = encode_utf8(name);
    assert(en =~= seq![98u8, 108, 107, 115, 105, 122, 101]);
    let ed = encode_utf8(dec);
    assert(ed =~= seq![49u8, 48, 50, 52]);
    let fields = seq![Field::Number(6), Field::Text(name), Field::Text(dec)];
    assert(seq![Field::Number(6)] + option_fields(reply) =~= fields);
    assert(!crate::packetwriter::has_nul(name));
    assert(!crate::packetwriter::has_nul(dec));
    assert(field_fault(fields[0], 0, 1028) is None);
    assert(field_fault(fields[1], 2, 1028) is None);
    assert(field_fault(fields[2], 10, 1028) is None);
    reveal_with_fuel(emit, 4);
    assert(fields.drop_first().drop_first().drop_first() =~= Seq::<Field>::empty());
    assert(fields.drop_first()[0] == fields[1]);
    assert(fields.drop_first().drop_first()[0] == fields[2]);
    let o = be_octets(6) + (en.push(0) + (ed.push(0) + Seq::<u8>::empty()));
    assert(emit(fields, 0, 1028) == Ok::<Seq<u8>, packetwriter::Error>(o));
    assert(o =~= seq![0u8, 6, 98, 108, 107, 115, 105, 122, 101, 0, 49, 48, 50, 52, 0]);
}

} // verus!
