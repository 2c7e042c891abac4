//! TFTP packets: the six packet shapes and their wire encoding.

use crate::options::{
    eq_ignore_ascii_case, lemma_find_string, lemma_read_options, lemma_same_ignoring_case_refl,
    lemma_wrote_fault, lemma_wrote_then, option_fields, options_of, same_ignoring_case, wrote_fields,
    Options,
};
use crate::packetreader::{self, be_value, find_nul, lemma_find_nul_bounds, text_of, PacketReader};
use crate::packetwriter::{
    self, be_octets, emit, fields_octets, has_nul, lemma_emit_octets, lemma_emit_one,
    lemma_fields_octets_concat, overwrite, put_outcome, Field, PacketWriter,
};
use vstd::utf8::encode_utf8;
use vstd::prelude::*;

verus! {

/// An error reading, parsing, or writing a packet.
#[derive(Debug, PartialEq)]
pub enum Error {
    /// The operation is invalid / not recognised.
    InvalidOpCode(u16),
    /// The transfer mode is invalid / not recognised.
    InvalidTransferMode(String),
    /// The error code is invalid / not recognised.
    InvalidErrorCode(u16),
    /// The options are invalid. Unrecognised options are not an error: the
    /// TFTP RFCs say that they are ignored, and only recognised options are
    /// acknowledged in an `OACK` packet.
    InvalidOptions(String),
    /// A packet could not be read / deserialised.
    ReadError(packetreader::Error),
    /// A packet could not be written / serialised.
    WriteError(packetwriter::Error),
}

pub type Result<T> = core::result::Result<T, Error>;

/// What an `Error` says, with its strings as characters.
pub enum Fault {
    OpCode(u16),
    TransferMode(Seq<char>),
    ErrorCode(u16),
    Options(Seq<char>),
    Read(packetreader::Error),
    Write(packetwriter::Error),
}

impl View for Error {
    type V = Fault;

    open spec fn view(&self) -> Fault {
        match self {
            Error::InvalidOpCode(c) => Fault::OpCode(*c),
            Error::InvalidTransferMode(m) => Fault::TransferMode(m@),
            Error::InvalidErrorCode(c) => Fault::ErrorCode(*c),
            Error::InvalidOptions(m) => Fault::Options(m@),
            Error::ReadError(e) => Fault::Read(*e),
            Error::WriteError(e) => Fault::Write(*e),
        }
    }
}

impl From<packetreader::Error> for Error {
    fn from(error: packetreader::Error) -> (r: Error)
        ensures
            r == Error::ReadError(error),
    {
        Error::ReadError(error)
    }
}

impl vstd::std_specs::convert::FromSpecImpl<packetreader::Error> for Error {
    open spec fn obeys_from_spec() -> bool {
        true
    }

    open spec fn from_spec(v: packetreader::Error) -> Error {
        Error::ReadError(v)
    }
}

impl From<packetwriter::Error> for Error {
    fn from(error: packetwriter::Error) -> (r: Error)
        ensures
            r == Error::WriteError(error),
    {
        Error::WriteError(error)
    }
}

impl vstd::std_specs::convert::FromSpecImpl<packetwriter::Error> for Error {
    open spec fn obeys_from_spec() -> bool {
        true
    }

    open spec fn from_spec(v: packetwriter::Error) -> Error {
        Error::WriteError(v)
    }
}

} // verus!

verus! {

/// A single field written through `put`, seen as a run of one field.
proof fn lemma_wrote_one(
    before: PacketWriter,
    after: PacketWriter,
    f: Field,
    r: packetwriter::Result<()>,
    out: Result<()>,
)
    requires
        put_outcome(before.data(), before.cursor(), after.data(), after.cursor(), f, r),
        r is Ok ==> out is Ok,
        r matches Err(e) ==> out == Err::<(), Error>(Error::WriteError(e)),
    ensures
        wrote_fields(&before, &after, seq![f], out),
{
    lemma_emit_one(f, before.cursor(), before.data().len() as int);
}

/// The operation code that begins every TFTP packet.
#[derive(Debug, Clone, Copy, PartialEq, Eq, Structural)]
pub enum OpCode {
    /// Read request.
    RRQ,
    /// Write request.
    WRQ,
    /// Data.
    DATA,
    /// Acknowledgment.
    ACK,
    /// Error.
    ERROR,
    /// Option Acknowledgment.
    OACK,
}

pub open spec fn opcode_value(op: OpCode) -> u16 {
    match op {
        OpCode::RRQ => 1,
        OpCode::WRQ => 2,
        OpCode::DATA => 3,
        OpCode::ACK => 4,
        OpCode::ERROR => 5,
        OpCode::OACK => 6,
    }
}

pub open spec fn opcode_of(v: int) -> Option<OpCode> {
    if v == 1 {
        Some(OpCode::RRQ)
    } else if v == 2 {
        Some(OpCode::WRQ)
    } else if v == 3 {
        Some(OpCode::DATA)
    } else if v == 4 {
        Some(OpCode::ACK)
    } else if v == 5 {
        Some(OpCode::ERROR)
    } else if v == 6 {
        Some(OpCode::OACK)
    } else {
        None
    }
}

/// How reading a 16-bit code changes a reader: the code is read and mapped
/// through `of`, or the reader reports why it could not be.
pub open spec fn read_code<T>(
    before: &PacketReader,
    after: &PacketReader,
    of: spec_fn(int) -> Option<T>,
    invalid: spec_fn(u16) -> Error,
    r: Result<T>,
) -> bool {
    let b = before.data();
    let p = before.cursor();
    &&& after.data() == b
    &&& if p + 2 <= b.len() {
        let v = be_value(b[p], b[p + 1]);
        &&& after.cursor() == p + 2
        &&& match of(v) {
            Some(c) => r == Ok::<T, Error>(c),
            None => r == Err::<T, Error>(invalid(v as u16)),
        }
    } else {
        r == Err::<T, Error>(Error::ReadError(packetreader::Error::NotEnoughData))
    }
}

impl OpCode {
    fn read(buffer: &mut PacketReader) -> (r: Result<Self>)
        ensures
            read_code(
                old(buffer),
                final(buffer),
                |v: int| opcode_of(v),
                |c: u16| Error::InvalidOpCode(c),
                r,
            ),
    {
        let code = match buffer.take_u16() {
            Ok(code) => code,
            Err(e) => return Err(Error::ReadError(e)),
        };
        match Self::from(code) {
            Some(opcode) => Ok(opcode),
            None => Err(Error::InvalidOpCode(code)),
        }
    }

    pub fn write(self, writer: &mut PacketWriter) -> (r: Result<()>)
        ensures
            wrote_fields(old(writer), final(writer), seq![Field::Number(opcode_value(self))], r),
            final(final(writer).storage())@ == final(old(writer).storage())@,
    {
        let code: u16 = match self {
            OpCode::RRQ => 1,
            OpCode::WRQ => 2,
            OpCode::DATA => 3,
            OpCode::ACK => 4,
            OpCode::ERROR => 5,
            OpCode::OACK => 6,
        };
        let ghost before = *writer;
        let r = writer.put_u16(code);
        let out = match r {
            Ok(()) => Ok(()),
            Err(e) => Err(Error::WriteError(e)),
        };
        proof {
            lemma_wrote_one(before, *writer, Field::Number(code), r, out);
        }
        out
    }

    fn from(opcode: u16) -> (r: Option<Self>)
        ensures
            r == opcode_of(opcode as int),
    {
        match opcode {
            1 => Some(OpCode::RRQ),
            2 => Some(OpCode::WRQ),
            3 => Some(OpCode::DATA),
            4 => Some(OpCode::ACK),
            5 => Some(OpCode::ERROR),
            6 => Some(OpCode::OACK),
            _ => None,
        }
    }
}

/// How reading a zero-terminated string changes a reader.
pub open spec fn read_text(before: &PacketReader, after: &PacketReader, r: Result<Seq<char>>) -> bool {
    let b = before.data();
    let p = before.cursor();
    &&& after.data() == b
    &&& match find_nul(b, p) {
        Some(i) => r == Ok::<Seq<char>, Error>(text_of(b.subrange(p, i))) && after.cursor() == i
            + 1,
        None => r == Err::<Seq<char>, Error>(
            Error::ReadError(packetreader::Error::StringNotTerminated),
        ),
    }
}

/// A filename as found in a `RRQ` or `WRQ` packet.
///
/// In TFTP, filenames are byte strings, transferred as NetASCII. This
/// library decodes them as UTF-8, replacing invalid sequences, and writes
/// them as ASCII. NetASCII translation is not attempted.
#[derive(Debug)]
pub struct Filename(pub String);

impl Filename {
    fn read(buffer: &mut PacketReader) -> (r: Result<Self>)
        ensures
            read_text(
                old(buffer),
                final(buffer),
                match r {
                    Ok(f) => Ok(f.0@),
                    Err(e) => Err(e),
                },
            ),
    {
        match buffer.take_string() {
            Ok(s) => Ok(Filename(s)),
            Err(e) => Err(Error::ReadError(e)),
        }
    }

    pub fn write(self, writer: &mut PacketWriter) -> (r: Result<()>)
        ensures
            wrote_fields(old(writer), final(writer), seq![Field::Text(self.0@)], r),
            final(final(writer).storage())@ == final(old(writer).storage())@,
    {
        let ghost before = *writer;
        let r = writer.put_string(self.0.as_str());
        let out = match r {
            Ok(()) => Ok(()),
            Err(e) => Err(Error::WriteError(e)),
        };
        proof {
            lemma_wrote_one(before, *writer, Field::Text(self.0@), r, out);
        }
        out
    }
}

/// The transfer mode to use.
#[derive(Debug, Clone, Copy, PartialEq, Eq, Structural)]
pub enum TransferMode {
    /// NetASCII is obsolete and potentially **harmful** to your data.
    NetASCII,
    /// Octet means transfer bytes unaltered.
    Octet,
}

/// The token that names a transfer mode on the wire.
pub open spec fn mode_text(m: TransferMode) -> Seq<char> {
    match m {
        TransferMode::NetASCII => "netascii"@,
        TransferMode::Octet => "octet"@,
    }
}

/// The transfer mode that a token names, ignoring case.
pub open spec fn mode_of(s: Seq<char>) -> Option<TransferMode> {
    if same_ignoring_case(s, "netascii"@) {
        Some(TransferMode::NetASCII)
    } else if same_ignoring_case(s, "octet"@) {
        Some(TransferMode::Octet)
    } else {
        None
    }
}

impl TransferMode {
    fn read(buffer: &mut PacketReader) -> (r: Result<Self>)
        ensures
            ({
                let b = old(buffer).data();
                let p = old(buffer).cursor();
                &&& final(buffer).data() == b
                &&& match find_nul(b, p) {
                    Some(i) => {
                        let m = text_of(b.subrange(p, i));
                        &&& final(buffer).cursor() == i + 1
                        &&& match mode_of(m) {
                            Some(mode) => r == Ok::<TransferMode, Error>(mode),
                            None => r matches Err(Error::InvalidTransferMode(t)) && t@ == m,
                        }
                    },
                    None => r == Err::<TransferMode, Error>(
                        Error::ReadError(packetreader::Error::StringNotTerminated),
                    ),
                }
            }),
    {
        let mode = match buffer.take_string() {
            Ok(mode) => mode,
            Err(e) => return Err(Error::ReadError(e)),
        };
        match TransferMode::parse(mode.as_str()) {
            Some(txmode) => Ok(txmode),
            None => Err(Error::InvalidTransferMode(mode)),
        }
    }

    pub fn write(self, writer: &mut PacketWriter) -> (r: Result<()>)
        ensures
            wrote_fields(old(writer), final(writer), seq![Field::Text(mode_text(self))], r),
            final(final(writer).storage())@ == final(old(writer).storage())@,
    {
        let ghost before = *writer;
        let r = writer.put_string(
            match self {
                TransferMode::NetASCII => "netascii",
                TransferMode::Octet => "octet",
            },
        );
        let out = match r {
            Ok(()) => Ok(()),
            Err(e) => Err(Error::WriteError(e)),
        };
        proof {
            lemma_wrote_one(before, *writer, Field::Text(mode_text(self)), r, out);
        }
        out
    }

    fn parse(mode: &str) -> (r: Option<Self>)
        ensures
            r == mode_of(mode@),
    {
        if eq_ignore_ascii_case(mode, "netascii") {
            Some(TransferMode::NetASCII)
        } else if eq_ignore_ascii_case(mode, "octet") {
            Some(TransferMode::Octet)
        } else {
            None
        }
    }
}

/// The block number in a `DATA` or `ACK` packet.
#[derive(Debug, Clone, Copy, PartialEq, Eq, Structural)]
pub struct BlockNum(pub u16);

impl BlockNum {
    fn read(buffer: &mut PacketReader) -> (r: Result<Self>)
        ensures
            read_code(
                old(buffer),
                final(buffer),
                |v: int| Some(BlockNum(v as u16)),
                |c: u16| Error::InvalidOpCode(c),
                r,
            ),
    {
        match buffer.take_u16() {
            Ok(blocknum) => Ok(BlockNum(blocknum)),
            Err(e) => Err(Error::ReadError(e)),
        }
    }

    pub fn write(self, writer: &mut PacketWriter) -> (r: Result<()>)
        ensures
            wrote_fields(old(writer), final(writer), seq![Field::Number(self.0)], r),
            final(final(writer).storage())@ == final(old(writer).storage())@,
    {
        let ghost before = *writer;
        let r = writer.put_u16(self.0);
        let out = match r {
            Ok(()) => Ok(()),
            Err(e) => Err(Error::WriteError(e)),
        };
        proof {
            lemma_wrote_one(before, *writer, Field::Number(self.0), r, out);
        }
        out
    }
}

/// The payload of a `DATA` packet.
#[derive(Debug)]
pub struct Data<'a>(pub &'a [u8]);

impl<'a> Data<'a> {
    fn read(buffer: &mut PacketReader<'a>) -> (r: Result<Self>)
        ensures
            final(buffer).data() == old(buffer).data(),
            final(buffer).cursor() == old(buffer).data().len(),
            r matches Ok(d) && d.0@ == old(buffer).data().subrange(
                old(buffer).cursor(),
                old(buffer).data().len() as int,
            ),
    {
        match buffer.take_remaining() {
            Ok(data) => Ok(Data(data)),
            Err(e) => Err(Error::ReadError(e)),
        }
    }

    pub fn write(self, writer: &mut PacketWriter) -> (r: Result<()>)
        ensures
            wrote_fields(old(writer), final(writer), seq![Field::Octets(self.0@)], r),
            final(final(writer).storage())@ == final(old(writer).storage())@,
    {
        let ghost before = *writer;
        let r = writer.put_bytes(self.0);
        let out = match r {
            Ok(()) => Ok(()),
            Err(e) => Err(Error::WriteError(e)),
        };
        proof {
            lemma_wrote_one(before, *writer, Field::Octets(self.0@), r, out);
        }
        out
    }
}

/// The code in an `ERROR` packet.
///
/// Unless specified otherwise, these codes are all defined in RFC 1350.
#[derive(Debug, Clone, Copy, PartialEq, Eq, Structural)]
pub enum ErrorCode {
    /// Not defined, see error message (if any).
    NotDefined,
    /// File not found.
    FileNotFound,
    /// Access violation.
    AccessViolation,
    /// Disk full or allocation exceeded.
    DiskFull,
    /// Illegal TFTP operation.
    IllegalOperation,
    /// Unknown transfer ID.
    UnknownTransferId,
    /// File already exists.
    FileAlreadyExists,
    /// No such user.
    NoSuchUser,
    /// Options not acceptable. Defined in RFC 2347.
    BadOptions,
}

pub open spec fn error_code_value(c: ErrorCode) -> u16 {
    match c {
        ErrorCode::NotDefined => 0,
        ErrorCode::FileNotFound => 1,
        ErrorCode::AccessViolation => 2,
        ErrorCode::DiskFull => 3,
        ErrorCode::IllegalOperation => 4,
        ErrorCode::UnknownTransferId => 5,
        ErrorCode::FileAlreadyExists => 6,
        ErrorCode::NoSuchUser => 7,
        ErrorCode::BadOptions => 8,
    }
}

pub open spec fn error_code_of(v: int) -> Option<ErrorCode> {
    if v == 0 {
        Some(ErrorCode::NotDefined)
    } else if v == 1 {
        Some(ErrorCode::FileNotFound)
    } else if v == 2 {
        Some(ErrorCode::AccessViolation)
    } else if v == 3 {
        Some(ErrorCode::DiskFull)
    } else if v == 4 {
        Some(ErrorCode::IllegalOperation)
    } else if v == 5 {
        Some(ErrorCode::UnknownTransferId)
    } else if v == 6 {
        Some(ErrorCode::FileAlreadyExists)
    } else if v == 7 {
        Some(ErrorCode::NoSuchUser)
    } else if v == 8 {
        Some(ErrorCode::BadOptions)
    } else {
        None
    }
}

impl ErrorCode {
    fn read(buffer: &mut PacketReader) -> (r: Result<Self>)
        ensures
            read_code(
                old(buffer),
                final(buffer),
                |v: int| error_code_of(v),
                |c: u16| Error::InvalidErrorCode(c),
                r,
            ),
    {
        let code = match buffer.take_u16() {
            Ok(code) => code,
            Err(e) => return Err(Error::ReadError(e)),
        };
        match Self::from(code) {
            Some(errorcode) => Ok(errorcode),
            None => Err(Error::InvalidErrorCode(code)),
        }
    }

    pub fn write(self, writer: &mut PacketWriter) -> (r: Result<()>)
        ensures
            wrote_fields(old(writer), final(writer), seq![Field::Number(error_code_value(self))], r),
            final(final(writer).storage())@ == final(old(writer).storage())@,
    {
        let code: u16 = match self {
            ErrorCode::NotDefined => 0,
            ErrorCode::FileNotFound => 1,
            ErrorCode::AccessViolation => 2,
            ErrorCode::DiskFull => 3,
            ErrorCode::IllegalOperation => 4,
            ErrorCode::UnknownTransferId => 5,
            ErrorCode::FileAlreadyExists => 6,
            ErrorCode::NoSuchUser => 7,
            ErrorCode::BadOptions => 8,
        };
        let ghost before = *writer;
        let r = writer.put_u16(code);
        let out = match r {
            Ok(()) => Ok(()),
            Err(e) => Err(Error::WriteError(e)),
        };
        proof {
            lemma_wrote_one(before, *writer, Field::Number(code), r, out);
        }
        out
    }

    fn from(code: u16) -> (r: Option<Self>)
        ensures
            r == error_code_of(code as int),
    {
        match code {
            0 => Some(ErrorCode::NotDefined),
            1 => Some(ErrorCode::FileNotFound),
            2 => Some(ErrorCode::AccessViolation),
            3 => Some(ErrorCode::DiskFull),
            4 => Some(ErrorCode::IllegalOperation),
            5 => Some(ErrorCode::UnknownTransferId),
            6 => Some(ErrorCode::FileAlreadyExists),
            7 => Some(ErrorCode::NoSuchUser),
            8 => Some(ErrorCode::BadOptions),
            _ => None,
        }
    }
}

/// The message in an `ERROR` packet.
#[derive(Debug)]
pub struct ErrorMessage(pub String);

impl ErrorMessage {
    fn read(buffer: &mut PacketReader) -> (r: Result<Self>)
        ensures
            read_text(
                old(buffer),
                final(buffer),
                match r {
                    Ok(m) => Ok(m.0@),
                    Err(e) => Err(e),
                },
            ),
    {
        match buffer.take_string() {
            Ok(s) => Ok(ErrorMessage(s)),
            Err(e) => Err(Error::ReadError(e)),
        }
    }

    pub fn write(self, writer: &mut PacketWriter) -> (r: Result<()>)
        ensures
            wrote_fields(old(writer), final(writer), seq![Field::Text(self.0@)], r),
            final(final(writer).storage())@ == final(old(writer).storage())@,
    {
        let ghost before = *writer;
        let r = writer.put_string(self.0.as_str());
        let out = match r {
            Ok(()) => Ok(()),
            Err(e) => Err(Error::WriteError(e)),
        };
        proof {
            lemma_wrote_one(before, *writer, Field::Text(self.0@), r, out);
        }
        out
    }
}

} // verus!

verus! {

/// A packet of the Trivial File Transfer Protocol.
#[derive(Debug)]
pub enum Packet<'a> {
    Read(Filename, TransferMode, Options),
    Write(Filename, TransferMode, Options),
    Data(BlockNum, Data<'a>),
    Ack(BlockNum),
    Error(ErrorCode, ErrorMessage),
    OAck(Options),
}

/// What a packet says, with its strings as characters and its payload as
/// octets.
pub enum Frame {
    Read(Seq<char>, TransferMode, Options),
    Write(Seq<char>, TransferMode, Options),
    Data(u16, Seq<u8>),
    Ack(u16),
    Error(ErrorCode, Seq<char>),
    OAck(Options),
}

impl<'a> View for Packet<'a> {
    type V = Frame;

    open spec fn view(&self) -> Frame {
        match self {
            Packet::Read(f, m, o) => Frame::Read(f.0@, *m, *o),
            Packet::Write(f, m, o) => Frame::Write(f.0@, *m, *o),
            Packet::Data(b, d) => Frame::Data(b.0, d.0@),
            Packet::Ack(b) => Frame::Ack(b.0),
            Packet::Error(c, m) => Frame::Error(*c, m.0@),
            Packet::OAck(o) => Frame::OAck(*o),
        }
    }
}

pub open spec fn frame_opcode(f: Frame) -> OpCode {
    match f {
        Frame::Read(..) => OpCode::RRQ,
        Frame::Write(..) => OpCode::WRQ,
        Frame::Data(..) => OpCode::DATA,
        Frame::Ack(..) => OpCode::ACK,
        Frame::Error(..) => OpCode::ERROR,
        Frame::OAck(..) => OpCode::OACK,
    }
}

/// The payload fields of a packet, in RFC order.
pub open spec fn frame_tail(f: Frame) -> Seq<Field> {
    match f {
        Frame::Read(n, m, o) => seq![Field::Text(n), Field::Text(mode_text(m))] + option_fields(o),
        Frame::Write(n, m, o) => seq![Field::Text(n), Field::Text(mode_text(m))] + option_fields(o),
        Frame::Data(b, d) => seq![Field::Number(b), Field::Octets(d)],
        Frame::Ack(b) => seq![Field::Number(b)],
        Frame::Error(c, m) => seq![Field::Number(error_code_value(c)), Field::Text(m)],
        Frame::OAck(o) => option_fields(o),
    }
}

/// The fields of a packet on the wire, in order: the operation code, then
/// the payload fields.
pub open spec fn frame_fields(f: Frame) -> Seq<Field> {
    seq![Field::Number(opcode_value(frame_opcode(f)))] + frame_tail(f)
}

/// The octets of a packet, or the fault of the first field that does not
/// fit in a buffer of `cap` octets.
pub open spec fn encode(f: Frame, cap: int) -> packetwriter::Result<Seq<u8>> {
    emit(frame_fields(f), 0, cap)
}

/// The file name, mode and options of a request, read from `pos` on.
pub open spec fn request_of(b: Seq<u8>, pos: int) -> core::result::Result<
    (Seq<char>, TransferMode, Options),
    Fault,
> {
    match find_nul(b, pos) {
        None => Err(Fault::Read(packetreader::Error::StringNotTerminated)),
        Some(i) => {
            let name = text_of(b.subrange(pos, i));
            match find_nul(b, i + 1) {
                None => Err(Fault::Read(packetreader::Error::StringNotTerminated)),
                Some(j) => {
                    let m = text_of(b.subrange(i + 1, j));
                    match mode_of(m) {
                        None => Err(Fault::TransferMode(m)),
                        Some(mode) => match options_of(b.subrange(j + 1, b.len() as int)) {
                            Ok(o) => Ok((name, mode, o)),
                            Err(t) => Err(Fault::Options(t)),
                        },
                    }
                },
            }
        },
    }
}

/// What a datagram decodes to.
pub open spec fn decode(b: Seq<u8>) -> core::result::Result<Frame, Fault> {
    if b.len() < 2 {
        Err(Fault::Read(packetreader::Error::NotEnoughData))
    } else {
        let op = be_value(b[0], b[1]);
        match opcode_of(op) {
            None => Err(Fault::OpCode(op as u16)),
            Some(OpCode::RRQ) => match request_of(b, 2) {
                Ok((n, m, o)) => Ok(Frame::Read(n, m, o)),
                Err(e) => Err(e),
            },
            Some(OpCode::WRQ) => match request_of(b, 2) {
                Ok((n, m, o)) => Ok(Frame::Write(n, m, o)),
                Err(e) => Err(e),
            },
            Some(OpCode::DATA) => if b.len() < 4 {
                Err(Fault::Read(packetreader::Error::NotEnoughData))
            } else {
                Ok(Frame::Data(be_value(b[2], b[3]) as u16, b.subrange(4, b.len() as int)))
            },
            Some(OpCode::ACK) => if b.len() < 4 {
                Err(Fault::Read(packetreader::Error::NotEnoughData))
            } else {
                Ok(Frame::Ack(be_value(b[2], b[3]) as u16))
            },
            Some(OpCode::ERROR) => if b.len() < 4 {
                Err(Fault::Read(packetreader::Error::NotEnoughData))
            } else {
                let c = be_value(b[2], b[3]);
                match error_code_of(c) {
                    None => Err(Fault::ErrorCode(c as u16)),
                    Some(code) => match find_nul(b, 4) {
                        None => Err(Fault::Read(packetreader::Error::StringNotTerminated)),
                        Some(i) => Ok(Frame::Error(code, text_of(b.subrange(4, i)))),
                    },
                }
            },
            Some(OpCode::OACK) => match options_of(b.subrange(2, b.len() as int)) {
                Ok(o) => Ok(Frame::OAck(o)),
                Err(t) => Err(Fault::Options(t)),
            },
        }
    }
}

/// Reads the file name, mode and options of a request.
fn read_request(buffer: &mut PacketReader) -> (r: Result<(Filename, TransferMode, Options)>)
    ensures
        match request_of(old(buffer).data(), old(buffer).cursor()) {
            Ok((n, m, o)) => r matches Ok((f, mode, opts)) && f.0@ == n && mode == m && opts == o,
            Err(e) => r matches Err(x) && x@ == e,
        },
{
    proof {
        lemma_find_nul_bounds(buffer.data(), buffer.cursor());
    }
    let filename = match Filename::read(buffer) {
        Ok(f) => f,
        Err(e) => return Err(e),
    };
    proof {
        lemma_find_nul_bounds(buffer.data(), buffer.cursor());
    }
    let txmode = match TransferMode::read(buffer) {
        Ok(m) => m,
        Err(e) => return Err(e),
    };
    let options = match Options::read(buffer) {
        Ok(o) => o,
        Err(e) => return Err(e),
    };
    Ok((filename, txmode, options))
}

impl<'a> Packet<'a> {
    /// Decodes a datagram.
    pub fn parse(buffer: &'a [u8]) -> (r: Result<Self>)
        ensures
            match decode(buffer@) {
                Ok(f) => r matches Ok(p) && p@ == f,
                Err(e) => r matches Err(x) && x@ == e,
            },
    {
        let mut buffer = PacketReader::new(buffer);
        let opcode = match OpCode::read(&mut buffer) {
            Ok(opcode) => opcode,
            Err(e) => return Err(e),
        };
        match opcode {
            OpCode::RRQ => match read_request(&mut buffer) {
                Ok((f, m, o)) => Ok(Packet::Read(f, m, o)),
                Err(e) => Err(e),
            },
            OpCode::WRQ => match read_request(&mut buffer) {
                Ok((f, m, o)) => Ok(Packet::Write(f, m, o)),
                Err(e) => Err(e),
            },
            OpCode::DATA => {
                let block = match BlockNum::read(&mut buffer) {
                    Ok(b) => b,
                    Err(e) => return Err(e),
                };
                match Data::read(&mut buffer) {
                    Ok(d) => Ok(Packet::Data(block, d)),
                    Err(e) => Err(e),
                }
            },
            OpCode::ACK => match BlockNum::read(&mut buffer) {
                Ok(b) => Ok(Packet::Ack(b)),
                Err(e) => Err(e),
            },
            OpCode::ERROR => {
                let code = match ErrorCode::read(&mut buffer) {
                    Ok(c) => c,
                    Err(e) => return Err(e),
                };
                match ErrorMessage::read(&mut buffer) {
                    Ok(m) => Ok(Packet::Error(code, m)),
                    Err(e) => Err(e),
                }
            },
            OpCode::OACK => match Options::read(&mut buffer) {
                Ok(o) => Ok(Packet::OAck(o)),
                Err(e) => Err(e),
            },
        }
    }

    /// Encodes the packet at the start of `buffer`, returning its length.
    ///
    /// A `Data` packet with an empty payload writes the 4-octet header
    /// alone, so that a payload already placed after it need not be copied.
    pub fn write(self, buffer: &mut [u8]) -> (r: Result<usize>)
        ensures
            final(buffer)@.len() == old(buffer)@.len(),
            match encode(self@, old(buffer)@.len() as int) {
                Ok(o) => {
                    &&& r == Ok::<usize, Error>(o.len() as usize)
                    &&& final(buffer)@ == overwrite(old(buffer)@, 0, o)
                },
                Err(e) => r == Err::<usize, Error>(Error::WriteError(e)),
            },
    {
        let ghost frame = self@;
        let ghost all = frame_fields(frame);
        let mut writer = PacketWriter::new(buffer);
        let ghost start = writer;
        let ghost head = seq![Field::Number(opcode_value(frame_opcode(frame)))];
        let ghost tail = all.subrange(1, all.len() as int);
        proof {
            assert(all =~= head + tail);
            assert(emit(Seq::<Field>::empty(), 0, start.data().len() as int) == Ok::<
                Seq<u8>,
                packetwriter::Error,
            >(Seq::empty()));
            assert(overwrite(start.data(), 0, Seq::empty()) =~= start.data());
        }
        let ghost before = writer;
        let r = self.opcode().write(&mut writer);
        proof {
            lemma_wrote_then(start, before, writer, Seq::empty(), head, r);
            assert(Seq::<Field>::empty() + head =~= head);
        }
        if r.is_err() {
            proof {
                lemma_wrote_fault(start, writer, head, tail, r);
            }
            let _ = writer.get();
            return match r {
                Ok(()) => Ok(0),
                Err(e) => Err(e),
            };
        }
        let r = match self {
            Packet::Read(filename, mode, options) => Self::write_request(
                &mut writer,
                Ghost(start),
                Ghost(head),
                filename,
                mode,
                options,
            ),
            Packet::Write(filename, mode, options) => Self::write_request(
                &mut writer,
                Ghost(start),
                Ghost(head),
                filename,
                mode,
                options,
            ),
            Packet::Data(block, data) => {
                let ghost before = writer;
                let ghost f1 = seq![Field::Number(block.0)];
                let ghost f2 = seq![Field::Octets(data.0@)];
                let r = block.write(&mut writer);
                proof {
                    lemma_wrote_then(start, before, writer, head, f1, r);
                    assert(tail =~= f1 + f2);
                }
                if r.is_err() {
                    proof {
                        lemma_wrote_fault(start, writer, head + f1, f2, r);
                        assert(head + f1 + f2 =~= head + tail);
                    }
                    r
                } else {
                    let ghost before = writer;
                    let r = data.write(&mut writer);
                    proof {
                        lemma_wrote_then(start, before, writer, head + f1, f2, r);
                        assert(head + f1 + f2 =~= head + tail);
                    }
                    r
                }
            },
            Packet::Ack(block) => {
                let ghost before = writer;
                let r = block.write(&mut writer);
                proof {
                    assert(tail =~= seq![Field::Number(block.0)]);
                    lemma_wrote_then(start, before, writer, head, tail, r);
                }
                r
            },
            Packet::Error(code, message) => {
                let ghost before = writer;
                let ghost f1 = seq![Field::Number(error_code_value(code))];
                let ghost f2 = seq![Field::Text(message.0@)];
                let r = code.write(&mut writer);
                proof {
                    lemma_wrote_then(start, before, writer, head, f1, r);
                    assert(tail =~= f1 + f2);
                }
                if r.is_err() {
                    proof {
                        lemma_wrote_fault(start, writer, head + f1, f2, r);
                        assert(head + f1 + f2 =~= head + tail);
                    }
                    r
                } else {
                    let ghost before = writer;
                    let r = message.write(&mut writer);
                    proof {
                        lemma_wrote_then(start, before, writer, head + f1, f2, r);
                        assert(head + f1 + f2 =~= head + tail);
                    }
                    r
                }
            },
            Packet::OAck(options) => {
                let ghost before = writer;
                let r = options.write(&mut writer);
                proof {
                    assert(tail =~= option_fields(options));
                    lemma_wrote_then(start, before, writer, head, tail, r);
                }
                r
            },
        };
        proof {
            assert(head + tail =~= all);
        }
        let (_, size) = writer.get();
        match r {
            Ok(()) => Ok(size),
            Err(e) => Err(e),
        }
    }

    /// Writes the file name, mode and options of a request after `head`.
    fn write_request(
        writer: &mut PacketWriter,
        Ghost(start): Ghost<PacketWriter>,
        Ghost(head): Ghost<Seq<Field>>,
        filename: Filename,
        mode: TransferMode,
        options: Options,
    ) -> (r: Result<()>)
        requires
            wrote_fields(&start, old(writer), head, Ok(())),
            0 <= start.cursor() <= start.data().len(),
        ensures
            wrote_fields(
                &start,
                final(writer),
                head + (seq![Field::Text(filename.0@), Field::Text(mode_text(mode))]
                    + option_fields(options)),
                r,
            ),
            final(final(writer).storage())@ == final(old(writer).storage())@,
    {
        let ghost f1 = seq![Field::Text(filename.0@)];
        let ghost f2 = seq![Field::Text(mode_text(mode))];
        let ghost f3 = option_fields(options);
        proof {
            assert(head + (f1.add(f2) + f3) =~= head + f1 + f2 + f3);
            assert(seq![Field::Text(filename.0@), Field::Text(mode_text(mode))] =~= f1 + f2);
        }
        let ghost before = *writer;
        let r = filename.write(writer);
        proof {
            lemma_wrote_then(start, before, *writer, head, f1, r);
        }
        if r.is_err() {
            proof {
                lemma_wrote_fault(start, *writer, head + f1, f2 + f3, r);
                assert(head + f1 + (f2 + f3) =~= head + f1 + f2 + f3);
            }
            return r;
        }
        let ghost before = *writer;
        let r = mode.write(writer);
        proof {
            lemma_wrote_then(start, before, *writer, head + f1, f2, r);
        }
        if r.is_err() {
            proof {
                lemma_wrote_fault(start, *writer, head + f1 + f2, f3, r);
            }
            return r;
        }
        let ghost before = *writer;
        let r = options.write(writer);
        proof {
            lemma_wrote_then(start, before, *writer, head + f1 + f2, f3, r);
        }
        r
    }

    pub fn opcode(&self) -> (r: OpCode)
        ensures
            r == frame_opcode(self@),
    {
        match self {
            Packet::Read(..) => OpCode::RRQ,
            Packet::Write(..) => OpCode::WRQ,
            Packet::Data(..) => OpCode::DATA,
            Packet::Ack(..) => OpCode::ACK,
            Packet::Error(..) => OpCode::ERROR,
            Packet::OAck(..) => OpCode::OACK,
        }
    }
}

} // verus!

verus! {

/// Two octets written for a number read back as that number.
pub proof fn lemma_be_round_trip(v: u16)
    ensures
        be_value(be_octets(v)[0], be_octets(v)[1]) == v,
{
    assert((v / 256) * 256 + v % 256 == v) by (nonlinear_arith);
}

/// The mode token of a mode names that mode.
proof fn lemma_mode_round_trip(m: TransferMode)
    ensures
        mode_of(mode_text(m)) == Some(m),
        !has_nul(mode_text(m)),
{
    reveal_strlit("netascii");
    reveal_strlit("octet");
    lemma_same_ignoring_case_refl(mode_text(m));
    let t = mode_text(m);
    assert(vstd::utf8::is_ascii_chars(t));
    vstd::utf8::is_ascii_chars_encode_utf8(t);
    assert forall|i: int| 0 <= i < encode_utf8(t).len() implies #[trigger] encode_utf8(t)[i]
        != 0 by {
        assert(encode_utf8(t)[i] == t[i] as u8);
    }
}

/// A request written after its operation code reads back.
proof fn lemma_request_round_trip(b: Seq<u8>, op: u16, n: Seq<char>, m: TransferMode, o: Options)
    requires
        b == be_octets(op) + fields_octets(
            seq![Field::Text(n), Field::Text(mode_text(m))] + option_fields(o),
        ),
        !has_nul(n),
    ensures
        request_of(b, 2) == Ok::<(Seq<char>, TransferMode, Options), Fault>((n, m, o)),
{
    let two = seq![Field::Text(n), Field::Text(mode_text(m))];
    lemma_fields_octets_concat(two, option_fields(o));
    reveal_with_fuel(fields_octets, 3);
    assert(two.drop_first().drop_first() =~= Seq::<Field>::empty());
    let en = encode_utf8(n);
    let em = encode_utf8(mode_text(m));
    let ob = fields_octets(option_fields(o));
    assert(b =~= be_octets(op) + en.push(0) + em.push(0) + ob);
    let i: int = 2int + en.len();
    let j: int = i + 1 + em.len();
    assert(b.subrange(2, i + 1) =~= en.push(0));
    lemma_find_string(b, 2, n);
    lemma_mode_round_trip(m);
    assert(b.subrange(i + 1, j + 1) =~= em.push(0));
    lemma_find_string(b, i + 1, mode_text(m));
    assert(b.subrange(j + 1, b.len() as int) =~= ob);
    lemma_read_options(o);
}

/// The octets of a packet: its operation code, then its payload fields.
proof fn lemma_frame_octets(f: Frame)
    ensures
        fields_octets(frame_fields(f)) == be_octets(opcode_value(frame_opcode(f))) + fields_octets(
            frame_tail(f),
        ),
{
    let head = seq![Field::Number(opcode_value(frame_opcode(f)))];
    lemma_fields_octets_concat(head, frame_tail(f));
    reveal_with_fuel(fields_octets, 2);
    assert(head.drop_first() =~= Seq::<Field>::empty());
    assert(fields_octets(head) =~= be_octets(opcode_value(frame_opcode(f))));
}

/// A data packet, written, reads back.
proof fn lemma_data_round_trip(b: Seq<u8>, blk: u16, d: Seq<u8>)
    requires
        b == be_octets(3) + fields_octets(frame_tail(Frame::Data(blk, d))),
    ensures
        decode(b) == Ok::<Frame, Fault>(Frame::Data(blk, d)),
{
    let tail = frame_tail(Frame::Data(blk, d));
    reveal_with_fuel(fields_octets, 3);
    assert(tail.drop_first().drop_first() =~= Seq::<Field>::empty());
    assert(b =~= be_octets(3) + be_octets(blk) + d);
    lemma_be_round_trip(3);
    lemma_be_round_trip(blk);
    assert(b.subrange(4, b.len() as int) =~= d);
}

/// An acknowledgement, written, reads back.
proof fn lemma_ack_round_trip(b: Seq<u8>, blk: u16)
    requires
        b == be_octets(4) + fields_octets(frame_tail(Frame::Ack(blk))),
    ensures
        decode(b) == Ok::<Frame, Fault>(Frame::Ack(blk)),
{
    let tail = frame_tail(Frame::Ack(blk));
    reveal_with_fuel(fields_octets, 2);
    assert(tail.drop_first() =~= Seq::<Field>::empty());
    assert(b =~= be_octets(4) + be_octets(blk));
    lemma_be_round_trip(4);
    lemma_be_round_trip(blk);
}

/// An error packet, written, reads back.
proof fn lemma_error_round_trip(b: Seq<u8>, c: ErrorCode, msg: Seq<char>)
    requires
        b == be_octets(5) + fields_octets(frame_tail(Frame::Error(c, msg))),
        !has_nul(msg),
    ensures
        decode(b) == Ok::<Frame, Fault>(Frame::Error(c, msg)),
{
    let tail = frame_tail(Frame::Error(c, msg));
    reveal_with_fuel(fields_octets, 3);
    assert(tail.drop_first().drop_first() =~= Seq::<Field>::empty());
    let cv = error_code_value(c);
    let em = encode_utf8(msg);
    assert(b =~= be_octets(5) + be_octets(cv) + em.push(0));
    lemma_be_round_trip(5);
    lemma_be_round_trip(cv);
    assert(b.subrange(4, 4 + em.len() + 1int) =~= em.push(0));
    lemma_find_string(b, 4, msg);
}

/// An option acknowledgement, written, reads back.
proof fn lemma_oack_round_trip(b: Seq<u8>, o: Options)
    requires
        b == be_octets(6) + fields_octets(frame_tail(Frame::OAck(o))),
    ensures
        decode(b) == Ok::<Frame, Fault>(Frame::OAck(o)),
{
    lemma_be_round_trip(6);
    assert(b.subrange(2, b.len() as int) =~= fields_octets(option_fields(o)));
    lemma_read_options(o);
}

/// A packet written by `Packet::write` parses back, with `Packet::parse`,
/// to the same packet.
pub proof fn lemma_packet_round_trip(f: Frame, cap: int)
    ensures
        encode(f, cap) matches Ok(b) ==> decode(b) == Ok::<Frame, Fault>(f),
{
    let fields = frame_fields(f);
    lemma_emit_octets(fields, 0, cap);
    lemma_frame_octets(f);
    if encode(f, cap) is Ok {
        let b = encode(f, cap)->Ok_0;
        let op = opcode_value(frame_opcode(f));
        match f {
            Frame::Read(n, m, o) => {
                assert(fields[1] == Field::Text(n));
                lemma_request_round_trip(b, op, n, m, o);
                lemma_be_round_trip(op);
            },
            Frame::Write(n, m, o) => {
                assert(fields[1] == Field::Text(n));
                lemma_request_round_trip(b, op, n, m, o);
                lemma_be_round_trip(op);
            },
            Frame::Data(blk, d) => {
                lemma_data_round_trip(b, blk, d);
            },
            Frame::Ack(blk) => {
                lemma_ack_round_trip(b, blk);
            },
            Frame::Error(c, msg) => {
                assert(fields[2] == Field::Text(msg));
                lemma_error_round_trip(b, c, msg);
            },
            Frame::OAck(o) => {
                lemma_oack_round_trip(b, o);
            },
        }
    }
}

} // verus!
