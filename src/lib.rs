//! A TFTP server library: packet codec, option negotiation, and the
//! stop-and-wait engine that answers read requests.

pub mod options;
pub mod packet;
pub mod packetreader;
pub mod packetwriter;
pub mod rrq;

use crate::options::Options;
use crate::packet::{ErrorCode, ErrorMessage, Filename, Frame, Packet, TransferMode};
use vstd::prelude::*;
use vstd::string::*;

verus! {

/// A parsed packet, sorted by the hook of `Handler` that deals with it.
#[derive(Debug)]
pub enum Request<'a> {
    /// A read request, for `Handler::handle_rrq`.
    Read(Filename, TransferMode, Options),
    /// A write request, for `Handler::handle_wrq`.
    Write(Filename, TransferMode, Options),
    /// Anything else, for `Handler::handle_other`.
    Other(Packet<'a>),
}

/// Sorts a packet by its shape: read and write requests are taken apart for
/// their hooks, and every other packet is passed on whole.
pub fn route<'a>(packet: Packet<'a>) -> (r: Request<'a>)
    ensures
        match packet@ {
            Frame::Read(n, m, o) => r matches Request::Read(f, mode, opts) && f.0@ == n && mode
                == m && opts == o,
            Frame::Write(n, m, o) => r matches Request::Write(f, mode, opts) && f.0@ == n && mode
                == m && opts == o,
            _ => r matches Request::Other(p) && p@ == packet@,
        },
{
    match packet {
        Packet::Read(filename, txmode, options) => Request::Read(filename, txmode, options),
        Packet::Write(filename, txmode, options) => Request::Write(filename, txmode, options),
        packet => Request::Other(packet),
    }
}

/// A TFTP handler to which requests are passed once they've been parsed. A
/// handler can choose to ignore, reject (with an error), or serve each
/// request that comes in. `A` is the type of network addresses.
pub trait Handler<A> {
    /// Handle a new, well-formed, TFTP request.
    ///
    /// The default implementation calls `handle_rrq` for a read request,
    /// `handle_wrq` for a write request, and `handle_other` for everything
    /// else, as `route` sorts them. What it returns is what that hook
    /// returns, which an implementor may override.
    ///
    /// The returned packet, if any, is sent back on the listening socket: use
    /// it for errors that occur before the transfer begins. Once the transfer
    /// has begun, errors go through the channel created for the transfer.
    fn handle<'a>(&self, local: A, remote: A, packet: Packet<'a>) -> Option<Packet<'a>> {
        match route(packet) {
            Request::Read(filename, txmode, options) => self.handle_rrq(
                local,
                remote,
                filename,
                txmode,
                options,
            ),
            Request::Write(filename, txmode, options) => self.handle_wrq(
                local,
                remote,
                filename,
                txmode,
                options,
            ),
            Request::Other(packet) => self.handle_other(local, remote, packet),
        }
    }

    /// Handle a read request (`RRQ`).
    ///
    /// By default this is rejected as an access violation.
    fn handle_rrq<'a>(
        &self,
        _local: A,
        _remote: A,
        _filename: Filename,
        _txmode: TransferMode,
        _options: Options,
    ) -> (r: Option<Packet<'a>>)
        default_ensures
            r matches Some(p) && p@ == Frame::Error(ErrorCode::AccessViolation, "read not supported"@),
    {
        Some(
            Packet::Error(
                ErrorCode::AccessViolation,
                ErrorMessage(String::from_str("read not supported")),
            ),
        )
    }

    /// Handle a write request (`WRQ`).
    ///
    /// By default this is rejected as an access violation.
    fn handle_wrq<'a>(
        &self,
        _local: A,
        _remote: A,
        _filename: Filename,
        _txmode: TransferMode,
        _options: Options,
    ) -> (r: Option<Packet<'a>>)
        default_ensures
            r matches Some(p) && p@ == Frame::Error(ErrorCode::AccessViolation, "write not supported"@),
    {
        Some(
            Packet::Error(
                ErrorCode::AccessViolation,
                ErrorMessage(String::from_str("write not supported")),
            ),
        )
    }

    /// Handle all other requests.
    ///
    /// By default these are ignored. The TFTP specs do not define request
    /// types other than `RRQ` and `WRQ`, so this might be a misdirected or
    /// corrupted packet.
    fn handle_other<'a>(&self, _local: A, _remote: A, _packet: Packet<'a>) -> (r: Option<Packet<'a>>)
        default_ensures
            r is None,
    {
        None
    }
}

} // verus!
