//! Which failures of a connection mean that the peer is gone.

use vstd::prelude::*;

verus! {

/// The kinds of input and output failure that the protocol tells apart.
#[derive(Clone, Copy, Debug, PartialEq, Eq, Structural)]
pub enum IoFailure {
    BrokenPipe,
    ConnectionReset,
    ConnectionAborted,
    NotConnected,
    WriteZero,
    UnexpectedEof,
    WouldBlock,
    TimedOut,
    Other,
}

/// Whether the connection is of no further use after failure `e`.
pub fn is_connection_broken(e: &IoFailure) -> (broken: bool)
    ensures
        broken == !(*e is WouldBlock || *e is TimedOut || *e is Other),
{
    match e {
        IoFailure::BrokenPipe
        | IoFailure::ConnectionReset
        | IoFailure::ConnectionAborted
        | IoFailure::NotConnected
        | IoFailure::WriteZero
        | IoFailure::UnexpectedEof => true,
        _ => false,
    }
}

} // verus!
