use vstd::prelude::*;

verus! {

/// Why a connection was given up.
#[derive(Clone, Copy, Debug, PartialEq, Eq, Structural)]
pub enum ProtocolError {
    /// The byte stream failed, or ended before a field was complete.
    IoFailure,
    /// A VarInt still announced more bytes after its fifth byte.
    VarIntTooLong,
    /// Text that is not UTF-8, or a number that does not fit its target width.
    InvalidEncoding,
    /// A handshake asked for a next state other than status or login.
    UnexpectedNextState,
}

} // verus!
