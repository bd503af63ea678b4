//! What can go wrong.

use vstd::prelude::*;

verus! {

/// An error that the client finds by itself.
#[derive(Clone, Copy, Debug, PartialEq, Eq, Structural)]
pub enum SmbError {
    /// A message ended before a field that it must hold.
    Truncated,
    /// A chain of create contexts does not follow the format.
    InvalidCreateContexts,
    /// A lease break notification of the wrong size.
    InvalidLeaseBreak,
    /// A CREATE response with a malformed lease grant.
    InvalidLeaseGrant,
    /// The system gave no random bytes for a lease key.
    LeaseKeyUnavailable,
    /// Every lease number has been used.
    LeaseNumbersExhausted,
    /// A page was asked for after the directory handle was given up.
    CursorClosed,
}

impl SmbError {
    /// The text to show for an error.
    pub open spec fn text(self) -> Seq<char> {
        match self {
            SmbError::Truncated => "message is truncated"@,
            SmbError::InvalidCreateContexts => "invalid create contexts"@,
            SmbError::InvalidLeaseBreak => "invalid lease break size"@,
            SmbError::InvalidLeaseGrant => "invalid read lease grant"@,
            SmbError::LeaseKeyUnavailable => "read lease key randomness unavailable"@,
            SmbError::LeaseNumbersExhausted => "read lease numbers exhausted"@,
            SmbError::CursorClosed => "directory cursor is closed"@,
        }
    }

    /// The text to show for this error.
    pub fn message(&self) -> (message: &'static str)
        ensures
            message@ == self.text(),
    {
        match self {
            SmbError::Truncated => "message is truncated",
            SmbError::InvalidCreateContexts => "invalid create contexts",
            SmbError::InvalidLeaseBreak => "invalid lease break size",
            SmbError::InvalidLeaseGrant => "invalid read lease grant",
            SmbError::LeaseKeyUnavailable => "read lease key randomness unavailable",
            SmbError::LeaseNumbersExhausted => "read lease numbers exhausted",
            SmbError::CursorClosed => "directory cursor is closed",
        }
    }
}

} // verus!
