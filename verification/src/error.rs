use vstd::prelude::*;

verus! {

/// Why a run ends without its result.
#[derive(Clone, Copy, Debug, PartialEq, Eq, Structural)]
pub enum SignalError {
    /// A required argument is missing or cannot be parsed.
    UsageError,
    /// The status record of the process cannot be opened or read.
    StatusUnavailable,
    /// A signal mask holds a character that is no hexadecimal digit, or a
    /// set bit whose signal number does not fit in a `u32`.
    InvalidMask,
    /// The signal enumeration utility failed, or printed something that is
    /// no text.
    NameLookupFailed,
}

impl SignalError {
    /// What to tell the user about the error.
    pub open spec fn message(self) -> Seq<char> {
        match self {
            SignalError::UsageError => "a required argument is missing or cannot be parsed"@,
            SignalError::StatusUnavailable => "the status record of the process cannot be read"@,
            SignalError::InvalidMask => "the signal mask is not valid"@,
            SignalError::NameLookupFailed => "the name of a signal cannot be looked up"@,
        }
    }

    /// What to tell the user about the error.
    pub fn describe(self) -> (r: &'static str)
        ensures
            r@ == self.message(),
    {
        match self {
            SignalError::UsageError => "a required argument is missing or cannot be parsed",
            SignalError::StatusUnavailable => "the status record of the process cannot be read",
            SignalError::InvalidMask => "the signal mask is not valid",
            SignalError::NameLookupFailed => "the name of a signal cannot be looked up",
        }
    }
}

} // verus!
