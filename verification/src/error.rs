//! The error kinds that an encode step can surface.

use vstd::prelude::*;

verus! {

/// Why an encode step failed.  Every failure is reported to the caller; the
/// stream being built is left in a partially-written, unusable state.
#[derive(Clone, Copy, Debug, PartialEq, Eq, Structural)]
pub enum EncodeError {
    /// A column's declared buffers or null count are internally inconsistent,
    /// for example a null count that exceeds the row count.
    EncodingFailure,
    /// The output sink rejected a write.  The in-memory sink used by this
    /// library never rejects one, so this kind is reserved for sinks that can.
    WriteFailure,
    /// A message body was not a multiple of 8 bytes before framing.
    AlignmentViolation,
    /// The input cannot be represented on the wire, for example a metadata
    /// table too large for the signed 32-bit length prefix.
    UnsupportedInput,
}

impl EncodeError {
    /// A short, fixed description of the error kind.
    pub fn describe(&self) -> (r: &'static str)
        ensures
            r@.len() > 0,
    {
        let r = match self {
            EncodeError::EncodingFailure => "inconsistent column data",
            EncodeError::WriteFailure => "the output sink rejected a write",
            EncodeError::AlignmentViolation => "a message body was not 8-byte aligned",
            EncodeError::UnsupportedInput => "input not representable in the wire format",
        };
        proof {
            reveal_strlit("inconsistent column data");
            reveal_strlit("the output sink rejected a write");
            reveal_strlit("a message body was not 8-byte aligned");
            reveal_strlit("input not representable in the wire format");
        }
        r
    }
}

} // verus!
