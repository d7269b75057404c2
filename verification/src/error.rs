//! The error taxonomy of the codec.

use vstd::prelude::*;

verus! {

/// Errors reported by the buffer, the readers and the structured codec.
///
/// `UnexpectedEnd` signals truncated input: too few bytes remain for a
/// fixed-width read, a varint group, or a length-prefixed body.
/// `InvalidEncoding` is a hard decode failure: a varint with too many
/// continuation groups or one that overflows its target, a corrupt unit
/// tag, text that is not valid UTF-8, or an unknown enum variant name.
/// `OutOfBounds` reports a write or cursor move past the appended
/// region. `ShapeUnsupported` marks a value or decode target that the
/// dense format cannot represent; it is the only error the pack engine
/// answers with its self-describing fallback, every other error is
/// fatal to a pack attempt.
#[derive(Debug, Clone, Copy, PartialEq, Eq, Structural)]
pub enum DataError {
    UnexpectedEnd,
    InvalidEncoding,
    OutOfBounds,
    ShapeUnsupported,
}

impl DataError {
    /// A short description, for callers that need to report the error.
    pub fn message(&self) -> (r: &'static str)
        ensures
            r@.len() > 0,
    {
        proof {
            reveal_strlit("unexpected end of input");
            reveal_strlit("invalid encoding");
            reveal_strlit("out of bounds");
            reveal_strlit("shape unsupported by the dense format");
        }
        match self {
            DataError::UnexpectedEnd => "unexpected end of input",
            DataError::InvalidEncoding => "invalid encoding",
            DataError::OutOfBounds => "out of bounds",
            DataError::ShapeUnsupported => "shape unsupported by the dense format",
        }
    }
}

/// The codec mode: `Probe` is the pack engine's trial run, in which
/// operations that would need self-describing dispatch fail fast with
/// `ShapeUnsupported` instead of emitting or consuming wrong bytes.
#[derive(Debug, Clone, Copy, PartialEq, Eq, Structural)]
pub enum Mode {
    Normal,
    Probe,
}

} // verus!
