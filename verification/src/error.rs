//! The error type surfaced by the atlas and the blitter.

use vstd::prelude::*;

verus! {

/// A failure of an atlas operation.
#[derive(Debug)]
pub enum SdlError {
    /// A failure reported by the graphics backend, carrying its message.
    SdlError(String),
    /// An integer did not fit its target type when translating between
    /// geometry representations.
    TryFromIntError,
}

impl SdlError {
    /// Wrap a message as a backend error.
    pub fn sdl_err(msg: &str) -> (r: SdlError)
        ensures
            r matches SdlError::SdlError(m) && m@ == msg@,
    {
        SdlError::SdlError(msg.to_owned())
    }

    /// The human-readable message carried by the error.
    pub fn message(&self) -> (r: String)
        ensures
            match self {
                SdlError::SdlError(m) => r@ == m@,
                SdlError::TryFromIntError => r@ == "integer out of range"@,
            },
    {
        match self {
            SdlError::SdlError(m) => m.clone(),
            SdlError::TryFromIntError => String::from_str("integer out of range"),
        }
    }

    /// Whether this is a backend error (as opposed to a conversion failure).
    pub fn is_backend(&self) -> (b: bool)
        ensures
            b == (self matches SdlError::SdlError(_)),
    {
        match self {
            SdlError::SdlError(_) => true,
            SdlError::TryFromIntError => false,
        }
    }
}

impl Clone for SdlError {
    /// A clone carries the same variant and the same message.
    fn clone(&self) -> (r: Self)
        ensures
            r == *self,
    {
        match self {
            SdlError::SdlError(m) => SdlError::SdlError(m.clone()),
            SdlError::TryFromIntError => SdlError::TryFromIntError,
        }
    }
}

} // verus!
