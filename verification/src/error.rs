//! The library-wide error type.
use vstd::prelude::*;

verus! {

/// What went wrong in one of the library's own operations.
#[derive(Debug)]
pub enum BifrostError {
    InvalidPath(String),
    UnsupportedCapability(String),
    Configuration(String),
    Internal(String),
}

/// The text that a [`BifrostError`] is shown with.
pub open spec fn bifrost_error_text(error: BifrostError) -> Seq<char> {
    match error {
        BifrostError::InvalidPath(m) => "invalid remote path: "@ + m@,
        BifrostError::UnsupportedCapability(m) => "unsupported capability: "@ + m@,
        BifrostError::Configuration(m) => "configuration error: "@ + m@,
        BifrostError::Internal(m) => "internal error: "@ + m@,
    }
}

impl BifrostError {
    /// The human-readable text of this error.
    pub fn message(&self) -> (out: String)
        ensures
            out@ == bifrost_error_text(*self),
    {
        let (prefix, detail) = match self {
            BifrostError::InvalidPath(m) => ("invalid remote path: ", m),
            BifrostError::UnsupportedCapability(m) => ("unsupported capability: ", m),
            BifrostError::Configuration(m) => ("configuration error: ", m),
            BifrostError::Internal(m) => ("internal error: ", m),
        };
        let mut out = String::from_str(prefix);
        out.append(detail.as_str());
        out
    }
}

} // verus!
