//! What can go wrong.
use vstd::prelude::*;
use crate::text;

verus! {

/// An error of the library.
#[derive(Debug)]
pub enum DemucsError {
    /// The weights could not be loaded.
    Weight(String),
    /// The graphics device reported an error.
    Cuda(String),
    /// The signal processing around the network failed.
    Dsp(String),
    /// Shapes do not fit together.
    Shape(String),
    /// Anything else.
    Internal(String),
}

pub type Result<T> = core::result::Result<T, DemucsError>;

/// The text that describes `e`.
pub open spec fn error_text(e: DemucsError) -> Seq<char> {
    match e {
        DemucsError::Weight(m) => "weight loading failed: "@ + m@,
        DemucsError::Cuda(m) => "CUDA error: "@ + m@,
        DemucsError::Dsp(m) => "DSP error: "@ + m@,
        DemucsError::Shape(m) => "shape mismatch: "@ + m@,
        DemucsError::Internal(m) => "internal: "@ + m@,
    }
}

/// What went wrong, without the kind of error that it is.
pub open spec fn detail(e: DemucsError) -> Seq<char> {
    match e {
        DemucsError::Weight(m) => m@,
        DemucsError::Cuda(m) => m@,
        DemucsError::Dsp(m) => m@,
        DemucsError::Shape(m) => m@,
        DemucsError::Internal(m) => m@,
    }
}

impl DemucsError {
    /// What went wrong, without the kind of error that it is.
    pub fn into_detail(self) -> (r: String)
        ensures
            r@ == detail(self),
    {
        match self {
            DemucsError::Weight(m) => m,
            DemucsError::Cuda(m) => m,
            DemucsError::Dsp(m) => m,
            DemucsError::Shape(m) => m,
            DemucsError::Internal(m) => m,
        }
    }

    /// The text that describes the error.
    pub fn message(&self) -> (r: String)
        ensures
            r@ == error_text(*self),
    {
        match self {
            DemucsError::Weight(m) => text::join("weight loading failed: ", m.as_str()),
            DemucsError::Cuda(m) => text::join("CUDA error: ", m.as_str()),
            DemucsError::Dsp(m) => text::join("DSP error: ", m.as_str()),
            DemucsError::Shape(m) => text::join("shape mismatch: ", m.as_str()),
            DemucsError::Internal(m) => text::join("internal: ", m.as_str()),
        }
    }
}

} // verus!
