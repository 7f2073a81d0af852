use vstd::prelude::*;

verus! {

/// Result of a fallible fixed-dsp operation.
pub type Result<T> = core::result::Result<T, Error>;

/// Error type for fixed-dsp.
#[derive(Debug, Clone, Copy, PartialEq, Eq, Structural)]
pub enum Error {
    /// Not-a-number / infinity equivalent in fixed-point APIs.
    NanInf,
    /// Matrix dimensions that do not fit together.
    SizeMismatch,
}

} // verus!
