use vstd::prelude::*;

verus! {

/// Errors raised by the value-page codec.
#[derive(Debug, Clone, PartialEq, Eq)]
pub enum EncodingError {
    /// A caller handed in something this codec does not accept
    /// (an unknown compression scheme, an unsupported data type).
    InvalidInput(String),
    /// A compressed block could not be turned back into the values it holds.
    Decompression(String),
}

} // verus!
