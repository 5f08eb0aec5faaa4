use vstd::prelude::*;

pub mod correct;
pub mod iadng;
pub mod pwad;
pub mod sinar_ia;

verus! {

/// Failure taxonomy for the whole pipeline: every stage reports one of these.
#[derive(Debug, Clone, Copy, PartialEq, Eq, Structural)]
pub enum IaError {
    /// Malformed or truncated container or metadata record.
    Format,
    /// A requested lump is absent from the container directory.
    NotFound,
    /// The short model code is missing from the model tables.
    UnsupportedModel,
    /// Buffer length does not match the expected dimensions.
    SizeMismatch,
    /// An open, read or write failed outside the library.
    Io,
}

} // verus!
