use vstd::prelude::*;

verus! {

/// Errors shared across the library.
#[derive(Debug)]
pub enum AbyssError {
    InvalidLayerProgram { reason: String },
    MalformedTrace { reason: String },
    Verification(String),
    Engine(String),
    Router(String),
    Memory(String),
    Weight(String),
    Inference(String),
}

/// The crate-wide result type.
pub type AbyssResult<T> = Result<T, AbyssError>;

} // verus!
