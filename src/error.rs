use vstd::prelude::*;

verus! {

/// The faults that the simulation core can report.
#[derive(Debug, Clone, Copy, PartialEq, Eq, Structural)]
pub enum SimError {
    /// A value was inserted into a store that already holds its key.
    DuplicateKey,
    /// No element of the store has the requested key.
    NotFound,
    /// An identifier allocator has handed out its last value.
    IdsExhausted,
}

} // verus!
