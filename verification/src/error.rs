//! What the engine rejects.

use vstd::prelude::*;

verus! {

#[derive(Debug, Clone, Copy, PartialEq, Eq, Structural)]
pub enum Error {
    /// A handle was used with a context that did not make it.
    ContextMismatch,
    /// An input was asked to go back to an earlier step.
    NotMonotone,
    /// A group broke what its reduction demands.
    ReducerContract,
    /// The graph pulls itself in a circle, or a subgraph ran out of rounds.
    Divergence,
    /// The clock of the context cannot advance any further.
    ClockExhausted,
}

} // verus!
