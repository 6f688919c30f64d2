use vstd::prelude::*;

verus! {

/// Why a pass over the source must abort.  No error is ever downgraded and
/// continued past: the caller stops the run.
#[derive(Clone, Copy, Debug, PartialEq, Eq, Structural)]
pub enum EngineError {
    /// A diagnostic span matched a declaration's name span exactly, but the
    /// text at the span did not equal the declaration's own identifier: a
    /// span-accounting fault between the two parses.
    TripWire,
    /// The source holds a syntactic shape the pruner does not handle: a
    /// multi-segment implementation target or trait path, or a grouped,
    /// renamed or glob import.
    Unsupported,
}

} // verus!
