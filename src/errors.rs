use vstd::prelude::*;

verus! {

/// A fault that aborts a run of the machine.
#[derive(Debug, Clone, Copy, PartialEq, Eq, Structural)]
pub enum BRError {
    /// The data pointer was moved below the first cell or past the last one.
    OutOfBounds,
    /// A `]` was met with no open `[`, or a `[` whose matching `]` is missing.
    UnbalancedLoop,
    /// An input instruction was executed when no input byte was left.
    InputExhausted,
    /// The machine ran for the largest number of cycles a run allows without
    /// reaching the end of its program.
    StepLimit,
}

} // verus!
