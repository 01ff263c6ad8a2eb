//! The contract violations the engine can detect.
//!
//! None of these is a recoverable runtime condition: each signals a
//! structurally broken element implementation. The checked entry points
//! (`SubContext::try_end`, the checked state reads) report them as values;
//! the plain entry points exclude the offending inputs by precondition.

use vstd::prelude::*;

verus! {

#[derive(Copy, Clone, Debug, PartialEq, Eq, Structural)]
pub enum UiError {
    /// `end` was called with nothing open: there is no parent to return to.
    StackUnderflow,
    /// A state read used a handle not allocated in exactly the previous
    /// frame.
    WrongFrameRead,
    /// A state slot held a value of a different kind than the one requested,
    /// indicating a handle collision or API misuse.
    StateTypeMismatch,
}

} // verus!
