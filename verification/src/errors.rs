//! The structured failures a run can surface.

use vstd::prelude::*;

verus! {

/// Everything that can go wrong while loading or running a program.
///
/// The two unmatched-bracket variants are load-time syntax errors, reported
/// with the offending position; execution never starts. The bounds variant
/// is a runtime error under the fixed-size tape policy, reported with the
/// program counter of the offending symbol and the pointer it found.
#[derive(Clone, Copy, Debug, PartialEq, Eq, Structural)]
pub enum VmError {
    /// A `]` with no `[` open before it, at this symbol position.
    UnmatchedClose { position: usize },
    /// A `[` that no later `]` closes, at this symbol position.
    UnmatchedOpen { position: usize },
    /// A `<` or `>` that would move the pointer off the tape.
    PointerOutOfBounds { pc: usize, pointer: usize },
}

} // verus!
