use vstd::prelude::*;

verus! {

/// Why a tree could not be built. Every failure is a function of the
/// configuration alone, so none is worth retrying.
#[derive(Clone, Copy, Debug, PartialEq, Eq, Structural)]
pub enum TreeError {
    /// The number of leaves is odd, or there is nothing to take a root of.
    InvalidLeafCount,
    /// The hash function and the leaf shape do not go together.
    SchemeMismatch,
    /// A buffer has not the width that the hash function takes, or a round
    /// is answered with another number of digests than it asked for.
    InputWidthMismatch,
}

} // verus!
