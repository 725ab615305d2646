use vstd::prelude::*;

verus! {

/// What can be wrong with an input.
#[derive(Debug, Clone, Copy, PartialEq, Eq, Structural)]
pub enum GeneError {
    /// A digit other than `0`, `1` or `2` where an allele was expected.
    InvalidCharacter,
    /// Two genes of different lengths were to be crossed.
    LengthMismatch,
    /// A packed value that the color table has no entry for.
    UnmappedGenotype,
}

} // verus!
