use vstd::prelude::*;

verus! {

/// The colors that a gene of four positions can show.
#[derive(Debug, Clone, Copy, PartialEq, Eq, Structural)]
pub enum Color {
    White,
    Purple,
    Yellow,
    Red,
    Pink,
    Orange,
    Black,
    Blue,
}

} // verus!
