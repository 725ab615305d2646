//! Mendelian inheritance over a ternary genetic code.
//!
//! A [`Gene`] is a sequence of three-valued [`GeneBit`]s.  Two genes of the
//! same length can be crossed position by position; the result is a
//! [`Possibilities`], the list of offspring genes with the exact
//! [`Probability`] of each.  A gene also packs into an integer, two bits per
//! position, and that integer selects a [`Color`].
//!
//! Every function states what it returns over plain mathematical values: a
//! gene is the sequence of its states, a probability is a fraction over a
//! power of two, a list of outcomes is a sequence of such pairs.  The laws
//! that relate the functions are proved beside them.

pub mod character;
pub mod color;
pub mod enumerate;
pub mod error;
pub mod gene;
pub mod gene_bit;
pub mod hybrid;
pub mod possibility;
pub mod probability;
pub mod seed;

pub use character::{character, lookup};
pub use color::Color;
pub use enumerate::build_gene_str_list;
pub use error::GeneError;
pub use gene::Gene;
pub use gene_bit::GeneBit;
pub use possibility::{Possibilities, Possibility};
pub use probability::Probability;
