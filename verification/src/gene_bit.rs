use vstd::prelude::*;
use crate::error::GeneError;

verus! {

/// One allele pair at one position of a gene.
///
/// The three states are written `0`, `1` and `2`.  When a gene is packed
/// into an integer the states occupy two bits and read `00`, `01` and `11`,
/// so the third state has the value 3 there.
#[derive(Debug, Clone, Copy, PartialEq, Eq, Structural)]
pub enum GeneBit {
    Zero,
    One,
    Three,
}

impl GeneBit {
    /// The two bits that this state occupies in a packed gene.
    pub open spec fn genetic_value(self) -> nat {
        match self {
            GeneBit::Zero => 0,
            GeneBit::One => 1,
            GeneBit::Three => 3,
        }
    }

    /// The number under which this state is written and read.
    pub open spec fn display_value(self) -> nat {
        match self {
            GeneBit::Zero => 0,
            GeneBit::One => 1,
            GeneBit::Three => 2,
        }
    }

    /// The character under which this state is written and read.
    pub open spec fn digit(self) -> char {
        match self {
            GeneBit::Zero => '0',
            GeneBit::One => '1',
            GeneBit::Three => '2',
        }
    }

    /// The state with the given display value, if there is one.
    pub open spec fn of_number(value: nat) -> Option<GeneBit> {
        if value == 0 {
            Some(GeneBit::Zero)
        } else if value == 1 {
            Some(GeneBit::One)
        } else if value == 2 {
            Some(GeneBit::Three)
        } else {
            None
        }
    }

    /// The state that the given character stands for, if it stands for one.
    pub open spec fn of_digit(ch: char) -> Option<GeneBit> {
        if ch == '0' {
            Some(GeneBit::Zero)
        } else if ch == '1' {
            Some(GeneBit::One)
        } else if ch == '2' {
            Some(GeneBit::Three)
        } else {
            None
        }
    }

    /// Reads a state from its display value.  Only 0, 1 and 2 are states.
    pub fn from_number(value: u32) -> (r: Result<Self, GeneError>)
        ensures
            r == (match GeneBit::of_number(value as nat) {
                Some(bit) => Ok::<GeneBit, GeneError>(bit),
                None => Err(GeneError::InvalidCharacter),
            }),
    {
        if value == 0 {
            Ok(GeneBit::Zero)
        } else if value == 1 {
            Ok(GeneBit::One)
        } else if value == 2 {
            Ok(GeneBit::Three)
        } else {
            Err(GeneError::InvalidCharacter)
        }
    }

    /// Reads a state from its character.  Only `0`, `1` and `2` are states.
    pub fn from_char(ch: char) -> (r: Result<Self, GeneError>)
        ensures
            r == (match GeneBit::of_digit(ch) {
                Some(bit) => Ok::<GeneBit, GeneError>(bit),
                None => Err(GeneError::InvalidCharacter),
            }),
    {
        if ch == '0' {
            Ok(GeneBit::Zero)
        } else if ch == '1' {
            Ok(GeneBit::One)
        } else if ch == '2' {
            Ok(GeneBit::Three)
        } else {
            Err(GeneError::InvalidCharacter)
        }
    }

    /// The character of this state.
    pub fn to_char(&self) -> (ch: char)
        ensures
            ch == self.digit(),
    {
        match self {
            GeneBit::Zero => '0',
            GeneBit::One => '1',
            GeneBit::Three => '2',
        }
    }

    /// The value of this state in a packed gene: 0, 1 or 3.
    pub fn value(&self) -> (v: u32)
        ensures
            v == self.genetic_value(),
    {
        match self {
            GeneBit::Zero => 0,
            GeneBit::One => 1,
            GeneBit::Three => 3,
        }
    }

    /// The value under which this state is written: 0, 1 or 2.
    pub fn show_value(&self) -> (v: u32)
        ensures
            v == self.display_value(),
    {
        match self {
            GeneBit::Zero => 0,
            GeneBit::One => 1,
            GeneBit::Three => 2,
        }
    }
}

/// Reading is the inverse of writing, by number and by character, and
/// nothing but what was written is read.
pub proof fn lemma_digit_roundtrip(bit: GeneBit, value: nat, ch: char)
    ensures
        GeneBit::of_number(bit.display_value()) == Some(bit),
        GeneBit::of_digit(bit.digit()) == Some(bit),
        GeneBit::of_number(value) == Some(bit) <==> value == bit.display_value(),
        GeneBit::of_digit(ch) == Some(bit) <==> ch == bit.digit(),
        GeneBit::of_number(value) is Some <==> value <= 2,
{
}

} // verus!
