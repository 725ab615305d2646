use vstd::prelude::*;
use crate::gene::{parse, Gene};
use crate::gene_bit::GeneBit;

verus! {

/// The gene of the red seed, written `2001` with position 0 last.
pub fn red_seed() -> (gene: Gene)
    ensures
        gene@ == seq![GeneBit::One, GeneBit::Zero, GeneBit::Zero, GeneBit::Three],
{
    let text = "2001";
    proof {
        reveal_strlit("2001");
        assert(parse(text@) is Some);
    }
    let gene = Gene::from_human_string(text).unwrap();
    assert(gene@ =~= seq![GeneBit::One, GeneBit::Zero, GeneBit::Zero, GeneBit::Three]);
    gene
}

/// The gene of the white seed, written `0010` with position 0 last.
pub fn white_seed() -> (gene: Gene)
    ensures
        gene@ == seq![GeneBit::Zero, GeneBit::One, GeneBit::Zero, GeneBit::Zero],
{
    let text = "0010";
    proof {
        reveal_strlit("0010");
        assert(parse(text@) is Some);
    }
    let gene = Gene::from_human_string(text).unwrap();
    assert(gene@ =~= seq![GeneBit::Zero, GeneBit::One, GeneBit::Zero, GeneBit::Zero]);
    gene
}

/// The gene of the yellow seed, written `0200` with position 0 last.
pub fn yellow_seed() -> (gene: Gene)
    ensures
        gene@ == seq![GeneBit::Zero, GeneBit::Zero, GeneBit::Three, GeneBit::Zero],
{
    let text = "0200";
    proof {
        reveal_strlit("0200");
        assert(parse(text@) is Some);
    }
    let gene = Gene::from_human_string(text).unwrap();
    assert(gene@ =~= seq![GeneBit::Zero, GeneBit::Zero, GeneBit::Three, GeneBit::Zero]);
    gene
}

} // verus!
