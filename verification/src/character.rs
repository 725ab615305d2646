use vstd::prelude::*;
use vstd::arithmetic::power2::{pow2, lemma2_to64, lemma_pow2_strictly_increases};
use crate::color::Color;
use crate::error::GeneError;
use crate::gene::{lemma_pack_at_least, lemma_pack_zero_above, pack, Gene};
use crate::gene_bit::GeneBit;

verus! {

/// The color of the gene whose four positions, lowest first, are `first` to
/// `fourth`.
pub open spec fn phenotype(first: GeneBit, second: GeneBit, third: GeneBit, fourth: GeneBit) -> Color {
    match (fourth, third) {
        (GeneBit::Zero, GeneBit::Zero) => match (second, first) {
            (GeneBit::Zero, GeneBit::Zero) => Color::White,
            (GeneBit::Zero, GeneBit::One) => Color::White,
            (GeneBit::Zero, GeneBit::Three) => Color::White,
            (GeneBit::One, GeneBit::Zero) => Color::White,
            (GeneBit::One, GeneBit::One) => Color::White,
            (GeneBit::One, GeneBit::Three) => Color::White,
            (GeneBit::Three, GeneBit::Zero) => Color::Purple,
            (GeneBit::Three, GeneBit::One) => Color::Purple,
            (GeneBit::Three, GeneBit::Three) => Color::Purple,
        },
        (GeneBit::Zero, GeneBit::One) => match (second, first) {
            (GeneBit::Zero, GeneBit::Zero) => Color::Yellow,
            (GeneBit::Zero, GeneBit::One) => Color::Yellow,
            (GeneBit::Zero, GeneBit::Three) => Color::Yellow,
            (GeneBit::One, GeneBit::Zero) => Color::White,
            (GeneBit::One, GeneBit::One) => Color::White,
            (GeneBit::One, GeneBit::Three) => Color::White,
            (GeneBit::Three, GeneBit::Zero) => Color::Purple,
            (GeneBit::Three, GeneBit::One) => Color::Purple,
            (GeneBit::Three, GeneBit::Three) => Color::Purple,
        },
        (GeneBit::Zero, GeneBit::Three) => match (second, first) {
            (GeneBit::Zero, GeneBit::Zero) => Color::Yellow,
            (GeneBit::Zero, GeneBit::One) => Color::Yellow,
            (GeneBit::Zero, GeneBit::Three) => Color::Yellow,
            (GeneBit::One, GeneBit::Zero) => Color::Yellow,
            (GeneBit::One, GeneBit::One) => Color::Yellow,
            (GeneBit::One, GeneBit::Three) => Color::Yellow,
            (GeneBit::Three, GeneBit::Zero) => Color::White,
            (GeneBit::Three, GeneBit::One) => Color::White,
            (GeneBit::Three, GeneBit::Three) => Color::White,
        },
        (GeneBit::One, GeneBit::Zero) => match (second, first) {
            (GeneBit::Zero, GeneBit::Zero) => Color::Red,
            (GeneBit::Zero, GeneBit::One) => Color::Pink,
            (GeneBit::Zero, GeneBit::Three) => Color::White,
            (GeneBit::One, GeneBit::Zero) => Color::Red,
            (GeneBit::One, GeneBit::One) => Color::Pink,
            (GeneBit::One, GeneBit::Three) => Color::White,
            (GeneBit::Three, GeneBit::Zero) => Color::Red,
            (GeneBit::Three, GeneBit::One) => Color::Pink,
            (GeneBit::Three, GeneBit::Three) => Color::Purple,
        },
        (GeneBit::One, GeneBit::One) => match (second, first) {
            (GeneBit::Zero, GeneBit::Zero) => Color::Orange,
            (GeneBit::Zero, GeneBit::One) => Color::Yellow,
            (GeneBit::Zero, GeneBit::Three) => Color::Yellow,
            (GeneBit::One, GeneBit::Zero) => Color::Red,
            (GeneBit::One, GeneBit::One) => Color::Pink,
            (GeneBit::One, GeneBit::Three) => Color::White,
            (GeneBit::Three, GeneBit::Zero) => Color::Red,
            (GeneBit::Three, GeneBit::One) => Color::Pink,
            (GeneBit::Three, GeneBit::Three) => Color::Purple,
        },
        (GeneBit::One, GeneBit::Three) => match (second, first) {
            (GeneBit::Zero, GeneBit::Zero) => Color::Orange,
            (GeneBit::Zero, GeneBit::One) => Color::Yellow,
            (GeneBit::Zero, GeneBit::Three) => Color::Yellow,
            (GeneBit::One, GeneBit::Zero) => Color::Orange,
            (GeneBit::One, GeneBit::One) => Color::Yellow,
            (GeneBit::One, GeneBit::Three) => Color::Yellow,
            (GeneBit::Three, GeneBit::Zero) => Color::Red,
            (GeneBit::Three, GeneBit::One) => Color::Pink,
            (GeneBit::Three, GeneBit::Three) => Color::White,
        },
        (GeneBit::Three, GeneBit::Zero) => match (second, first) {
            (GeneBit::Zero, GeneBit::Zero) => Color::Black,
            (GeneBit::Zero, GeneBit::One) => Color::Red,
            (GeneBit::Zero, GeneBit::Three) => Color::Pink,
            (GeneBit::One, GeneBit::Zero) => Color::Black,
            (GeneBit::One, GeneBit::One) => Color::Red,
            (GeneBit::One, GeneBit::Three) => Color::Pink,
            (GeneBit::Three, GeneBit::Zero) => Color::Black,
            (GeneBit::Three, GeneBit::One) => Color::Red,
            (GeneBit::Three, GeneBit::Three) => Color::Pink,
        },
        (GeneBit::Three, GeneBit::One) => match (second, first) {
            (GeneBit::Zero, GeneBit::Zero) => Color::Orange,
            (GeneBit::Zero, GeneBit::One) => Color::Orange,
            (GeneBit::Zero, GeneBit::Three) => Color::Yellow,
            (GeneBit::One, GeneBit::Zero) => Color::Red,
            (GeneBit::One, GeneBit::One) => Color::Red,
            (GeneBit::One, GeneBit::Three) => Color::White,
            (GeneBit::Three, GeneBit::Zero) => Color::Black,
            (GeneBit::Three, GeneBit::One) => Color::Red,
            (GeneBit::Three, GeneBit::Three) => Color::Purple,
        },
        (GeneBit::Three, GeneBit::Three) => match (second, first) {
            (GeneBit::Zero, GeneBit::Zero) => Color::Orange,
            (GeneBit::Zero, GeneBit::One) => Color::Orange,
            (GeneBit::Zero, GeneBit::Three) => Color::Yellow,
            (GeneBit::One, GeneBit::Zero) => Color::Orange,
            (GeneBit::One, GeneBit::One) => Color::Orange,
            (GeneBit::One, GeneBit::Three) => Color::Yellow,
            (GeneBit::Three, GeneBit::Zero) => Color::Blue,
            (GeneBit::Three, GeneBit::One) => Color::Red,
            (GeneBit::Three, GeneBit::Three) => Color::White,
        },
    }
}

/// The state at position `i` of a gene; past its end, `Zero`.
spec fn allele_at(bits: Seq<GeneBit>, i: int) -> GeneBit {
    if 0 <= i < bits.len() {
        bits[i]
    } else {
        GeneBit::Zero
    }
}

/// The state that two packed bits stand for.  The pattern `10` stands for
/// none.
pub open spec fn unpack_pair(pair: nat) -> Option<GeneBit> {
    if pair == 0 {
        Some(GeneBit::Zero)
    } else if pair == 1 {
        Some(GeneBit::One)
    } else if pair == 3 {
        Some(GeneBit::Three)
    } else {
        None
    }
}

/// The color that a packed value stands for: that of the gene of four
/// positions that packs to it, if there is one.
pub open spec fn packed_color(value: nat) -> Option<Color> {
    let first = unpack_pair(value % 4);
    let second = unpack_pair(value / 4 % 4);
    let third = unpack_pair(value / 16 % 4);
    let fourth = unpack_pair(value / 64 % 4);
    if value < 256 && first is Some && second is Some && third is Some && fourth is Some {
        Some(phenotype(first->0, second->0, third->0, fourth->0))
    } else {
        None
    }
}

/// Looks a packed value up in the color table.
pub fn lookup(value: u32) -> (r: Result<Color, GeneError>)
    ensures
        r == (match packed_color(value as nat) {
            Some(color) => Ok::<Color, GeneError>(color),
            None => Err(GeneError::UnmappedGenotype),
        }),
{
    match value {
        0x00 => Ok(Color::White),
        0x01 => Ok(Color::White),
        0x03 => Ok(Color::White),
        0x04 => Ok(Color::White),
        0x05 => Ok(Color::White),
        0x07 => Ok(Color::White),
        0x0c => Ok(Color::Purple),
        0x0d => Ok(Color::Purple),
        0x0f => Ok(Color::Purple),
        0x10 => Ok(Color::Yellow),
        0x11 => Ok(Color::Yellow),
        0x13 => Ok(Color::Yellow),
        0x14 => Ok(Color::White),
        0x15 => Ok(Color::White),
        0x17 => Ok(Color::White),
        0x1c => Ok(Color::Purple),
        0x1d => Ok(Color::Purple),
        0x1f => Ok(Color::Purple),
        0x30 => Ok(Color::Yellow),
        0x31 => Ok(Color::Yellow),
        0x33 => Ok(Color::Yellow),
        0x34 => Ok(Color::Yellow),
        0x35 => Ok(Color::Yellow),
        0x37 => Ok(Color::Yellow),
        0x3c => Ok(Color::White),
        0x3d => Ok(Color::White),
        0x3f => Ok(Color::White),
        0x40 => Ok(Color::Red),
        0x41 => Ok(Color::Pink),
        0x43 => Ok(Color::White),
        0x44 => Ok(Color::Red),
        0x45 => Ok(Color::Pink),
        0x47 => Ok(Color::White),
        0x4c => Ok(Color::Red),
        0x4d => Ok(Color::Pink),
        0x4f => Ok(Color::Purple),
        0x50 => Ok(Color::Orange),
        0x51 => Ok(Color::Yellow),
        0x53 => Ok(Color::Yellow),
        0x54 => Ok(Color::Red),
        0x55 => Ok(Color::Pink),
        0x57 => Ok(Color::White),
        0x5c => Ok(Color::Red),
        0x5d => Ok(Color::Pink),
        0x5f => Ok(Color::Purple),
        0x70 => Ok(Color::Orange),
        0x71 => Ok(Color::Yellow),
        0x73 => Ok(Color::Yellow),
        0x74 => Ok(Color::Orange),
        0x75 => Ok(Color::Yellow),
        0x77 => Ok(Color::Yellow),
        0x7c => Ok(Color::Red),
        0x7d => Ok(Color::Pink),
        0x7f => Ok(Color::White),
        0xc0 => Ok(Color::Black),
        0xc1 => Ok(Color::Red),
        0xc3 => Ok(Color::Pink),
        0xc4 => Ok(Color::Black),
        0xc5 => Ok(Color::Red),
        0xc7 => Ok(Color::Pink),
        0xcc => Ok(Color::Black),
        0xcd => Ok(Color::Red),
        0xcf => Ok(Color::Pink),
        0xd0 => Ok(Color::Orange),
        0xd1 => Ok(Color::Orange),
        0xd3 => Ok(Color::Yellow),
        0xd4 => Ok(Color::Red),
        0xd5 => Ok(Color::Red),
        0xd7 => Ok(Color::White),
        0xdc => Ok(Color::Black),
        0xdd => Ok(Color::Red),
        0xdf => Ok(Color::Purple),
        0xf0 => Ok(Color::Orange),
        0xf1 => Ok(Color::Orange),
        0xf3 => Ok(Color::Yellow),
        0xf4 => Ok(Color::Orange),
        0xf5 => Ok(Color::Orange),
        0xf7 => Ok(Color::Yellow),
        0xfc => Ok(Color::Blue),
        0xfd => Ok(Color::Red),
        0xff => Ok(Color::White),
        _ => Err(GeneError::UnmappedGenotype),
    }
}

/// The color of a gene: the color that its packed value stands for.  The
/// table has a color for every gene of four positions.  A shorter gene has
/// the color of the gene that continues it with `Zero`, and a gene with any
/// other state above its fourth position has none.
pub fn character(gene4: &Gene) -> (r: Result<Color, GeneError>)
    ensures
        r == (match packed_color(pack(gene4@)) {
            Some(color) => Ok::<Color, GeneError>(color),
            None => Err(GeneError::UnmappedGenotype),
        }),
        r is Ok <==> forall|i: int| 4 <= i < gene4@.len() ==> gene4@[i] == GeneBit::Zero,
        gene4@.len() == 4 ==> r == Ok::<Color, GeneError>(
            phenotype(gene4@[0], gene4@[1], gene4@[2], gene4@[3]),
        ),
{
    let mut index: usize = 4;
    while index < gene4.0.len()
        invariant
            4 <= index,
            forall|i: int| 4 <= i < index && i < gene4@.len() ==> gene4@[i] == GeneBit::Zero,
        decreases gene4@.len() - index,
    {
        match gene4.0[index] {
            GeneBit::Zero => {},
            _ => {
                proof {
                    lemma_pack_at_least(gene4@, index as nat);
                    lemma2_to64();
                    if index > 4 {
                        lemma_pow2_strictly_increases(8, 2 * index as nat);
                    }
                    let place = pow2(2 * index as nat);
                    assert(gene4@[index as int].genetic_value() * place >= place)
                        by (nonlinear_arith)
                        requires
                            gene4@[index as int].genetic_value() >= 1,
                    ;
                }
                return Err(GeneError::UnmappedGenotype);
            },
        }
        index += 1;
    }
    let count: usize = if gene4.0.len() < 4 {
        gene4.0.len()
    } else {
        4
    };
    let low: u32 = gene4.pack_prefix(count);
    proof {
        let bits = gene4@.take(count as int);
        lemma_pack_zero_above(gene4@, count as nat);
        lemma_pack_four(bits);
        lemma_packed_color_total(
            allele_at(bits, 0),
            allele_at(bits, 1),
            allele_at(bits, 2),
            allele_at(bits, 3),
        );
    }
    lookup(low)
}

/// Every gene of four positions has a color, and its packed value stands
/// for that color.
pub proof fn lemma_packed_color_total(first: GeneBit, second: GeneBit, third: GeneBit, fourth: GeneBit)
    ensures
        packed_color(
            first.genetic_value() + 4 * second.genetic_value() + 16 * third.genetic_value() + 64
                * fourth.genetic_value(),
        ) == Some(phenotype(first, second, third, fourth)),
{
}

/// The packed value of a gene of at most four positions, written out.
proof fn lemma_pack_four(bits: Seq<GeneBit>)
    requires
        bits.len() <= 4,
    ensures
        pack(bits) == allele_at(bits, 0).genetic_value() + 4 * allele_at(bits, 1).genetic_value()
            + 16 * allele_at(bits, 2).genetic_value() + 64 * allele_at(bits, 3).genetic_value(),
    decreases bits.len(),
{
    lemma2_to64();
    if bits.len() > 0 {
        let low = bits.drop_last();
        lemma_pack_four(low);
        let place = pow2((2 * (bits.len() - 1)) as nat);
        assert(pack(bits) == pack(low) + bits.last().genetic_value() * place);
        let top = bits.last().genetic_value();
        assert(allele_at(bits, bits.len() - 1) == bits.last());
        if bits.len() == 1 {
            assert(top * place == top) by (nonlinear_arith)
                requires
                    place == 1,
            ;
        } else if bits.len() == 2 {
            assert(top * place == 4 * top) by (nonlinear_arith)
                requires
                    place == 4,
            ;
            assert(allele_at(low, 0) == allele_at(bits, 0));
        } else if bits.len() == 3 {
            assert(top * place == 16 * top) by (nonlinear_arith)
                requires
                    place == 16,
            ;
            assert(allele_at(low, 0) == allele_at(bits, 0));
            assert(allele_at(low, 1) == allele_at(bits, 1));
        } else {
            assert(top * place == 64 * top) by (nonlinear_arith)
                requires
                    place == 64,
            ;
            assert(allele_at(low, 0) == allele_at(bits, 0));
            assert(allele_at(low, 1) == allele_at(bits, 1));
            assert(allele_at(low, 2) == allele_at(bits, 2));
        }
    }
}

} // verus!
