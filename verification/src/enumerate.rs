use vstd::prelude::*;
use vstd::arithmetic::div_mod::{
    lemma_fundamental_div_mod_converse, lemma_hoist_over_denominator, lemma_mod_multiples_vanish,
    lemma_small_mod,
};
use vstd::arithmetic::power::{pow, lemma_pow0, lemma_pow1, lemma_pow_adds, lemma_pow_positive};
use crate::gene::{render, Gene};
use crate::gene_bit::GeneBit;

verus! {

/// The state that a digit in base three stands for.
pub open spec fn state(digit: int) -> GeneBit {
    if digit == 0 {
        GeneBit::Zero
    } else if digit == 1 {
        GeneBit::One
    } else {
        GeneBit::Three
    }
}

/// The gene of `length` positions whose states, read as digits in base
/// three with position 0 lowest, spell the number `k`.
pub open spec fn nth_gene(length: nat, k: int) -> Seq<GeneBit> {
    Seq::new(length, |j: int| state(k / pow(3, j as nat) % 3))
}

/// The state that a digit in base three stands for.
fn state_of(digit: usize) -> (bit: GeneBit)
    requires
        digit < 3,
    ensures
        bit == state(digit as int),
{
    if digit == 0 {
        GeneBit::Zero
    } else if digit == 1 {
        GeneBit::One
    } else {
        GeneBit::Three
    }
}

impl Gene {
    /// Every gene of `n + 1` positions, counting up in base three with
    /// position 0 lowest.  For `n == 0` these are the three genes of one
    /// position; there is no way to ask for the empty gene.
    pub fn build_all_gene_list(n: usize) -> (list: Vec<Gene>)
        ensures
            list@.len() == pow(3, (n + 1) as nat),
            forall|k: int|
                0 <= k < list@.len() ==> (#[trigger] list@[k])@ == nth_gene((n + 1) as nat, k),
    {
        let mut list: Vec<Gene> = Vec::new();
        list.push(Gene(vec![GeneBit::Zero]));
        list.push(Gene(vec![GeneBit::One]));
        list.push(Gene(vec![GeneBit::Three]));
        proof {
            lemma_pow0(3);
            lemma_pow1(3);
            assert(list@[0]@ =~= nth_gene(1, 0));
            assert(list@[1]@ =~= nth_gene(1, 1));
            assert(list@[2]@ =~= nth_gene(1, 2));
        }
        let mut level: usize = 0;
        while level < n
            invariant
                level <= n,
                list@.len() == pow(3, (level + 1) as nat),
                forall|k: int|
                    0 <= k < list@.len() ==> (#[trigger] list@[k])@ == nth_gene(
                        (level + 1) as nat,
                        k,
                    ),
            decreases n - level,
        {
            let ghost length = (level + 1) as nat;
            let ghost whole = pow(3, length);
            let mut longer: Vec<Gene> = Vec::new();
            let mut digit: usize = 0;
            while digit < 3
                invariant
                    digit <= 3,
                    length == level + 1,
                    whole == pow(3, length),
                    list@.len() == whole,
                    longer@.len() == digit * whole,
                    forall|k: int|
                        0 <= k < list@.len() ==> (#[trigger] list@[k])@ == nth_gene(length, k),
                    forall|k: int|
                        0 <= k < longer@.len() ==> (#[trigger] longer@[k])@ == nth_gene(
                            length + 1,
                            k,
                        ),
                decreases 3 - digit,
            {
                let mut index: usize = 0;
                while index < list.len()
                    invariant
                        digit < 3,
                        index <= list@.len(),
                        whole == pow(3, length),
                        list@.len() == whole,
                        longer@.len() == digit * whole + index,
                        forall|k: int|
                            0 <= k < list@.len() ==> (#[trigger] list@[k])@ == nth_gene(length, k),
                        forall|k: int|
                            0 <= k < longer@.len() ==> (#[trigger] longer@[k])@ == nth_gene(
                                length + 1,
                                k,
                            ),
                    decreases list@.len() - index,
                {
                    let mut gene = list[index].clone();
                    gene.0.push(state_of(digit));
                    proof {
                        lemma_nth_gene_push(length, index as int, digit as int);
                    }
                    longer.push(gene);
                    index += 1;
                }
                proof {
                    assert((digit + 1) * whole == digit * whole + whole) by (nonlinear_arith);
                }
                digit += 1;
            }
            proof {
                lemma_pow_adds(3, 1, length);
                lemma_pow1(3);
            }
            list = longer;
            level += 1;
        }
        list
    }
}

/// Every gene of `n + 1` positions written as digits, position 0 first, in
/// the order of `Gene::build_all_gene_list`.
pub fn build_gene_str_list(n: usize) -> (list: Vec<String>)
    ensures
        list@.len() == pow(3, (n + 1) as nat),
        forall|k: int|
            0 <= k < list@.len() ==> (#[trigger] list@[k])@ == render(nth_gene((n + 1) as nat, k)),
{
    let genes = Gene::build_all_gene_list(n);
    let mut list: Vec<String> = Vec::new();
    let mut index: usize = 0;
    while index < genes.len()
        invariant
            index <= genes@.len(),
            list@.len() == index,
            genes@.len() == pow(3, (n + 1) as nat),
            forall|k: int|
                0 <= k < genes@.len() ==> (#[trigger] genes@[k])@ == nth_gene((n + 1) as nat, k),
            forall|k: int|
                0 <= k < list@.len() ==> (#[trigger] list@[k])@ == render(
                    nth_gene((n + 1) as nat, k),
                ),
        decreases genes@.len() - index,
    {
        list.push(genes[index].to_string());
        index += 1;
    }
    list
}

/// Counting in base three: the number `digit * 3^length + k` is spelled as
/// `k`, with `digit` above it.
pub proof fn lemma_nth_gene_push(length: nat, k: int, digit: int)
    requires
        0 <= k < pow(3, length),
        0 <= digit < 3,
    ensures
        nth_gene(length + 1, digit * pow(3, length) + k) == nth_gene(length, k).push(state(digit)),
{
    let whole = pow(3, length);
    let number = digit * whole + k;
    let longer = nth_gene(length + 1, number);
    let shorter = nth_gene(length, k).push(state(digit));
    assert forall|j: int| 0 <= j < length + 1 implies longer[j] == shorter[j] by {
        let place = pow(3, j as nat);
        lemma_pow_positive(3, j as nat);
        if j < length {
            let above = (length - j - 1) as nat;
            lemma_pow_adds(3, j as nat, above + 1);
            lemma_pow_adds(3, 1, above);
            lemma_pow1(3);
            let lift = digit * pow(3, above);
            assert(digit * whole == (3 * lift) * place) by (nonlinear_arith)
                requires
                    whole == place * pow(3, above + 1),
                    pow(3, above + 1) == 3 * pow(3, above),
                    lift == digit * pow(3, above),
            ;
            lemma_hoist_over_denominator(k, 3 * lift, place as nat);
            lemma_mod_multiples_vanish(lift, k / place, 3);
        } else {
            lemma_fundamental_div_mod_converse(number, whole, digit, k);
            lemma_small_mod(digit as nat, 3);
        }
    }
    assert(longer =~= shorter);
}

} // verus!
