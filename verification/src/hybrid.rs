use vstd::prelude::*;
use vstd::arithmetic::div_mod::{lemma_mod_bound, lemma_multiply_divide_lt};
use vstd::arithmetic::power2::{
    pow2, lemma2_to64, lemma_pow2_adds, lemma_pow2_strictly_increases,
};
use crate::error::GeneError;
use crate::gene::Gene;
use crate::gene_bit::GeneBit;
use crate::possibility::{
    counts_in, identity, lemma_total_merge, merge_all, total, Outcome, Possibilities, Possibility,
};
use crate::probability::{raw_product, Dyadic, Probability};

verus! {

/// The outcome of one position: the state `bit`, with probability
/// `1 / 2^exp`.
pub open spec fn outcome(exp: nat, bit: GeneBit) -> Outcome {
    Outcome { p: Dyadic { numer: 1, exp }, v: seq![bit] }
}

/// The offspring of two states at one position.  Each parent hands on one
/// half of its state, either half as likely as the other.
pub open spec fn combine(a: GeneBit, b: GeneBit) -> Seq<Outcome> {
    match (a, b) {
        (GeneBit::Zero, GeneBit::Zero) => seq![outcome(0, GeneBit::Zero)],
        (GeneBit::Zero, GeneBit::One) | (GeneBit::One, GeneBit::Zero) => seq![
            outcome(1, GeneBit::Zero),
            outcome(1, GeneBit::One),
        ],
        (GeneBit::Zero, GeneBit::Three) | (GeneBit::Three, GeneBit::Zero) => seq![
            outcome(0, GeneBit::One),
        ],
        (GeneBit::One, GeneBit::One) => seq![
            outcome(2, GeneBit::Zero),
            outcome(2, GeneBit::Three),
            outcome(1, GeneBit::One),
        ],
        (GeneBit::One, GeneBit::Three) | (GeneBit::Three, GeneBit::One) => seq![
            outcome(1, GeneBit::One),
            outcome(1, GeneBit::Three),
        ],
        (GeneBit::Three, GeneBit::Three) => seq![outcome(0, GeneBit::Three)],
    }
}

/// The offspring of two genes of one length: the outcomes of the positions,
/// merged from position 0 upwards.
pub open spec fn cross(a: Seq<GeneBit>, b: Seq<GeneBit>) -> Seq<Outcome>
    recommends
        a.len() == b.len(),
    decreases a.len(),
{
    if a.len() == 0 || b.len() == 0 {
        identity()
    } else {
        merge_all(cross(a.drop_last(), b.drop_last()), combine(a.last(), b.last()))
    }
}

/// Of the four equally likely ways in which two parents each hand on one
/// half of their state, the number that give the state `child`.  A state
/// counts how many of its two halves are set: none, one or both.
pub open spec fn punnett(a: GeneBit, b: GeneBit, child: GeneBit) -> int {
    let x = a.display_value() as int;
    let y = b.display_value() as int;
    match child {
        GeneBit::Zero => (2 - x) * (2 - y),
        GeneBit::One => x * (2 - y) + (2 - x) * y,
        GeneBit::Three => x * y,
    }
}

/// The probability that a list of outcomes of one position gives to the
/// state `bit`, counted in units of `2^-unit`.
pub open spec fn weight(list: Seq<Outcome>, bit: GeneBit, unit: nat) -> nat
    decreases list.len(),
{
    if list.len() == 0 {
        0
    } else {
        let last = list.last();
        weight(list.drop_last(), bit, unit) + if last.v.len() == 1 && last.v[0] == bit {
            last.p.scaled(unit)
        } else {
            0
        }
    }
}

/// Whether every probability of a list is one over a power of two that is
/// at most the square of the list's length, and every gene has `length`
/// positions.
pub open spec fn is_unit_list(list: Seq<Outcome>, length: nat) -> bool {
    &&& list.len() >= 1
    &&& forall|k: int|
        0 <= k < list.len() ==> {
            &&& (#[trigger] list[k]).p.numer == 1
            &&& list[k].p.exp <= 2 * length
            &&& pow2(list[k].p.exp) <= list.len() * list.len()
            &&& list[k].v.len() == length
        }
}

/// The gene of one position in the state `bit`, with probability `p`.
fn single(p: Probability, bit: GeneBit) -> (r: Possibility)
    ensures
        r@ == (Outcome { p: p@, v: seq![bit] }),
{
    let r = Possibility { p, v: Gene(vec![bit]) };
    assert(r@.v =~= seq![bit]);
    r
}

impl GeneBit {
    /// The offspring of this state and another at one position.
    pub fn hybridize(&self, another: &GeneBit) -> (r: Possibilities)
        ensures
            r@ == combine(*self, *another),
            r@ == combine(*another, *self),
    {
        let ps = match (*self, *another) {
            (GeneBit::Zero, GeneBit::Zero) => vec![single(Probability::one(), GeneBit::Zero)],
            (GeneBit::Zero, GeneBit::One) => vec![
                single(Probability::half(), GeneBit::Zero),
                single(Probability::half(), GeneBit::One),
            ],
            (GeneBit::Zero, GeneBit::Three) => vec![single(Probability::one(), GeneBit::One)],
            (GeneBit::One, GeneBit::Zero) => vec![
                single(Probability::half(), GeneBit::Zero),
                single(Probability::half(), GeneBit::One),
            ],
            (GeneBit::One, GeneBit::One) => vec![
                single(Probability::quarter(), GeneBit::Zero),
                single(Probability::quarter(), GeneBit::Three),
                single(Probability::half(), GeneBit::One),
            ],
            (GeneBit::One, GeneBit::Three) => vec![
                single(Probability::half(), GeneBit::One),
                single(Probability::half(), GeneBit::Three),
            ],
            (GeneBit::Three, GeneBit::Zero) => vec![single(Probability::one(), GeneBit::One)],
            (GeneBit::Three, GeneBit::One) => vec![
                single(Probability::half(), GeneBit::One),
                single(Probability::half(), GeneBit::Three),
            ],
            (GeneBit::Three, GeneBit::Three) => vec![single(Probability::one(), GeneBit::Three)],
        };
        let r = Possibilities { ps };
        assert(r@ =~= combine(*self, *another));
        r
    }
}

impl Gene {
    /// The offspring of this gene and another of the same length, with the
    /// probability of each.
    pub fn hybridize(&self, another: &Self) -> (r: Result<Possibilities, GeneError>)
        ensures
            self@.len() == another@.len() ==> r is Ok && r->Ok_0@ == cross(self@, another@),
            self@.len() == another@.len() ==> counts_in(r->Ok_0@, 2 * self@.len()),
            self@.len() == another@.len() ==> total(r->Ok_0@, 2 * self@.len()) == pow2(
                2 * self@.len(),
            ),
            self@.len() != another@.len() ==> r is Err && r->Err_0 == GeneError::LengthMismatch,
    {
        if self.0.len() != another.0.len() {
            return Err(GeneError::LengthMismatch);
        }
        let mut acc = Possibilities::zero();
        let mut index: usize = 0;
        while index < self.0.len()
            invariant
                index <= self@.len(),
                self@.len() == another@.len(),
                acc@ == cross(self@.take(index as int), another@.take(index as int)),
            decreases self@.len() - index,
        {
            let step = self.0[index].hybridize(&another.0[index]);
            proof {
                let a = self@.take(index as int);
                let b = another@.take(index as int);
                lemma_cross_shape(a, b);
                lemma_combine_shape(self@[index as int], another@[index as int]);
                assert forall|i: int, j: int|
                    0 <= i < acc.ps@.len() && 0 <= j < step.ps@.len() implies (
                #[trigger] acc.ps@[i]).p.product_fits((#[trigger] step.ps@[j]).p) by {
                    assert(acc.ps@[i].p@ == acc@[i].p);
                    assert(step.ps@[j].p@ == step@[j].p);
                    lemma_exp_small(acc@[i].p.exp, acc.ps.len() as nat);
                }
                let a1 = self@.take(index + 1);
                let b1 = another@.take(index + 1);
                assert(a1.drop_last() == a);
                assert(b1.drop_last() == b);
            }
            acc = acc.merge(&step);
            index += 1;
        }
        assert(self@.take(index as int) == self@);
        assert(another@.take(index as int) == another@);
        proof {
            lemma_cross_total(self@, another@);
        }
        Ok(acc)
    }
}

impl core::ops::Mul for GeneBit {
    type Output = Possibilities;

    /// `a * b` is `a.hybridize(&b)`.
    fn mul(self, rhs: Self) -> (r: Possibilities)
        ensures
            r@ == combine(self, rhs),
    {
        self.hybridize(&rhs)
    }
}

impl core::ops::Mul for Gene {
    type Output = Result<Possibilities, GeneError>;

    /// `a * b` is `a.hybridize(&b)`.
    fn mul(self, rhs: Self) -> (r: Result<Possibilities, GeneError>)
        ensures
            self@.len() == rhs@.len() ==> r is Ok && r->Ok_0@ == cross(self@, rhs@),
            self@.len() != rhs@.len() ==> r is Err && r->Err_0 == GeneError::LengthMismatch,
    {
        self.hybridize(&rhs)
    }
}

/// The contract of `*` on states is the one written on `mul` above; no
/// value of the result type can be named in a specification.
impl vstd::std_specs::ops::MulSpecImpl for GeneBit {
    open spec fn obeys_mul_spec() -> bool {
        false
    }

    open spec fn mul_req(self, rhs: Self) -> bool {
        true
    }

    open spec fn mul_spec(self, rhs: Self) -> Possibilities {
        arbitrary()
    }
}

/// The contract of `*` on genes is the one written on `mul` above; no value
/// of the result type can be named in a specification.
impl vstd::std_specs::ops::MulSpecImpl for Gene {
    open spec fn obeys_mul_spec() -> bool {
        false
    }

    open spec fn mul_req(self, rhs: Self) -> bool {
        true
    }

    open spec fn mul_spec(self, rhs: Self) -> Result<Possibilities, GeneError> {
        arbitrary()
    }
}

/// The outcomes of one position are between one and three, each of
/// probability one, a half or a quarter.
pub proof fn lemma_combine_shape(a: GeneBit, b: GeneBit)
    ensures
        is_unit_list(combine(a, b), 1),
        combine(a, b).len() <= 3,
{
    let list = combine(a, b);
    let count = list.len();
    lemma2_to64();
    assert forall|k: int| 0 <= k < list.len() implies {
        &&& (#[trigger] list[k]).p.numer == 1
        &&& list[k].p.exp <= 2
        &&& pow2(list[k].p.exp) <= list.len() * list.len()
        &&& list[k].v.len() == 1
    } by {
        assert(k == 0 || k == 1 || k == 2);
        assert(list[k].p.exp == 0 || list[k].p.exp == 1 || list[k].p.exp == 2);
        assert(count == 1 ==> list[k].p.exp == 0);
        assert(count == 1 ==> count * count == 1) by (nonlinear_arith);
        assert(count >= 2 ==> count * count >= 4) by (nonlinear_arith);
    }
}

/// Merging keeps the shape that `is_unit_list` describes.
proof fn lemma_merge_shape(list: Seq<Outcome>, length: nat, step: Seq<Outcome>)
    requires
        is_unit_list(list, length),
        is_unit_list(step, 1),
    ensures
        is_unit_list(merge_all(list, step), length + 1),
{
    let merged = merge_all(list, step);
    let width = step.len() as int;
    assert(merged.len() == list.len() * step.len());
    assert(merged.len() >= 1) by (nonlinear_arith)
        requires
            merged.len() == list.len() * step.len(),
            list.len() >= 1,
            step.len() >= 1,
    ;
    assert forall|k: int| 0 <= k < merged.len() implies {
        &&& (#[trigger] merged[k]).p.numer == 1
        &&& merged[k].p.exp <= 2 * (length + 1)
        &&& pow2(merged[k].p.exp) <= merged.len() * merged.len()
        &&& merged[k].v.len() == length + 1
    } by {
        lemma_multiply_divide_lt(k, width, list.len() as int);
        lemma_mod_bound(k, width);
        let first = list[k / width];
        let second = step[k % width];
        let product = raw_product(first.p, second.p);
        assert(product.numer == 1) by (nonlinear_arith)
            requires
                product.numer == first.p.numer * second.p.numer,
                first.p.numer == 1,
                second.p.numer == 1,
        ;
        assert(product.reduce() == product);
        lemma_pow2_adds(first.p.exp, second.p.exp);
        assert(pow2(first.p.exp) * pow2(second.p.exp) <= merged.len() * merged.len())
            by (nonlinear_arith)
            requires
                pow2(first.p.exp) <= list.len() * list.len(),
                pow2(second.p.exp) <= step.len() * step.len(),
                merged.len() == list.len() * step.len(),
        ;
    }
}

/// A cross of two genes of `n` positions has at least one outcome; each has
/// `n` positions and a probability of one over a power of two, at least
/// `1 / 4^n`.
pub proof fn lemma_cross_shape(a: Seq<GeneBit>, b: Seq<GeneBit>)
    requires
        a.len() == b.len(),
    ensures
        is_unit_list(cross(a, b), a.len()),
    decreases a.len(),
{
    lemma2_to64();
    if a.len() > 0 {
        lemma_cross_shape(a.drop_last(), b.drop_last());
        lemma_combine_shape(a.last(), b.last());
        lemma_merge_shape(
            cross(a.drop_last(), b.drop_last()),
            (a.len() - 1) as nat,
            combine(a.last(), b.last()),
        );
    }
}

/// The offspring of two states do not depend on which parent has which.
pub proof fn lemma_combine_symmetric(a: GeneBit, b: GeneBit)
    ensures
        combine(a, b) == combine(b, a),
{
}

/// The total of a list of one, two or three outcomes, written out.
proof fn lemma_total_short(list: Seq<Outcome>, unit: nat)
    requires
        1 <= list.len() <= 3,
    ensures
        list.len() == 1 ==> total(list, unit) == list[0].p.scaled(unit),
        list.len() == 2 ==> total(list, unit) == list[0].p.scaled(unit) + list[1].p.scaled(unit),
        list.len() == 3 ==> total(list, unit) == list[0].p.scaled(unit) + list[1].p.scaled(unit)
            + list[2].p.scaled(unit),
    decreases list.len(),
{
    let shorter = list.drop_last();
    if list.len() == 1 {
        assert(total(shorter, unit) == 0);
    } else {
        lemma_total_short(shorter, unit);
    }
}

/// The probabilities of the outcomes of one position add up to one.
pub proof fn lemma_combine_total(a: GeneBit, b: GeneBit)
    ensures
        counts_in(combine(a, b), 2),
        total(combine(a, b), 2) == 4,
{
    let list = combine(a, b);
    lemma2_to64();
    lemma_total_short(list, 2);
    assert forall|k: int| 0 <= k < list.len() implies (#[trigger] list[k]).p.scaled(2) == pow2(
        (2 - list[k].p.exp) as nat,
    ) by {
        let up = pow2((2 - list[k].p.exp) as nat);
        assert(1 * up == up) by (nonlinear_arith);
    }
}

/// The probabilities of the offspring of two genes of one length add up to
/// exactly one: counted in units of `1 / 4^n`, they add up to `4^n`.
pub proof fn lemma_cross_total(a: Seq<GeneBit>, b: Seq<GeneBit>)
    requires
        a.len() == b.len(),
    ensures
        counts_in(cross(a, b), 2 * a.len()),
        total(cross(a, b), 2 * a.len()) == pow2(2 * a.len()),
    decreases a.len(),
{
    lemma2_to64();
    if a.len() == 0 {
        reveal_with_fuel(total, 2);
        assert(identity().drop_last().len() == 0);
    } else {
        let shorter = cross(a.drop_last(), b.drop_last());
        let step = combine(a.last(), b.last());
        let unit = (2 * (a.len() - 1)) as nat;
        lemma_cross_total(a.drop_last(), b.drop_last());
        lemma_combine_total(a.last(), b.last());
        lemma_total_merge(shorter, unit, step, 2);
        lemma_pow2_adds(unit, 2);
    }
}

/// An exponent whose power of two is at most the square of a length that a
/// machine word holds is small.
proof fn lemma_exp_small(exp: nat, len: nat)
    requires
        pow2(exp) <= len * len,
        len <= usize::MAX,
    ensures
        exp < 128,
{
    lemma2_to64();
    lemma_pow2_adds(64, 64);
    assert(len * len < pow2(64) * pow2(64)) by (nonlinear_arith)
        requires
            len < pow2(64),
    ;
    if exp > 128 {
        lemma_pow2_strictly_increases(128, exp);
    }
}

/// The table of one position is the Punnett square: the probability of
/// each state of the child is the share of the four ways of inheriting that
/// give it.
pub proof fn lemma_combine_punnett(a: GeneBit, b: GeneBit, child: GeneBit)
    ensures
        weight(combine(a, b), child, 2) == punnett(a, b, child),
{
    let list = combine(a, b);
    let x = a.display_value() as int;
    let y = b.display_value() as int;
    lemma2_to64();
    lemma_weight_short(list, child, 2);
    assert forall|k: int| 0 <= k < list.len() implies (#[trigger] list[k]).p.scaled(2) == pow2(
        (2 - list[k].p.exp) as nat,
    ) && list[k].v.len() == 1 by {
        assert(k == 0 || k == 1 || k == 2);
        let up = pow2((2 - list[k].p.exp) as nat);
        assert(1 * up == up) by (nonlinear_arith);
    }
    assert((2 - x) * (2 - y) == 4 - 2 * x - 2 * y + x * y) by (nonlinear_arith);
    assert(x * (2 - y) + (2 - x) * y == 2 * x + 2 * y - 2 * (x * y)) by (nonlinear_arith);
    assert(x * y == (if x == 0 || y == 0 {
        0
    } else if x == 1 {
        y
    } else if y == 1 {
        x
    } else {
        4
    })) by (nonlinear_arith)
        requires
            0 <= x <= 2,
            0 <= y <= 2,
    ;
}

/// The weight of a state in a list of one, two or three outcomes, written
/// out.
proof fn lemma_weight_short(list: Seq<Outcome>, bit: GeneBit, unit: nat)
    requires
        1 <= list.len() <= 3,
    ensures
        list.len() == 1 ==> weight(list, bit, unit) == weight(list.take(1), bit, unit),
        list.len() >= 1 ==> weight(list.take(1), bit, unit) == (if list[0].v.len() == 1
            && list[0].v[0] == bit {
            list[0].p.scaled(unit)
        } else {
            0
        }),
        list.len() >= 2 ==> weight(list.take(2), bit, unit) == weight(list.take(1), bit, unit) + (
        if list[1].v.len() == 1 && list[1].v[0] == bit {
            list[1].p.scaled(unit)
        } else {
            0
        }),
        list.len() == 2 ==> weight(list, bit, unit) == weight(list.take(2), bit, unit),
        list.len() == 3 ==> weight(list, bit, unit) == weight(list.take(2), bit, unit) + (
        if list[2].v.len() == 1 && list[2].v[0] == bit {
            list[2].p.scaled(unit)
        } else {
            0
        }),
{
    assert(list.take(1).drop_last().len() == 0);
    assert(weight(list.take(1).drop_last(), bit, unit) == 0);
    assert(list.take(1).last() == list[0]);
    if list.len() >= 2 {
        assert(list.take(2).drop_last() == list.take(1));
        assert(list.take(2).last() == list[1]);
    }
    if list.len() == 1 {
        assert(list.take(1) == list);
    } else if list.len() == 2 {
        assert(list.take(2) == list);
    } else {
        assert(list.drop_last() == list.take(2));
    }
}

} // verus!
