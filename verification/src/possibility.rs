use vstd::prelude::*;
use vstd::arithmetic::div_mod::{
    lemma_div_denominator, lemma_fundamental_div_mod_converse, lemma_mod_bound, lemma_mod_breakdown,
    lemma_mod_mod, lemma_multiply_divide_lt,
};
use vstd::arithmetic::power2::{pow2, lemma_pow2_adds};
use crate::error::GeneError;
use crate::gene::{parse, parse_human, Gene};
use crate::gene_bit::GeneBit;
use crate::probability::{
    lemma_one_fits, lemma_reduce, lemma_times_associative, Dyadic, Probability,
};

verus! {

/// One possible offspring and how probable it is.
pub struct Outcome {
    pub p: Dyadic,
    pub v: Seq<GeneBit>,
}

/// Two independent outcomes taken together: the probabilities multiply and
/// the second gene continues the first at its high end.
pub open spec fn merge_outcome(first: Outcome, second: Outcome) -> Outcome {
    Outcome { p: first.p.times(second.p), v: first.v + second.v }
}

/// Two independent lists of outcomes taken together: every outcome of the
/// first with every outcome of the second, those of one outcome of the first
/// side by side, duplicates kept.
pub open spec fn merge_all(first: Seq<Outcome>, second: Seq<Outcome>) -> Seq<Outcome> {
    Seq::new(
        first.len() * second.len(),
        |k: int| merge_outcome(first[k / (second.len() as int)], second[k % (second.len() as int)]),
    )
}

/// The outcome that changes nothing when merged: the empty gene, for
/// certain.
pub open spec fn identity_outcome() -> Outcome {
    Outcome { p: Dyadic::one(), v: Seq::empty() }
}

/// The list that changes nothing when merged.
pub open spec fn identity() -> Seq<Outcome> {
    seq![identity_outcome()]
}

/// One outcome merged with every outcome of a list.
pub open spec fn merge_row(first: Outcome, second: Seq<Outcome>) -> Seq<Outcome> {
    Seq::new(second.len(), |j: int| merge_outcome(first, second[j]))
}

/// The probabilities of a list added up, counted in units of `2^-unit`.
pub open spec fn total(list: Seq<Outcome>, unit: nat) -> nat
    decreases list.len(),
{
    if list.len() == 0 {
        0
    } else {
        total(list.drop_last(), unit) + list.last().p.scaled(unit)
    }
}

/// Whether no probability of a list has a denominator above `2^unit`, so
/// that each is a whole number of units of `2^-unit`.
pub open spec fn counts_in(list: Seq<Outcome>, unit: nat) -> bool {
    forall|k: int| 0 <= k < list.len() ==> (#[trigger] list[k]).p.exp <= unit
}

/// What one entry of a list of probabilities and digit strings reads as.
pub open spec fn read_entry(entry: (Probability, &str), human: bool) -> Option<Outcome> {
    let read = if human {
        parse_human(entry.1@)
    } else {
        parse(entry.1@)
    };
    match read {
        Some(bits) => Some(Outcome { p: entry.0@, v: bits }),
        None => None,
    }
}

/// Whether `r` is what reading one entry gave.
pub open spec fn is_entry_reading(r: Result<Possibility, GeneError>, read: Option<Outcome>) -> bool {
    match r {
        Ok(possibility) => read == Some(possibility@),
        Err(e) => e == GeneError::InvalidCharacter && read is None,
    }
}

/// Whether `r` is what reading a whole list gave: every entry in its place,
/// or the error if some entry cannot be read.
pub open spec fn is_list_reading(
    r: Result<Possibilities, GeneError>,
    entries: Seq<(Probability, &str)>,
    human: bool,
) -> bool {
    match r {
        Ok(possibilities) => {
            &&& possibilities@.len() == entries.len()
            &&& forall|i: int|
                0 <= i < entries.len() ==> read_entry(#[trigger] entries[i], human) == Some(
                    possibilities@[i],
                )
        },
        Err(e) => {
            &&& e == GeneError::InvalidCharacter
            &&& exists|i: int|
                0 <= i < entries.len() && read_entry(#[trigger] entries[i], human) is None
        },
    }
}

/// A gene with its probability.
#[derive(Debug, PartialEq, Eq)]
pub struct Possibility {
    pub p: Probability,
    pub v: Gene,
}

impl View for Possibility {
    type V = Outcome;

    open spec fn view(&self) -> Outcome {
        Outcome { p: self.p@, v: self.v@ }
    }
}

impl Possibility {
    /// The gene read from `g`, position 0 first, with probability `p`.
    pub fn new(p: Probability, g: &str) -> (r: Result<Self, GeneError>)
        ensures
            is_entry_reading(r, read_entry((p, g), false)),
    {
        match Gene::from_string(g) {
            Ok(v) => Ok(Possibility { p, v }),
            Err(e) => Err(e),
        }
    }

    /// The gene read from `g`, position 0 last, with probability `p`.
    pub fn human_new(p: Probability, g: &str) -> (r: Result<Self, GeneError>)
        ensures
            is_entry_reading(r, read_entry((p, g), true)),
    {
        match Gene::from_human_string(g) {
            Ok(v) => Ok(Possibility { p, v }),
            Err(e) => Err(e),
        }
    }

    /// As `new`, from a pair.
    pub fn from_tuple(entry: (Probability, &str)) -> (r: Result<Self, GeneError>)
        ensures
            is_entry_reading(r, read_entry(entry, false)),
    {
        Possibility::new(entry.0, entry.1)
    }

    /// As `human_new`, from a pair.
    pub fn from_human_tuple(entry: (Probability, &str)) -> (r: Result<Self, GeneError>)
        ensures
            is_entry_reading(r, read_entry(entry, true)),
    {
        Possibility::human_new(entry.0, entry.1)
    }

    /// This outcome together with an independent one.
    pub fn merge(&self, another: &Self) -> (merged: Self)
        requires
            self.p.product_fits(another.p),
        ensures
            merged@ == merge_outcome(self@, another@),
            another@ == identity_outcome() ==> merged@ == self@,
            self@ == identity_outcome() ==> merged@ == another@,
    {
        let mut v = self.v.clone();
        let mut index: usize = 0;
        while index < another.v.0.len()
            invariant
                index <= another.v@.len(),
                v@ == self.v@ + another.v@.take(index as int),
            decreases another.v@.len() - index,
        {
            v.0.push(another.v.0[index]);
            index += 1;
            assert(v@ =~= self.v@ + another.v@.take(index as int));
        }
        proof {
            assert(another.v@.take(index as int) == another.v@);
            use_type_invariant(&self.p);
            use_type_invariant(&another.p);
            lemma_merge_identity(seq![self@]);
            lemma_merge_identity(seq![another@]);
            assert(merge_all(seq![self@], identity())[0] == merge_outcome(self@, identity_outcome()));
            assert(merge_all(identity(), seq![another@])[0] == merge_outcome(
                identity_outcome(),
                another@,
            ));
        }
        Possibility { p: self.p.times(&another.p), v }
    }

    /// The outcome that changes nothing when merged.
    pub fn zero() -> (r: Self)
        ensures
            r@ == identity_outcome(),
    {
        Possibility { p: Probability::one(), v: Gene(Vec::new()) }
    }
}

impl core::ops::Mul for Possibility {
    type Output = Possibility;

    /// `a * b` is `a.merge(&b)`.
    fn mul(self, rhs: Self) -> (merged: Possibility)
        ensures
            merged@ == merge_outcome(self@, rhs@),
    {
        self.merge(&rhs)
    }
}

/// The contract of `*` on outcomes is the one written on `mul` above; no
/// value of the result type can be named in a specification.
impl vstd::std_specs::ops::MulSpecImpl for Possibility {
    open spec fn obeys_mul_spec() -> bool {
        false
    }

    open spec fn mul_req(self, rhs: Self) -> bool {
        self.p.product_fits(rhs.p)
    }

    open spec fn mul_spec(self, rhs: Self) -> Possibility {
        arbitrary()
    }
}

/// The possible offspring of a cross, each with its probability.  The order
/// of the list is part of the value.
#[derive(Debug, PartialEq, Eq)]
pub struct Possibilities {
    pub ps: Vec<Possibility>,
}

impl View for Possibilities {
    type V = Seq<Outcome>;

    open spec fn view(&self) -> Seq<Outcome> {
        self.ps@.map_values(|possibility: Possibility| possibility@)
    }
}

impl Possibilities {
    /// Whether every product of a probability of `self` with one of
    /// `another` can be held.
    pub open spec fn mergeable(&self, another: &Possibilities) -> bool {
        forall|i: int, j: int|
            0 <= i < self.ps@.len() && 0 <= j < another.ps@.len() ==> (#[trigger] self.ps@[i]).p.product_fits(
                (#[trigger] another.ps@[j]).p,
            )
    }

    /// The list read from probabilities and digit strings, position 0 of
    /// each string first.  Nothing is normalized.
    pub fn new(ps: &[(Probability, &str)]) -> (r: Result<Self, GeneError>)
        ensures
            is_list_reading(r, ps@, false),
    {
        let mut list: Vec<Possibility> = Vec::new();
        let mut index: usize = 0;
        while index < ps.len()
            invariant
                index <= ps@.len(),
                list@.len() == index,
                forall|i: int|
                    0 <= i < index ==> read_entry(#[trigger] ps@[i], false) == Some(list@[i]@),
            decreases ps@.len() - index,
        {
            match Possibility::from_tuple(ps[index]) {
                Ok(possibility) => {
                    list.push(possibility);
                },
                Err(e) => {
                    return Err(e);
                },
            }
            index += 1;
        }
        Ok(Possibilities { ps: list })
    }

    /// The list read from probabilities and digit strings, position 0 of
    /// each string last.  Nothing is normalized.
    pub fn human_new(ps: &[(Probability, &str)]) -> (r: Result<Self, GeneError>)
        ensures
            is_list_reading(r, ps@, true),
    {
        let mut list: Vec<Possibility> = Vec::new();
        let mut index: usize = 0;
        while index < ps.len()
            invariant
                index <= ps@.len(),
                list@.len() == index,
                forall|i: int|
                    0 <= i < index ==> read_entry(#[trigger] ps@[i], true) == Some(list@[i]@),
            decreases ps@.len() - index,
        {
            match Possibility::from_human_tuple(ps[index]) {
                Ok(possibility) => {
                    list.push(possibility);
                },
                Err(e) => {
                    return Err(e);
                },
            }
            index += 1;
        }
        Ok(Possibilities { ps: list })
    }

    /// Whether this list can be merged with `another`: whether every product
    /// of their probabilities can be held.
    pub fn can_merge(&self, another: &Possibilities) -> (b: bool)
        ensures
            b == self.mergeable(another),
    {
        let mut i: usize = 0;
        while i < self.ps.len()
            invariant
                i <= self.ps@.len(),
                forall|x: int, y: int|
                    0 <= x < i && 0 <= y < another.ps@.len() ==> (#[trigger] self.ps@[x]).p.product_fits(
                        (#[trigger] another.ps@[y]).p,
                    ),
            decreases self.ps@.len() - i,
        {
            let mut j: usize = 0;
            while j < another.ps.len()
                invariant
                    i < self.ps@.len(),
                    j <= another.ps@.len(),
                    forall|y: int|
                        0 <= y < j ==> self.ps@[i as int].p.product_fits(
                            (#[trigger] another.ps@[y]).p,
                        ),
                decreases another.ps@.len() - j,
            {
                if !self.ps[i].p.fits_product(&another.ps[j].p) {
                    return false;
                }
                j += 1;
            }
            i += 1;
        }
        true
    }

    /// This list together with an independent one: every outcome of `self`
    /// merged with every outcome of `another`.  Merging with the identity
    /// list, on either side, changes nothing.
    pub fn merge(&self, another: &Possibilities) -> (merged: Possibilities)
        requires
            self.mergeable(another),
        ensures
            merged@ == merge_all(self@, another@),
            another@ == identity() ==> merged@ == self@,
            self@ == identity() ==> merged@ == another@,
    {
        let mut new_ps: Vec<Possibility> = Vec::new();
        let ghost width = another.ps@.len() as int;
        let ghost mut base: int = 0;
        let mut i: usize = 0;
        while i < self.ps.len()
            invariant
                i <= self.ps@.len(),
                width == another.ps@.len(),
                base == i * width,
                new_ps@.len() == base,
                self.mergeable(another),
                forall|k: int|
                    0 <= k < base ==> (#[trigger] new_ps@[k])@ == merge_outcome(
                        self@[k / width],
                        another@[k % width],
                    ),
                forall|x: int| 0 <= x < i ==> (#[trigger] self@[x]).p.canonical(),
                i > 0 ==> forall|y: int| 0 <= y < width ==> (#[trigger] another@[y]).p.canonical(),
            decreases self.ps@.len() - i,
        {
            let my_p = &self.ps[i];
            proof {
                use_type_invariant(&my_p.p);
            }
            let mut j: usize = 0;
            while j < another.ps.len()
                invariant
                    i < self.ps@.len(),
                    j <= another.ps@.len(),
                    width == another.ps@.len(),
                    base == i * width,
                    new_ps@.len() == base + j,
                    self.mergeable(another),
                    *my_p == self.ps@[i as int],
                    forall|k: int|
                        0 <= k < base + j ==> (#[trigger] new_ps@[k])@ == merge_outcome(
                            self@[k / width],
                            another@[k % width],
                        ),
                    forall|y: int| 0 <= y < j ==> (#[trigger] another@[y]).p.canonical(),
                decreases another.ps@.len() - j,
            {
                let another_p = &another.ps[j];
                proof {
                    use_type_invariant(&another_p.p);
                    lemma_fundamental_div_mod_converse(base + j, width, i as int, j as int);
                }
                new_ps.push(my_p.merge(another_p));
                j += 1;
            }
            proof {
                assert((i + 1) * width == i * width + width) by (nonlinear_arith);
                base = base + width;
            }
            i += 1;
        }
        let merged = Possibilities { ps: new_ps };
        proof {
            assert(merged@ =~= merge_all(self@, another@));
            if another@ == identity() {
                lemma_merge_identity(self@);
            }
            if self@ == identity() {
                assert(self@.len() == 1);
                lemma_merge_identity(another@);
            }
        }
        merged
    }

    /// The list that changes nothing when merged.
    pub fn zero() -> (r: Self)
        ensures
            r@ == identity(),
    {
        let r = Possibilities { ps: vec![Possibility::zero()] };
        assert(r@ =~= identity());
        r
    }
}

/// Merging with the identity list, on either side, changes nothing.  Every
/// `Probability` that a program holds is in lowest terms, by its type
/// invariant.
pub proof fn lemma_merge_identity(list: Seq<Outcome>)
    requires
        forall|k: int| 0 <= k < list.len() ==> (#[trigger] list[k]).p.canonical(),
    ensures
        merge_all(list, identity()) == list,
        merge_all(identity(), list) == list,
{
    let right = merge_all(list, identity());
    let left = merge_all(identity(), list);
    assert(right.len() == list.len()) by (nonlinear_arith)
        requires
            right.len() == list.len() * 1,
    ;
    assert(left.len() == list.len()) by (nonlinear_arith)
        requires
            left.len() == 1 * list.len(),
    ;
    assert forall|k: int| 0 <= k < list.len() implies right[k] == list[k] && left[k] == list[k] by {
        let p = list[k].p;
        lemma_fundamental_div_mod_converse(k, list.len() as int, 0, k);
        lemma_reduce(p);
        assert(p.numer * 1 == p.numer && 1 * p.numer == p.numer) by (nonlinear_arith);
        assert(list[k].v + Seq::<GeneBit>::empty() =~= list[k].v);
        assert(Seq::<GeneBit>::empty() + list[k].v =~= list[k].v);
        assert(p.times(Dyadic::one()) == p);
        assert(Dyadic::one().times(p) == p);
    }
    assert(right =~= list);
    assert(left =~= list);
}

/// Merging does not depend on how the lists are grouped.
pub proof fn lemma_merge_associative(a: Seq<Outcome>, b: Seq<Outcome>, c: Seq<Outcome>)
    ensures
        merge_all(merge_all(a, b), c) == merge_all(a, merge_all(b, c)),
{
    let left = merge_all(merge_all(a, b), c);
    let right = merge_all(a, merge_all(b, c));
    let na = a.len() as int;
    let nb = b.len() as int;
    let nc = c.len() as int;
    assert((na * nb) * nc == na * (nb * nc)) by (nonlinear_arith);
    assert(nb * nc == nc * nb) by (nonlinear_arith);
    assert(left.len() == right.len());
    assert forall|k: int| 0 <= k < left.len() implies left[k] == right[k] by {
        assert(nb > 0 && nc > 0) by (nonlinear_arith)
            requires
                0 <= k < (na * nb) * nc,
                0 <= na,
                0 <= nb,
                0 <= nc,
        ;
        assert(k < nc * (na * nb) && k < (nb * nc) * na) by (nonlinear_arith)
            requires
                k < (na * nb) * nc,
        ;
        let row = k / nc;
        let low = k % (nb * nc);
        lemma_multiply_divide_lt(k, nc, na * nb);
        lemma_multiply_divide_lt(row, nb, na);
        lemma_multiply_divide_lt(k, nb * nc, na);
        lemma_mod_bound(k, nc);
        lemma_mod_bound(row, nb);
        lemma_div_denominator(k, nc, nb);
        lemma_mod_mod(k, nc, nb);
        lemma_mod_breakdown(k, nc, nb);
        assert(low == (row % nb) * nc + k % nc) by (nonlinear_arith)
            requires
                low == nc * (row % nb) + k % nc,
        ;
        lemma_fundamental_div_mod_converse(low, nc, row % nb, k % nc);
        let x = a[row / nb];
        let y = b[row % nb];
        let z = c[k % nc];
        assert(merge_all(a, b)[row] == merge_outcome(x, y));
        assert(merge_all(b, c)[low] == merge_outcome(y, z));
        assert(left[k] == merge_outcome(merge_outcome(x, y), z));
        assert(right[k] == merge_outcome(x, merge_outcome(y, z)));
        lemma_times_associative(x.p, y.p, z.p);
        assert((x.v + y.v) + z.v =~= x.v + (y.v + z.v));
    }
    assert(left =~= right);
}

/// Merging a list that has one outcome more gives one row more.
pub proof fn lemma_merge_push(first: Seq<Outcome>, last: Outcome, second: Seq<Outcome>)
    ensures
        merge_all(first.push(last), second) == merge_all(first, second) + merge_row(last, second),
{
    let longer = merge_all(first.push(last), second);
    let parts = merge_all(first, second) + merge_row(last, second);
    let width = second.len() as int;
    let base = first.len() * second.len();
    assert((first.len() + 1) * second.len() == base + second.len()) by (nonlinear_arith)
        requires
            base == first.len() * second.len(),
    ;
    assert forall|k: int| 0 <= k < longer.len() implies longer[k] == parts[k] by {
        if k < base {
            lemma_multiply_divide_lt(k, width, first.len() as int);
        } else {
            lemma_fundamental_div_mod_converse(k, width, first.len() as int, k - base);
        }
    }
    assert(longer =~= parts);
}

/// The total of two lists put end to end is the sum of their totals.
pub proof fn lemma_total_concat(first: Seq<Outcome>, second: Seq<Outcome>, unit: nat)
    ensures
        total(first + second, unit) == total(first, unit) + total(second, unit),
    decreases second.len(),
{
    if second.len() == 0 {
        assert(first + second =~= first);
    } else {
        lemma_total_concat(first, second.drop_last(), unit);
        assert((first + second).drop_last() =~= first + second.drop_last());
    }
}

/// Counted in matching units, the product of two probabilities counts the
/// product of what they count.
pub proof fn lemma_scaled_times(x: Dyadic, x_unit: nat, y: Dyadic, y_unit: nat)
    requires
        x.exp <= x_unit,
        y.exp <= y_unit,
    ensures
        x.times(y).exp <= x_unit + y_unit,
        x.times(y).scaled(x_unit + y_unit) == x.scaled(x_unit) * y.scaled(y_unit),
{
    let raw = Dyadic { numer: x.numer * y.numer, exp: x.exp + y.exp };
    let x_up = (x_unit - x.exp) as nat;
    let y_up = (y_unit - y.exp) as nat;
    lemma_reduce(raw);
    assert(raw.reduce().scaled(x_unit + y_unit) == raw.scaled(x_unit + y_unit));
    lemma_pow2_adds(x_up, y_up);
    assert((x.numer * y.numer) * (pow2(x_up) * pow2(y_up)) == (x.numer * pow2(x_up)) * (y.numer
        * pow2(y_up))) by (nonlinear_arith);
}

/// The total of one row of a merge.
proof fn lemma_total_row(first: Outcome, first_unit: nat, second: Seq<Outcome>, second_unit: nat)
    requires
        first.p.exp <= first_unit,
        counts_in(second, second_unit),
    ensures
        counts_in(merge_row(first, second), first_unit + second_unit),
        total(merge_row(first, second), first_unit + second_unit) == first.p.scaled(first_unit)
            * total(second, second_unit),
    decreases second.len(),
{
    let row = merge_row(first, second);
    let unit = first_unit + second_unit;
    assert forall|k: int| 0 <= k < row.len() implies (#[trigger] row[k]).p.exp <= unit by {
        lemma_scaled_times(first.p, first_unit, second[k].p, second_unit);
    }
    if second.len() == 0 {
        assert(first.p.scaled(first_unit) * 0 == 0) by (nonlinear_arith);
    } else {
        let shorter = second.drop_last();
        lemma_total_row(first, first_unit, shorter, second_unit);
        assert(row.drop_last() =~= merge_row(first, shorter));
        lemma_scaled_times(first.p, first_unit, second.last().p, second_unit);
        assert(first.p.scaled(first_unit) * (total(shorter, second_unit) + second.last().p.scaled(
            second_unit,
        )) == first.p.scaled(first_unit) * total(shorter, second_unit) + first.p.scaled(first_unit)
            * second.last().p.scaled(second_unit)) by (nonlinear_arith);
    }
}

/// The total of a merge is the product of the totals: independent chances
/// multiply.
pub proof fn lemma_total_merge(
    first: Seq<Outcome>,
    first_unit: nat,
    second: Seq<Outcome>,
    second_unit: nat,
)
    requires
        counts_in(first, first_unit),
        counts_in(second, second_unit),
    ensures
        counts_in(merge_all(first, second), first_unit + second_unit),
        total(merge_all(first, second), first_unit + second_unit) == total(first, first_unit)
            * total(second, second_unit),
    decreases first.len(),
{
    let unit = first_unit + second_unit;
    if first.len() == 0 {
        assert(merge_all(first, second).len() == 0) by (nonlinear_arith)
            requires
                merge_all(first, second).len() == first.len() * second.len(),
                first.len() == 0,
        ;
        assert(0 * total(second, second_unit) == 0) by (nonlinear_arith);
    } else {
        let shorter = first.drop_last();
        let last = first.last();
        let row = merge_row(last, second);
        assert(shorter.push(last) =~= first);
        lemma_merge_push(shorter, last, second);
        lemma_total_merge(shorter, first_unit, second, second_unit);
        lemma_total_row(last, first_unit, second, second_unit);
        lemma_total_concat(merge_all(shorter, second), row, unit);
        assert((total(shorter, first_unit) + last.p.scaled(first_unit)) * total(second, second_unit)
            == total(shorter, first_unit) * total(second, second_unit) + last.p.scaled(first_unit)
            * total(second, second_unit)) by (nonlinear_arith);
    }
}

/// Any outcome can be merged with the identity outcome, on either side.
pub proof fn lemma_identity_outcome_mergeable(one: Possibility, another: Possibility)
    requires
        another@ == identity_outcome(),
    ensures
        one.p.product_fits(another.p),
        another.p.product_fits(one.p),
{
    lemma_one_fits(one.p, another.p);
}

/// Any list can be merged with the identity list, on either side.
pub proof fn lemma_identity_mergeable(list: Possibilities, another: Possibilities)
    requires
        another@ == identity(),
    ensures
        list.mergeable(&another),
        another.mergeable(&list),
{
    assert(another@.len() == 1);
    assert(another.ps@.len() == another@.len());
    assert(another@[0] == identity_outcome());
    assert(another.ps@[0]@ == another@[0]);
    assert forall|i: int, j: int|
        0 <= i < list.ps@.len() && 0 <= j < another.ps@.len() implies (#[trigger] list.ps@[i]).p.product_fits(
        (#[trigger] another.ps@[j]).p,
    ) by {
        lemma_one_fits(list.ps@[i].p, another.ps@[j].p);
    }
    assert forall|i: int, j: int|
        0 <= i < another.ps@.len() && 0 <= j < list.ps@.len() implies (#[trigger] another.ps@[i]).p.product_fits(
        (#[trigger] list.ps@[j]).p,
    ) by {
        lemma_one_fits(list.ps@[j].p, another.ps@[i].p);
    }
}

} // verus!
