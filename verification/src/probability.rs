use vstd::prelude::*;
use vstd::arithmetic::power2::{pow2, lemma_pow2_adds, lemma_pow2_pos, lemma_pow2_unfold};

verus! {

/// A non-negative fraction whose denominator is a power of two:
/// `numer / 2^exp`.  Probabilities are kept in this form, so that a product
/// of probabilities is exact.
pub struct Dyadic {
    pub numer: nat,
    pub exp: nat,
}

impl Dyadic {
    /// Lowest terms: the numerator is odd, or nothing is left to cancel.
    pub open spec fn canonical(self) -> bool {
        self.exp == 0 || self.numer % 2 == 1
    }

    /// The same fraction in lowest terms.
    pub open spec fn reduce(self) -> Dyadic
        decreases self.exp,
    {
        if self.exp > 0 && self.numer % 2 == 0 {
            (Dyadic { numer: self.numer / 2, exp: (self.exp - 1) as nat }).reduce()
        } else {
            self
        }
    }

    /// Whether two fractions are the same number.
    pub open spec fn same_value(self, other: Dyadic) -> bool {
        self.numer * pow2(other.exp) == other.numer * pow2(self.exp)
    }

    /// The product, in lowest terms.
    pub open spec fn times(self, other: Dyadic) -> Dyadic {
        raw_product(self, other).reduce()
    }

    /// The fraction counted in units of `2^-unit`.  The count is exact when
    /// `unit` is at least `exp`; a finer fraction is rounded down.
    pub open spec fn scaled(self, unit: nat) -> nat {
        if self.exp <= unit {
            self.numer * pow2((unit - self.exp) as nat)
        } else {
            self.numer / pow2((self.exp - unit) as nat)
        }
    }

    /// The number one.
    pub open spec fn one() -> Dyadic {
        Dyadic { numer: 1, exp: 0 }
    }
}

/// The product of two fractions, numerator by numerator and denominator by
/// denominator, before it is reduced.
pub open spec fn raw_product(x: Dyadic, y: Dyadic) -> Dyadic {
    Dyadic { numer: x.numer * y.numer, exp: x.exp + y.exp }
}

/// A probability, held exactly as a fraction over a power of two and always
/// in lowest terms, so that equal probabilities are equal values.
#[derive(Debug, Clone, Copy, PartialEq, Eq)]
pub struct Probability {
    numer: u64,
    exp: u32,
}

impl View for Probability {
    type V = Dyadic;

    closed spec fn view(&self) -> Dyadic {
        Dyadic { numer: self.numer as nat, exp: self.exp as nat }
    }
}

impl Probability {
    /// Every probability is held in lowest terms.
    #[verifier::type_invariant]
    pub open spec fn in_lowest_terms(self) -> bool {
        self@.canonical()
    }

    /// Whether the product of two probabilities can be held.
    pub open spec fn product_fits(self, other: Probability) -> bool {
        &&& self@.numer * other@.numer <= u64::MAX
        &&& self@.exp + other@.exp <= u32::MAX
    }

    /// The probability `numer / 2^exp`.
    pub fn new(numer: u64, exp: u32) -> (p: Probability)
        ensures
            p@ == (Dyadic { numer: numer as nat, exp: exp as nat }).reduce(),
    {
        let mut n: u64 = numer;
        let mut e: u32 = exp;
        while e > 0 && n % 2 == 0
            invariant
                (Dyadic { numer: n as nat, exp: e as nat }).reduce() == (Dyadic {
                    numer: numer as nat,
                    exp: exp as nat,
                }).reduce(),
            decreases e,
        {
            n = n / 2;
            e = e - 1;
        }
        Probability { numer: n, exp: e }
    }

    /// Certainty.
    pub fn one() -> (p: Probability)
        ensures
            p@ == Dyadic::one(),
    {
        Probability { numer: 1, exp: 0 }
    }

    /// One in two.
    pub fn half() -> (p: Probability)
        ensures
            p@ == (Dyadic { numer: 1, exp: 1 }),
    {
        Probability { numer: 1, exp: 1 }
    }

    /// One in four.
    pub fn quarter() -> (p: Probability)
        ensures
            p@ == (Dyadic { numer: 1, exp: 2 }),
    {
        Probability { numer: 1, exp: 2 }
    }

    /// The numerator of the fraction in lowest terms.
    pub fn numerator(&self) -> (n: u64)
        ensures
            n == self@.numer,
    {
        self.numer
    }

    /// The number of times two divides the denominator of the fraction in
    /// lowest terms.
    pub fn halvings(&self) -> (e: u32)
        ensures
            e == self@.exp,
    {
        self.exp
    }

    /// Whether the product with `other` can be held.
    pub fn fits_product(&self, other: &Probability) -> (b: bool)
        ensures
            b == self.product_fits(*other),
    {
        self.numer.checked_mul(other.numer).is_some() && self.exp.checked_add(other.exp).is_some()
    }

    /// The product of two probabilities.
    pub fn times(&self, other: &Probability) -> (p: Probability)
        requires
            self.product_fits(*other),
        ensures
            p@ == self@.times(other@),
    {
        Probability::new(self.numer * other.numer, self.exp + other.exp)
    }
}

/// Reducing gives lowest terms, changes neither the number nor what it
/// counts in any unit, and leaves a fraction in lowest terms as it is.
pub proof fn lemma_reduce(d: Dyadic)
    ensures
        d.reduce().canonical(),
        d.reduce().same_value(d),
        d.reduce().exp <= d.exp,
        d.reduce().numer <= d.numer,
        d.canonical() ==> d.reduce() == d,
        forall|unit: nat| d.exp <= unit ==> #[trigger] d.reduce().scaled(unit) == d.scaled(unit),
    decreases d.exp,
{
    if d.exp > 0 && d.numer % 2 == 0 {
        let half = Dyadic { numer: d.numer / 2, exp: (d.exp - 1) as nat };
        let r = half.reduce();
        lemma_reduce(half);
        lemma_pow2_unfold(d.exp);
        assert(r.numer * pow2(d.exp) == d.numer * pow2(r.exp)) by (nonlinear_arith)
            requires
                r.numer * pow2(half.exp) == half.numer * pow2(r.exp),
                pow2(d.exp) == 2 * pow2(half.exp),
                d.numer == 2 * half.numer,
        ;
        assert forall|unit: nat| d.exp <= unit implies #[trigger] d.reduce().scaled(unit)
            == d.scaled(unit) by {
            assert(r.scaled(unit) == half.scaled(unit));
            lemma_pow2_unfold((unit - half.exp) as nat);
            assert(half.numer * pow2((unit - half.exp) as nat) == d.numer * pow2(
                (unit - d.exp) as nat,
            )) by (nonlinear_arith)
                requires
                    pow2((unit - half.exp) as nat) == 2 * pow2((unit - d.exp) as nat),
                    d.numer == 2 * half.numer,
            ;
        }
    }
}

/// Two fractions in lowest terms that are the same number are written the
/// same way.
pub proof fn lemma_canonical_unique(a: Dyadic, b: Dyadic)
    requires
        a.canonical(),
        b.canonical(),
        a.same_value(b),
    ensures
        a == b,
{
    if a.exp < b.exp {
        lemma_unequal_exp(a, b);
    } else if b.exp < a.exp {
        lemma_unequal_exp(b, a);
    } else {
        lemma_pow2_pos(a.exp);
        assert(a.numer == b.numer) by (nonlinear_arith)
            requires
                a.numer * pow2(a.exp) == b.numer * pow2(a.exp),
                pow2(a.exp) > 0,
        ;
    }
}

/// Of two ways to write one number, the one with the larger exponent has an
/// even numerator.
proof fn lemma_unequal_exp(a: Dyadic, b: Dyadic)
    requires
        a.exp < b.exp,
        a.numer * pow2(b.exp) == b.numer * pow2(a.exp),
    ensures
        b.numer % 2 == 0,
{
    let gap = (b.exp - a.exp) as nat;
    lemma_pow2_adds(a.exp, gap);
    lemma_pow2_pos(a.exp);
    lemma_pow2_unfold(gap);
    let rest = pow2((gap - 1) as nat);
    assert(b.numer == 2 * (a.numer * rest)) by (nonlinear_arith)
        requires
            a.numer * pow2(b.exp) == b.numer * pow2(a.exp),
            pow2(b.exp) == pow2(a.exp) * pow2(gap),
            pow2(gap) == 2 * rest,
            pow2(a.exp) > 0,
    ;
}

/// Being the same number is transitive.
pub proof fn lemma_same_value_transitive(a: Dyadic, b: Dyadic, c: Dyadic)
    requires
        a.same_value(b),
        b.same_value(c),
    ensures
        a.same_value(c),
{
    let pa = pow2(a.exp);
    let pb = pow2(b.exp);
    let pc = pow2(c.exp);
    lemma_pow2_pos(b.exp);
    assert((a.numer * pc) * pb == (c.numer * pa) * pb) by (nonlinear_arith)
        requires
            a.numer * pb == b.numer * pa,
            b.numer * pc == c.numer * pb,
    ;
    assert(a.numer * pc == c.numer * pa) by (nonlinear_arith)
        requires
            (a.numer * pc) * pb == (c.numer * pa) * pb,
            pb > 0,
    ;
}

/// Writing a factor another way does not change the product's value.
proof fn lemma_product_respects_value(x: Dyadic, other: Dyadic, y: Dyadic)
    requires
        x.same_value(other),
    ensures
        raw_product(x, y).same_value(raw_product(other, y)),
        raw_product(y, x).same_value(raw_product(y, other)),
{
    lemma_pow2_adds(x.exp, y.exp);
    lemma_pow2_adds(other.exp, y.exp);
    lemma_pow2_adds(y.exp, x.exp);
    lemma_pow2_adds(y.exp, other.exp);
    let px = pow2(x.exp);
    let po = pow2(other.exp);
    let py = pow2(y.exp);
    assert((x.numer * y.numer) * (po * py) == (other.numer * y.numer) * (px * py))
        by (nonlinear_arith)
        requires
            x.numer * po == other.numer * px,
    ;
    assert((y.numer * x.numer) * (py * po) == (y.numer * other.numer) * (py * px))
        by (nonlinear_arith)
        requires
            x.numer * po == other.numer * px,
    ;
}

/// Multiplication does not depend on the order of its factors.
pub proof fn lemma_times_commutative(x: Dyadic, y: Dyadic)
    ensures
        x.times(y) == y.times(x),
{
    assert(x.numer * y.numer == y.numer * x.numer) by (nonlinear_arith);
}

/// Multiplication does not depend on how its factors are grouped.
pub proof fn lemma_times_associative(x: Dyadic, y: Dyadic, z: Dyadic)
    ensures
        x.times(y).times(z) == x.times(y.times(z)),
{
    let xy = raw_product(x, y);
    let yz = raw_product(y, z);
    let left = raw_product(x.times(y), z);
    let right = raw_product(x, y.times(z));
    let whole = raw_product(xy, z);
    lemma_reduce(xy);
    lemma_reduce(yz);
    lemma_reduce(left);
    lemma_reduce(right);
    lemma_product_respects_value(xy.reduce(), xy, z);
    lemma_product_respects_value(yz.reduce(), yz, x);
    assert(raw_product(x, yz) == whole) by {
        assert(x.numer * (y.numer * z.numer) == (x.numer * y.numer) * z.numer)
            by (nonlinear_arith);
    }
    lemma_same_value_transitive(left.reduce(), left, whole);
    lemma_same_value_transitive(right.reduce(), right, whole);
    assert(whole.same_value(right.reduce())) by {
        assert(right.reduce().same_value(whole));
    }
    lemma_same_value_transitive(left.reduce(), whole, right.reduce());
    lemma_canonical_unique(left.reduce(), right.reduce());
}

/// What a `Probability` holds fits its machine words.
pub proof fn lemma_probability_fits(p: Probability)
    ensures
        p@.numer <= u64::MAX,
        p@.exp <= u32::MAX,
{
}

/// The product of any probability with the number one can be held, on
/// either side.
pub proof fn lemma_one_fits(p: Probability, q: Probability)
    requires
        q@ == Dyadic::one(),
    ensures
        p.product_fits(q),
        q.product_fits(p),
{
    assert(p@.numer * 1 == p@.numer && 1 * p@.numer == p@.numer) by (nonlinear_arith);
}

} // verus!
