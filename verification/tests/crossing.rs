use flower_genetics::{Gene, GeneBit, GeneError, Possibilities, Possibility, Probability};

const STATES: [GeneBit; 3] = [GeneBit::Zero, GeneBit::One, GeneBit::Three];

/// The exact probability that a float holds.
fn p(x: f32) -> Probability {
    let mut numer = x;
    let mut exp = 0u32;
    while numer.fract() != 0.0 {
        numer *= 2.0;
        exp += 1;
    }
    Probability::new(numer as u64, exp)
}

fn as_float(p: &Probability) -> f64 {
    p.numerator() as f64 / 2f64.powi(p.halvings() as i32)
}

fn list(entries: &[(f32, &str)]) -> Possibilities {
    let exact: Vec<(Probability, &str)> = entries.iter().map(|e| (p(e.0), e.1)).collect();
    Possibilities::new(&exact).unwrap()
}

fn sorted(list: &Possibilities) -> Vec<(u64, u32, String)> {
    let mut rows: Vec<(u64, u32, String)> =
        list.ps.iter().map(|x| (x.p.numerator(), x.p.halvings(), x.v.to_string())).collect();
    rows.sort();
    rows
}

#[test]
fn a_probability_is_kept_in_lowest_terms() {
    assert_eq!(Probability::new(2, 2), Probability::half());
    assert_eq!(Probability::new(4, 2), Probability::one());
    assert_eq!(Probability::new(8, 5), Probability::quarter());
    assert_eq!(Probability::new(6, 3), Probability::new(3, 2));
    assert_eq!(Probability::new(0, 7), Probability::new(0, 0));
    assert_eq!(Probability::new(6, 0).numerator(), 6);
    assert_eq!(Probability::new(6, 0).halvings(), 0);
    assert_eq!(Probability::new(12, 3).numerator(), 3);
    assert_eq!(Probability::new(12, 3).halvings(), 1);
}

#[test]
fn the_named_probabilities() {
    assert_eq!(as_float(&Probability::one()), 1.0);
    assert_eq!(as_float(&Probability::half()), 0.5);
    assert_eq!(as_float(&Probability::quarter()), 0.25);
    assert_eq!(p(1.0), Probability::one());
    assert_eq!(p(0.5), Probability::half());
    assert_eq!(p(0.25), Probability::quarter());
}

#[test]
fn probabilities_multiply_exactly() {
    assert_eq!(Probability::half().times(&Probability::half()), Probability::quarter());
    assert_eq!(Probability::one().times(&Probability::quarter()), Probability::quarter());
    assert_eq!(Probability::new(3, 2).times(&Probability::new(5, 3)), Probability::new(15, 5));
    assert_eq!(Probability::new(2, 0).times(&Probability::half()), Probability::one());
    assert_eq!(Probability::new(0, 0).times(&Probability::half()), Probability::new(0, 0));
    assert_eq!(as_float(&p(0.375).times(&p(0.75))), 0.28125);
}

#[test]
fn a_product_that_cannot_be_held_is_told() {
    let big = Probability::new(u64::MAX, 0);
    assert!(!big.fits_product(&Probability::new(3, 0)));
    assert!(big.fits_product(&Probability::one()));
    let deep = Probability::new(1, u32::MAX);
    assert!(!deep.fits_product(&Probability::half()));
    assert!(deep.fits_product(&Probability::one()));
}

#[test]
fn zero_crossed_with_two_gives_one() {
    assert_eq!(
        GeneBit::Zero.hybridize(&GeneBit::Three),
        Possibilities::new(&[(Probability::one(), "1")]).unwrap()
    );
    assert_eq!(GeneBit::Zero.hybridize(&GeneBit::Three).ps.len(), 1);
}

#[test]
fn the_table_of_one_position() {
    let zero = GeneBit::Zero;
    let one = GeneBit::One;
    let two = GeneBit::Three;
    assert_eq!(zero.hybridize(&zero), list(&[(1.0, "0")]));
    assert_eq!(zero.hybridize(&one), list(&[(0.5, "0"), (0.5, "1")]));
    assert_eq!(zero.hybridize(&two), list(&[(1.0, "1")]));
    assert_eq!(one.hybridize(&zero), list(&[(0.5, "0"), (0.5, "1")]));
    assert_eq!(one.hybridize(&one), list(&[(0.25, "0"), (0.25, "2"), (0.5, "1")]));
    assert_eq!(one.hybridize(&two), list(&[(0.5, "1"), (0.5, "2")]));
    assert_eq!(two.hybridize(&zero), list(&[(1.0, "1")]));
    assert_eq!(two.hybridize(&one), list(&[(0.5, "1"), (0.5, "2")]));
    assert_eq!(two.hybridize(&two), list(&[(1.0, "2")]));
}

#[test]
fn one_position_is_symmetric() {
    for a in STATES {
        for b in STATES {
            assert_eq!(sorted(&a.hybridize(&b)), sorted(&b.hybridize(&a)));
            assert_eq!(a.hybridize(&b), b.hybridize(&a));
        }
    }
}

#[test]
fn one_position_adds_up_to_one() {
    for a in STATES {
        for b in STATES {
            let total: f64 = a.hybridize(&b).ps.iter().map(|x| as_float(&x.p)).sum();
            assert_eq!(total, 1.0);
        }
    }
}

#[test]
fn an_outcome_reads_its_gene_in_either_order() {
    let storage = Possibility::new(p(0.5), "012").unwrap();
    let human = Possibility::human_new(p(0.5), "210").unwrap();
    assert_eq!(storage, human);
    assert_eq!(storage.p, Probability::half());
    assert_eq!(storage.v, Gene(vec![GeneBit::Zero, GeneBit::One, GeneBit::Three]));
    assert_eq!(Possibility::from_human_tuple((p(0.5), "210")).unwrap(), storage);
    assert_eq!(Possibility::from_tuple((p(0.5), "012")).unwrap(), storage);
}

#[test]
fn an_outcome_with_a_bad_digit_is_refused() {
    assert_eq!(Possibility::new(p(0.5), "013"), Err(GeneError::InvalidCharacter));
    assert_eq!(Possibility::human_new(p(0.5), "a"), Err(GeneError::InvalidCharacter));
    assert_eq!(Possibility::from_tuple((p(0.5), "0 1")), Err(GeneError::InvalidCharacter));
    assert_eq!(Possibility::from_human_tuple((p(0.5), "7")), Err(GeneError::InvalidCharacter));
}

#[test]
fn a_list_with_a_bad_digit_is_refused() {
    assert_eq!(
        Possibilities::new(&[(p(0.5), "01"), (p(0.5), "0x")]),
        Err(GeneError::InvalidCharacter)
    );
    assert_eq!(
        Possibilities::human_new(&[(p(0.5), "3"), (p(0.5), "0")]),
        Err(GeneError::InvalidCharacter)
    );
}

#[test]
fn a_list_is_not_normalized() {
    let odd = Possibilities::new(&[(p(0.75), "0"), (p(0.75), "1"), (p(2.0), "2")]).unwrap();
    assert_eq!(odd.ps.len(), 3);
    assert_eq!(as_float(&odd.ps[0].p), 0.75);
    assert_eq!(as_float(&odd.ps[2].p), 2.0);
    assert_eq!(Possibilities::new(&[]).unwrap().ps.len(), 0);
}

#[test]
fn the_seed_of_the_fold() {
    assert_eq!(Possibility::zero(), Possibility::new(p(1.0), "").unwrap());
    assert_eq!(Possibilities::zero(), list(&[(1.0, "")]));
}

#[test]
fn merging_two_outcomes() {
    let l = Possibility::new(p(0.5), "02").unwrap();
    let r = Possibility::new(p(0.25), "1").unwrap();
    assert_eq!(l.merge(&r), Possibility::new(p(0.125), "021").unwrap());
    assert_eq!(r.merge(&l), Possibility::new(p(0.125), "102").unwrap());
}

#[test]
fn merging_with_the_identity_changes_nothing() {
    let d = list(&[(0.25, "012"), (0.5, ""), (0.125, "2"), (0.125, "2")]);
    assert_eq!(d.merge(&Possibilities::zero()), d);
    assert_eq!(Possibilities::zero().merge(&d), d);
    let x = Possibility::new(p(0.375), "0122").unwrap();
    assert_eq!(x.merge(&Possibility::zero()), x);
    assert_eq!(Possibility::zero().merge(&x), x);
}

#[test]
fn merging_keeps_the_order_of_its_operands() {
    let l = list(&[(0.5, "0"), (0.5, "1")]);
    let r = list(&[(0.25, "2"), (0.75, "0")]);
    assert_eq!(
        l.merge(&r),
        list(&[(0.125, "02"), (0.375, "00"), (0.125, "12"), (0.375, "10")])
    );
    assert_eq!(
        r.merge(&l),
        list(&[(0.125, "20"), (0.125, "21"), (0.375, "00"), (0.375, "01")])
    );
}

#[test]
fn merging_keeps_duplicates() {
    let l = list(&[(0.5, "0"), (0.5, "0")]);
    let r = list(&[(0.5, "1"), (0.5, "1"), (0.5, "1")]);
    let merged = l.merge(&r);
    assert_eq!(merged.ps.len(), 6);
    for x in &merged.ps {
        assert_eq!(*x, Possibility::new(p(0.25), "01").unwrap());
    }
}

#[test]
fn merging_with_an_empty_list_is_empty() {
    let l = list(&[(0.5, "0"), (0.5, "1")]);
    let none = Possibilities::new(&[]).unwrap();
    assert_eq!(l.merge(&none).ps.len(), 0);
    assert_eq!(none.merge(&l).ps.len(), 0);
}

#[test]
fn merging_is_associative() {
    let a = list(&[(0.5, "0"), (0.5, "1")]);
    let b = list(&[(0.25, "2"), (0.75, "00")]);
    let c = list(&[(0.125, "1"), (0.375, ""), (0.5, "22")]);
    assert_eq!(a.merge(&b).merge(&c), a.merge(&b.merge(&c)));
}

#[test]
fn genes_of_different_lengths_do_not_cross() {
    let short = Gene::from_string("01").unwrap();
    let long = Gene::from_string("012").unwrap();
    assert_eq!(short.hybridize(&long), Err(GeneError::LengthMismatch));
    assert_eq!(long.hybridize(&short), Err(GeneError::LengthMismatch));
    assert_eq!(Gene(vec![]).hybridize(&short), Err(GeneError::LengthMismatch));
}

#[test]
fn empty_genes_cross_to_the_identity() {
    assert_eq!(Gene(vec![]).hybridize(&Gene(vec![])), Ok(Possibilities::zero()));
}

#[test]
fn the_white_seed_crossed_with_itself() {
    let white = Gene::from_human_string("0010").unwrap();
    let offspring = white.hybridize(&white).unwrap();
    assert_eq!(offspring.ps.len(), 3);
    assert_eq!(offspring.ps[0].v.to_human_string(), "0000");
    assert_eq!(offspring.ps[1].v.to_human_string(), "0020");
    assert_eq!(offspring.ps[2].v.to_human_string(), "0010");
    assert_eq!(as_float(&offspring.ps[0].p), 0.25);
    assert_eq!(as_float(&offspring.ps[1].p), 0.25);
    assert_eq!(as_float(&offspring.ps[2].p), 0.5);
}

#[test]
fn position_zero_is_folded_first() {
    let a = Gene::from_string("01").unwrap();
    let b = Gene::from_string("12").unwrap();
    assert_eq!(
        a.hybridize(&b).unwrap(),
        list(&[(0.25, "01"), (0.25, "02"), (0.25, "11"), (0.25, "12")])
    );
}

#[test]
fn a_cross_adds_up_to_one() {
    for (a, b) in [("", ""), ("1", "1"), ("0010", "0010"), ("1111", "1111"), ("0121", "2110"), ("11111111", "11111111")] {
        let a = Gene::from_string(a).unwrap();
        let b = Gene::from_string(b).unwrap();
        let offspring = a.hybridize(&b).unwrap();
        let unit = 2 * a.0.len() as u32;
        let exact: u64 =
            offspring.ps.iter().map(|x| x.p.numerator() << (unit - x.p.halvings())).sum();
        assert_eq!(exact, 1u64 << unit);
        let total: f64 = offspring.ps.iter().map(|x| as_float(&x.p)).sum();
        assert!((total - 1.0).abs() <= 1e-6);
    }
}

#[test]
fn a_cross_has_one_outcome_for_each_choice() {
    let a = Gene::from_string("1111").unwrap();
    let offspring = a.hybridize(&a).unwrap();
    assert_eq!(offspring.ps.len(), 81);
    for x in &offspring.ps {
        assert_eq!(x.v.0.len(), 4);
    }
    let b = Gene::from_string("0120").unwrap();
    assert_eq!(a.hybridize(&b).unwrap().ps.len(), 2 * 3 * 2 * 2);
}

#[test]
fn a_long_cross_of_certain_positions_stays_one_outcome() {
    let text = "0".repeat(5000);
    let zeros = Gene::from_string(&text).unwrap();
    let twos = Gene::from_string(&"2".repeat(5000)).unwrap();
    let offspring = zeros.hybridize(&twos).unwrap();
    assert_eq!(offspring.ps.len(), 1);
    assert_eq!(offspring.ps[0].p, Probability::one());
    assert_eq!(offspring.ps[0].v.to_string(), "1".repeat(5000));
}

#[test]
fn the_operators_are_the_methods() {
    let a = Gene::from_string("0121").unwrap();
    let b = Gene::from_string("2110").unwrap();
    assert_eq!(a.clone() * b.clone(), a.hybridize(&b));
    assert_eq!(
        Gene::from_string("0").unwrap() * Gene::from_string("00").unwrap(),
        Err(GeneError::LengthMismatch)
    );
    assert_eq!(GeneBit::One * GeneBit::Three, GeneBit::One.hybridize(&GeneBit::Three));
}

#[test]
fn a_merge_that_cannot_be_held_is_told() {
    let big = Possibilities::new(&[(Probability::half(), "0"), (Probability::new(u64::MAX, 0), "1")])
        .unwrap();
    let three = Possibilities::new(&[(Probability::new(3, 0), "2")]).unwrap();
    assert!(!big.can_merge(&three));
    assert!(!three.can_merge(&big));
    assert!(big.can_merge(&Possibilities::zero()));
    assert!(big.can_merge(&Possibilities::new(&[]).unwrap()));
    let a = Gene::from_string("11").unwrap().hybridize(&Gene::from_string("11").unwrap()).unwrap();
    assert!(a.can_merge(&a));
}

#[test]
fn the_table_is_the_punnett_square() {
    for a in STATES {
        for b in STATES {
            let x = a.show_value() as u64;
            let y = b.show_value() as u64;
            let offspring = a.hybridize(&b);
            for child in STATES {
                let quarters: u64 = offspring
                    .ps
                    .iter()
                    .filter(|o| o.v == Gene(vec![child]))
                    .map(|o| o.p.numerator() << (2 - o.p.halvings()))
                    .sum();
                let expected = match child {
                    GeneBit::Zero => (2 - x) * (2 - y),
                    GeneBit::One => x * (2 - y) + (2 - x) * y,
                    GeneBit::Three => x * y,
                };
                assert_eq!(quarters, expected);
            }
        }
    }
}

#[test]
fn the_identity_merges_with_anything() {
    let big = Possibilities::new(&[(Probability::new(u64::MAX, u32::MAX), "1")]).unwrap();
    assert!(big.can_merge(&Possibilities::zero()));
    assert!(Possibilities::zero().can_merge(&big));
    assert_eq!(big.merge(&Possibilities::zero()), big);
    assert_eq!(Possibilities::zero().merge(&big), big);
}
