use flower_genetics::seed::white_seed;
use flower_genetics::{Gene, GeneBit, Possibilities, Possibility, Probability};

/// The exact probability that a float holds.
fn p(x: f32) -> Probability {
    let mut numer = x;
    let mut exp = 0u32;
    while numer.fract() != 0.0 {
        numer *= 2.0;
        exp += 1;
    }
    Probability::new(numer as u64, exp)
}

#[test]
fn test_gene4_value() {
    assert_eq!(
        Gene(vec![
            GeneBit::Zero,
            GeneBit::Zero,
            GeneBit::Three,
            GeneBit::Zero
        ])
        .value(),
        48u32
    );
    assert_eq!(Gene(vec![GeneBit::One]).value(), 1u32);
}

#[test]
fn test_from_string() {
    assert_eq!(
        Gene::from_string("0200").unwrap(),
        Gene(vec![
            GeneBit::Zero,
            GeneBit::Three,
            GeneBit::Zero,
            GeneBit::Zero
        ])
    )
}

#[test]
fn test_mul() {
    assert_eq!(
        GeneBit::from_number(0).unwrap() * GeneBit::from_number(2).unwrap(),
        Possibilities::new(&[(p(1.0), "1")]).unwrap()
    );
}

#[test]
fn test_merge_possibility() {
    let l = Possibility::from_tuple((p(0.5), "00")).unwrap();
    let r = Possibility::from_tuple((p(0.5), "01")).unwrap();
    let lr = l * r;
    assert_eq!(lr, Possibility::from_tuple((p(0.25), "0001")).unwrap());
}

#[test]
fn test_merge_possibilities() {
    let l = Possibilities::new(&[(p(0.5), "00"), (p(0.5), "01")]).unwrap();
    let r = Possibilities::new(&[(p(0.5), "0"), (p(0.5), "1")]).unwrap();
    let lr = l.merge(&r);
    assert_eq!(
        lr,
        Possibilities::new(&[
            (p(0.25), "000"),
            (p(0.25), "001"),
            (p(0.25), "010"),
            (p(0.25), "011"),
        ])
        .unwrap()
    );
}

#[test]
fn seed_test_white_seed() {
    assert_eq!(
        white_seed().hybridize(&white_seed()).unwrap(),
        Possibilities::human_new(&[(p(0.25), "0000"), (p(0.25), "0020"), (p(0.5), "0010"),])
            .unwrap()
    )
}

#[test]
fn seed4_test_white_seed() {
    let white_seed_4 = Gene::from_human_string("0010").unwrap();
    assert_eq!(
        white_seed_4.hybridize(&white_seed_4).unwrap(),
        Possibilities::human_new(&[(p(0.25), "0000"), (p(0.25), "0020"), (p(0.5), "0010"),])
            .unwrap()
    )
}
