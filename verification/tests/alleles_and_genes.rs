use flower_genetics::{Gene, GeneBit, GeneError};

const STATES: [GeneBit; 3] = [GeneBit::Zero, GeneBit::One, GeneBit::Three];

#[test]
fn states_read_from_their_numbers() {
    assert_eq!(GeneBit::from_number(0), Ok(GeneBit::Zero));
    assert_eq!(GeneBit::from_number(1), Ok(GeneBit::One));
    assert_eq!(GeneBit::from_number(2), Ok(GeneBit::Three));
}

#[test]
fn other_numbers_are_no_states() {
    assert_eq!(GeneBit::from_number(3), Err(GeneError::InvalidCharacter));
    assert_eq!(GeneBit::from_number(u32::MAX), Err(GeneError::InvalidCharacter));
}

#[test]
fn states_read_from_their_characters() {
    assert_eq!(GeneBit::from_char('0'), Ok(GeneBit::Zero));
    assert_eq!(GeneBit::from_char('1'), Ok(GeneBit::One));
    assert_eq!(GeneBit::from_char('2'), Ok(GeneBit::Three));
}

#[test]
fn other_characters_are_no_states() {
    for ch in ['3', '9', 'a', ' ', '-', '\u{0662}'] {
        assert_eq!(GeneBit::from_char(ch), Err(GeneError::InvalidCharacter));
    }
}

#[test]
fn the_two_values_of_a_state() {
    assert_eq!(GeneBit::Zero.value(), 0);
    assert_eq!(GeneBit::One.value(), 1);
    assert_eq!(GeneBit::Three.value(), 3);
    assert_eq!(GeneBit::Zero.show_value(), 0);
    assert_eq!(GeneBit::One.show_value(), 1);
    assert_eq!(GeneBit::Three.show_value(), 2);
}

#[test]
fn writing_a_state_inverts_reading_it() {
    for bit in STATES {
        assert_eq!(GeneBit::from_char(bit.to_char()), Ok(bit));
        assert_eq!(GeneBit::from_number(bit.show_value()), Ok(bit));
    }
    assert_eq!(GeneBit::Three.to_char(), '2');
}

#[test]
fn human_order_puts_position_zero_last() {
    assert_eq!(
        Gene::from_human_string("0200").unwrap(),
        Gene(vec![GeneBit::Zero, GeneBit::Zero, GeneBit::Three, GeneBit::Zero])
    );
    assert_eq!(
        Gene::from_human_string("2001").unwrap(),
        Gene(vec![GeneBit::One, GeneBit::Zero, GeneBit::Zero, GeneBit::Three])
    );
}

#[test]
fn a_bad_character_fails_the_whole_string() {
    assert_eq!(Gene::from_string("0120x"), Err(GeneError::InvalidCharacter));
    assert_eq!(Gene::from_string("3"), Err(GeneError::InvalidCharacter));
    assert_eq!(Gene::from_human_string("01 2"), Err(GeneError::InvalidCharacter));
    assert_eq!(Gene::from_human_string("x012"), Err(GeneError::InvalidCharacter));
}

#[test]
fn the_empty_string_is_the_empty_gene() {
    assert_eq!(Gene::from_string(""), Ok(Gene(vec![])));
    assert_eq!(Gene::from_human_string(""), Ok(Gene(vec![])));
    assert_eq!(Gene(vec![]).to_string(), "");
    assert_eq!(Gene(vec![]).to_human_string(), "");
    assert_eq!(Gene(vec![]).value(), 0);
}

#[test]
fn strings_round_trip_in_storage_order() {
    for text in ["", "0", "1", "2", "0200", "2001", "0120120", "2222222222222222222222"] {
        assert_eq!(Gene::from_string(text).unwrap().to_string(), text);
    }
}

#[test]
fn strings_round_trip_in_human_order() {
    for text in ["", "0", "1", "2", "0200", "2001", "0120120", "2222222222222222222222"] {
        assert_eq!(Gene::from_human_string(text).unwrap().to_human_string(), text);
    }
}

#[test]
fn the_two_orders_mirror_each_other() {
    let gene = Gene::from_string("0122").unwrap();
    assert_eq!(gene.to_string(), "0122");
    assert_eq!(gene.to_human_string(), "2210");
    assert_eq!(Gene::from_human_string("2210").unwrap(), gene);
}

#[test]
fn genes_round_trip_through_strings() {
    let gene = Gene(vec![GeneBit::Three, GeneBit::Zero, GeneBit::One, GeneBit::One]);
    assert_eq!(Gene::from_string(&gene.to_string()).unwrap(), gene);
    assert_eq!(Gene::from_human_string(&gene.to_human_string()).unwrap(), gene);
}

#[test]
fn state_two_packs_as_three() {
    let gene = Gene(vec![GeneBit::Three, GeneBit::Zero, GeneBit::Zero, GeneBit::Zero]);
    assert_eq!(gene.value(), 3);
    assert_eq!(Gene::from_human_string("0002").unwrap().value(), 3);
}

#[test]
fn packing_is_two_bits_a_position() {
    assert_eq!(Gene::from_string("1").unwrap().value(), 0b01);
    assert_eq!(Gene::from_string("21").unwrap().value(), 0b01_11);
    assert_eq!(Gene::from_string("0121").unwrap().value(), 0b01_11_01_00);
    assert_eq!(Gene::from_human_string("2001").unwrap().value(), 0xc1);
    assert_eq!(Gene::from_human_string("0010").unwrap().value(), 0x04);
    assert_eq!(Gene::from_human_string("0200").unwrap().value(), 0x30);
}

#[test]
fn a_packed_gene_stays_below_four_to_its_length() {
    for text in ["", "2", "22", "222", "2222", "0120", "22222222"] {
        let gene = Gene::from_string(text).unwrap();
        assert!(u64::from(gene.value()) < 4u64.pow(text.len() as u32));
    }
    assert_eq!(Gene::from_string("2222").unwrap().value(), 255);
}

#[test]
fn each_bit_pair_is_the_value_of_its_state() {
    let gene = Gene::from_string("0121202101").unwrap();
    let packed = gene.value();
    for (i, bit) in gene.0.iter().enumerate() {
        assert_eq!((packed >> (2 * i)) & 3, bit.value());
    }
}

#[test]
fn sixteen_positions_fill_the_word() {
    let gene = Gene::from_string("2222222222222222").unwrap();
    assert_eq!(gene.value(), u32::MAX);
    let gene = Gene::from_string("0000000000000001").unwrap();
    assert_eq!(gene.value(), 1 << 30);
}

#[test]
fn a_clone_is_equal() {
    let gene = Gene::from_string("0121").unwrap();
    assert_eq!(gene.clone(), gene);
}
