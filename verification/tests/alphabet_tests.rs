use turing_engine::alphabet::{Alphabet, DEFAULT_BLANK};

#[test]
fn blank_is_registered_first_with_code_zero() {
    let alpha = Alphabet::new('*');
    assert_eq!(alpha.default_blank(), '*');
    assert_eq!(alpha.len(), 1);
    assert_eq!(alpha.get_l_symbol(&'*'), Some(0));
    assert_eq!(alpha.get_r_symbol(&0), Some('*'));
}

#[test]
fn codes_are_assigned_in_registration_order() {
    let mut alpha = Alphabet::new('*');
    assert!(alpha.add_symbol('a').is_ok());
    assert!(alpha.add_symbol('b').is_ok());
    assert_eq!(alpha.get_l_symbol(&'a'), Some(1));
    assert_eq!(alpha.get_l_symbol(&'b'), Some(2));
    assert_eq!(alpha.get_r_symbol(&1), Some('a'));
    assert_eq!(alpha.get_r_symbol(&2), Some('b'));
    assert_eq!(alpha.len(), 3);
}

#[test]
fn registering_a_known_symbol_is_an_idempotent_success() {
    let mut alpha = Alphabet::new('*');
    assert!(alpha.add_symbol('a').is_ok());
    assert!(alpha.add_symbol('a').is_ok());
    assert_eq!(alpha.len(), 2);
    assert_eq!(alpha.get_l_symbol(&'a'), Some(1));
}

#[test]
fn round_trip_for_every_registered_code() {
    let mut alpha = Alphabet::new('_');
    let (inserted, rejected) = alpha.add_symbols(&['x', 'y', 'z']);
    assert_eq!((inserted, rejected), (3, 0));
    for code in 0..alpha.len() as u8 {
        let symbol = alpha.get_r_symbol(&code).unwrap();
        assert_eq!(alpha.get_l_symbol(&symbol), Some(code));
    }
}

#[test]
fn unknown_lookups_are_none() {
    let alpha = Alphabet::new('*');
    assert_eq!(alpha.get_l_symbol(&'q'), None);
    assert_eq!(alpha.get_r_symbol(&7), None);
}

#[test]
fn batch_lookups_keep_order_and_report_per_element() {
    let mut alpha = Alphabet::new('*');
    alpha.add_symbols(&['a', 'b']);
    let codes = alpha.get_l_symbols(&['b', 'q', 'a']);
    assert_eq!(codes, vec![Some(2), None, Some(1)]);
    let symbols = alpha.get_r_symbols(&[2, 9, 0]);
    assert_eq!(symbols, vec![Some('b'), None, Some('*')]);
}

#[test]
fn batch_registration_counts_successes_and_duplicates_tolerated() {
    let mut alpha = Alphabet::new('*');
    let (inserted, rejected) = alpha.add_symbols(&['a', 'a', 'b', '*']);
    // A known symbol re-registers as a success, so nothing is rejected.
    assert_eq!((inserted, rejected), (4, 0));
    assert_eq!(alpha.len(), 3);
}

#[test]
fn a_full_table_rejects_a_new_symbol() {
    let mut alpha = Alphabet::new('\u{0}');
    for i in 1u32..256 {
        let c = char::from_u32(i).unwrap();
        assert!(alpha.add_symbol(c).is_ok());
    }
    assert_eq!(alpha.len(), 256);
    assert!(alpha.add_symbol('\u{1000}').is_err());
    assert_eq!(alpha.len(), 256);
    // A known symbol still registers as a success.
    assert!(alpha.add_symbol('\u{7f}').is_ok());
}

#[test]
fn batch_registration_counts_rejections_of_a_full_table() {
    let mut alpha = Alphabet::new('\u{0}');
    for i in 1u32..256 {
        let c = char::from_u32(i).unwrap();
        assert!(alpha.add_symbol(c).is_ok());
    }
    // The table is full: one known symbol succeeds, two new ones are
    // rejected.
    let (inserted, rejected) = alpha.add_symbols(&['\u{1100}', '\u{41}', '\u{1101}']);
    assert_eq!((inserted, rejected), (1, 2));
    assert_eq!(alpha.len(), 256);
}

#[test]
fn default_blank_constant_is_the_star() {
    assert_eq!(DEFAULT_BLANK, '*');
}
