use turing_engine::turing_machine::{Error, TuringMachine};

#[test]
fn construction_rejects_out_of_range_counts() {
    assert!(matches!(TuringMachine::new(0, 3, 1), Err(Error::StateTooSmall)));
    assert!(matches!(TuringMachine::new(257, 3, 1), Err(Error::StateTooBig)));
    assert!(matches!(TuringMachine::new(2, 0, 1), Err(Error::SymbolTooSmall)));
    assert!(matches!(TuringMachine::new(2, 255, 1), Err(Error::SymbolTooBig)));
    assert!(TuringMachine::new(256, 254, 1).is_ok());
}

#[test]
fn move_sentinels_sit_just_above_the_symbol_range() {
    let m = TuringMachine::new(2, 3, 1).unwrap();
    assert_eq!(m.state_count(), 2);
    assert_eq!(m.dx(), 3);
    assert_eq!(m.sx(), 4);
}

#[test]
fn add_transition_with_a_state_beyond_the_count_fails_with_the_size_error() {
    let mut m = TuringMachine::new(2, 3, 1).unwrap();
    assert!(matches!(m.add_transition(2, vec![0], vec![0], 0), Err(Error::StateTooBig)));
    assert!(matches!(m.add_transition(0, vec![0], vec![0], 7), Err(Error::StateTooBig)));
    assert!(matches!(m.add_transition(255, vec![0], vec![0], 0), Err(Error::StateTooBig)));
    assert_eq!(m.transitions_reference().len(), 0);
}

#[test]
fn add_transition_rejects_a_symbol_beyond_the_left_sentinel() {
    let mut m = TuringMachine::new(2, 3, 1).unwrap();
    assert!(matches!(m.add_transition(0, vec![5], vec![0], 1), Err(Error::SymbolTooBig)));
    assert!(matches!(m.add_transition(0, vec![0], vec![5], 1), Err(Error::SymbolTooBig)));
    // The sentinels themselves are accepted in both tuples.
    assert!(m.add_transition(0, vec![4], vec![3], 1).is_ok());
}

#[test]
fn a_duplicate_key_is_rejected_and_the_table_is_unchanged() {
    let mut m = TuringMachine::new(2, 3, 1).unwrap();
    assert!(m.add_transition(0, vec![1], vec![2], 1).is_ok());
    let before = m.get_transition(0, &vec![1]).unwrap();
    assert!(matches!(m.add_transition(0, vec![1], vec![0], 0), Err(Error::TransitionExists)));
    let after = m.get_transition(0, &vec![1]).unwrap();
    assert_eq!(before, after);
    assert_eq!(after, (1, vec![2]));
    assert_eq!(m.transitions_reference().len(), 1);
}

#[test]
fn get_transition_validates_and_reports_the_halt_case() {
    let mut m = TuringMachine::new(2, 3, 1).unwrap();
    m.add_transition(0, vec![1], vec![2], 1).unwrap();
    assert!(matches!(m.get_transition(9, &vec![1]), Err(Error::StateTooBig)));
    assert!(matches!(m.get_transition(0, &vec![9]), Err(Error::SymbolTooBig)));
    assert!(matches!(m.get_transition(1, &vec![1]), Err(Error::TransitionDidNotExist)));
    assert_eq!(m.get_transition(0, &vec![1]).unwrap(), (1, vec![2]));
}

#[test]
fn remove_transition_deletes_exactly_the_keyed_rule() {
    let mut m = TuringMachine::new(2, 3, 2).unwrap();
    m.add_transition(0, vec![0, 1], vec![1, 0], 1).unwrap();
    m.add_transition(0, vec![1, 1], vec![0, 0], 0).unwrap();
    assert!(matches!(m.remove_transition(1, &vec![0, 1]), Err(Error::TransitionDidNotExist)));
    assert!(m.remove_transition(0, &vec![0, 1]).is_ok());
    assert!(matches!(m.get_transition(0, &vec![0, 1]), Err(Error::TransitionDidNotExist)));
    assert_eq!(m.get_transition(0, &vec![1, 1]).unwrap(), (0, vec![0, 0]));
}

#[test]
fn final_state_set_operations_report_symmetric_errors() {
    let mut m = TuringMachine::new(3, 2, 1).unwrap();
    assert!(matches!(m.add_final_state(3), Err(Error::StateTooBig)));
    assert!(m.add_final_state(1).is_ok());
    assert!(matches!(m.add_final_state(1), Err(Error::AlreadyFinal)));
    assert!(matches!(m.remove_final_state(3), Err(Error::StateTooBig)));
    assert!(matches!(m.remove_final_state(2), Err(Error::WasNotFinal)));
    assert_eq!(m.is_final_state(1).unwrap(), true);
    assert_eq!(m.is_final_state(0).unwrap(), false);
    assert!(matches!(m.is_final_state(9), Err(Error::StateTooBig)));
    assert!(m.remove_final_state(1).is_ok());
    assert_eq!(m.is_final_state(1).unwrap(), false);
    assert_eq!(m.final_states_reference().len(), 0);
}

#[test]
fn the_textual_dump_lists_states_codes_and_rules() {
    let mut m = TuringMachine::new(2, 2, 1).unwrap();
    m.add_transition(0, vec![1], vec![2], 1).unwrap();
    m.add_final_state(1).unwrap();
    let text = m.to_string();
    let expected = "States Q = {q0, q1}\n|Q| = 2\n\nFinal States F = {q1}\n\n\
        Number of symbols |S| = 2\nRight (R): 2\nLeft (L): 3\n\n\
        Number of tapes: 1\n\nTransitions:\n0 (1) (2) 1\n";
    assert_eq!(text, expected);
}
