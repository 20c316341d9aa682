use turing_engine::alphabet::Alphabet;
use turing_engine::computation::Computation;
use turing_engine::info::{computation_from_info, TMInfo};
use turing_engine::tape::Tape;
use turing_engine::turing_machine::TuringMachine;

/// A 2-state machine over {*, 0, 1} with the single rule
/// (q0, [0]) -> (q1, [R]) and q1 accepting.
fn two_state_machine() -> Computation {
    let mut alpha = Alphabet::new('*');
    alpha.add_symbols(&['0', '1']);
    let zero = alpha.get_l_symbol(&'0').unwrap();
    let mut m = TuringMachine::new(2, 3, 1).unwrap();
    let right = m.dx();
    m.add_transition(0, vec![zero], vec![right], 1).unwrap();
    m.add_final_state(1).unwrap();
    let mut c = Computation::new(1);
    c.use_alphabet(alpha);
    c.use_machine(m);
    c.use_tapes(vec![Tape::new(true)]);
    c
}

/// Drive the run loop to completion on the calling thread, as the
/// background thread would between pause checks.
fn run_to_halt(c: &mut Computation) {
    c.write_input_on_tape().unwrap();
    c.shift_head(0, 0);
    while !c.should_exit() {
        if !c.run_step() {
            break;
        }
    }
}

#[test]
fn input_zero_halts_accepting_after_exactly_one_step() {
    let mut c = two_state_machine();
    c.set_input_string("0".to_owned()).unwrap();
    run_to_halt(&mut c);
    assert_eq!(c.transition_count(), 1);
    assert_eq!(c.current_state(), 1);
    assert!(c.is_on_final_state());
    assert!(c.is_terminated());
}

#[test]
fn input_one_halts_rejecting_after_zero_steps() {
    let mut c = two_state_machine();
    c.set_input_string("1".to_owned()).unwrap();
    run_to_halt(&mut c);
    assert_eq!(c.transition_count(), 0);
    assert_eq!(c.current_state(), 0);
    assert!(!c.is_on_final_state());
    assert!(c.is_terminated());
}

#[test]
fn reset_clears_counters_and_flags_but_keeps_the_tape() {
    let mut c = two_state_machine();
    c.set_input_string("0".to_owned()).unwrap();
    run_to_halt(&mut c);
    let tape_before = c.output(0).unwrap();
    c.pause();
    c.reset();
    assert_eq!(c.transition_count(), 0);
    assert_eq!(c.current_state(), 0);
    assert!(!c.is_paused());
    assert!(!c.is_stopped());
    assert!(!c.is_terminated());
    let cells_before: String = tape_before.chars().take_while(|&ch| ch != '.').collect();
    let cells_after: String = c.output(0).unwrap().chars().take_while(|&ch| ch != '.').collect();
    assert_eq!(cells_before, cells_after);
}

#[test]
fn a_description_assembles_into_a_ready_computation() {
    let info = TMInfo {
        n_states: 2,
        alphabet: "01".to_owned(),
        transitions: vec![(0, '0', 'R', 1), (0, '1', '1', 0)],
        input: "0".to_owned(),
    };
    let mut c = computation_from_info(&info).unwrap();
    c.write_input_on_tape().unwrap();
    c.shift_head(0, 0);
    assert!(c.run_step());
    assert_eq!(c.transition_count(), 1);
    assert_eq!(c.current_state(), 1);
}

#[test]
fn a_description_with_an_unknown_symbol_is_rejected() {
    let info = TMInfo {
        n_states: 1,
        alphabet: "0".to_owned(),
        transitions: vec![(0, 'x', 'R', 0)],
        input: "".to_owned(),
    };
    assert!(computation_from_info(&info).is_err());
}

#[test]
fn a_description_with_no_states_is_rejected() {
    let info = TMInfo {
        n_states: 0,
        alphabet: "0".to_owned(),
        transitions: vec![],
        input: "".to_owned(),
    };
    assert!(computation_from_info(&info).is_err());
}

#[test]
fn a_description_with_duplicate_rules_is_rejected() {
    let info = TMInfo {
        n_states: 1,
        alphabet: "0".to_owned(),
        transitions: vec![(0, '0', 'R', 0), (0, '0', 'L', 0)],
        input: "".to_owned(),
    };
    assert!(computation_from_info(&info).is_err());
}

#[test]
fn movement_markers_translate_to_the_sentinels() {
    let info = TMInfo {
        n_states: 1,
        alphabet: "0".to_owned(),
        transitions: vec![(0, '0', 'L', 0)],
        input: "00".to_owned(),
    };
    let mut c = computation_from_info(&info).unwrap();
    c.write_input_on_tape().unwrap();
    c.shift_head(1, 0);
    // Reading '0' at cell 1 moves left; a second attempt at cell 0 is a
    // boundary violation, which terminates the run abnormally.
    assert!(c.run_step());
    assert!(!c.run_step());
    assert_eq!(c.transition_count(), 1);
    assert!(c.is_terminated());
}
