use turing_engine::alphabet::Alphabet;
use turing_engine::computation::{Computation, StepFeedback};
use turing_engine::tape::{Tape, BLANK};
use turing_engine::turing_machine::TuringMachine;

fn engine_over(alphabet: &[char], tapes: usize) -> Computation {
    let mut alpha = Alphabet::new('*');
    alpha.add_symbols(alphabet);
    let mut c = Computation::new(tapes);
    c.use_alphabet(alpha);
    let mut bank = Vec::new();
    for _ in 0..tapes {
        bank.push(Tape::with_size(8, false));
    }
    c.use_tapes(bank);
    c
}

#[test]
fn set_input_string_needs_an_alphabet() {
    let mut c = Computation::new(1);
    let r = c.set_input_string("ab".to_owned());
    assert_eq!(r, Err("An alphabet is needed".to_owned()));
    c.use_alphabet(Alphabet::new('*'));
    assert!(c.set_input_string("".to_owned()).is_ok());
}

#[test]
fn write_input_round_trips_through_the_alphabet() {
    let mut c = engine_over(&['a', 'b'], 1);
    c.set_input_string("ab".to_owned()).unwrap();
    c.write_input_on_tape().unwrap();
    let shown = c.output(0).unwrap();
    let cells: Vec<char> = shown.chars().take(2).collect();
    assert_eq!(cells, vec!['a', 'b']);
}

#[test]
fn write_input_fills_other_tapes_with_blanks_and_advances_heads() {
    let mut c = engine_over(&['a', 'b'], 2);
    c.set_input_string("ba".to_owned()).unwrap();
    c.write_input_on_tape().unwrap();
    let first = c.output(0).unwrap();
    let second = c.output(1).unwrap();
    assert!(first.starts_with("ba******...\n  ^"));
    assert!(second.starts_with("********...\n  ^"));
}

#[test]
fn write_input_rejects_a_character_outside_the_alphabet() {
    let mut c = engine_over(&['a'], 1);
    c.set_input_string("ax".to_owned()).unwrap();
    let r = c.write_input_on_tape();
    assert_eq!(r, Err("A symbol of the input is not in the alphabet".to_owned()));
}

#[test]
fn write_input_rejects_an_input_longer_than_a_bounded_tape() {
    let mut alpha = Alphabet::new('*');
    alpha.add_symbols(&['a']);
    let mut c = Computation::new(1);
    c.use_alphabet(alpha);
    c.use_tapes(vec![Tape::with_size(3, false)]);
    c.set_input_string("aaa".to_owned()).unwrap();
    let r = c.write_input_on_tape();
    assert_eq!(r, Err("The input does not fit on a tape".to_owned()));
    // The same input fits once the tape extends.
    c.use_tape(Tape::with_size(3, true), 0);
    assert!(c.write_input_on_tape().is_ok());
}

#[test]
fn write_input_reports_missing_components() {
    let mut c = Computation::new(1);
    assert_eq!(c.write_input_on_tape(), Err("An alphabet is needed".to_owned()));
    c.use_alphabet(Alphabet::new('*'));
    assert_eq!(c.write_input_on_tape(), Err("Tapes are needed".to_owned()));
}

#[test]
fn step_without_components_is_an_error() {
    let mut c = Computation::new(1);
    assert_eq!(c.step(), Err("No machine".to_owned()));
    c.use_machine(TuringMachine::new(1, 1, 1).unwrap());
    assert_eq!(c.step(), Err("No tapes".to_owned()));
}

#[test]
fn step_with_no_matching_rule_reports_the_halt() {
    let mut c = engine_over(&[], 1);
    c.use_machine(TuringMachine::new(1, 1, 1).unwrap());
    assert_eq!(c.step(), Ok(StepFeedback::NeedToStop));
}

#[test]
fn step_writes_moves_and_switches_state() {
    let mut alpha = Alphabet::new('*');
    alpha.add_symbols(&['a']);
    let mut m = TuringMachine::new(2, 2, 2).unwrap();
    let dx = m.dx();
    // Reading two blanks: write 'a' on tape 0, move right on tape 1.
    m.add_transition(0, vec![BLANK, BLANK], vec![1, dx], 1).unwrap();
    let mut c = Computation::new(2);
    c.use_alphabet(alpha);
    c.use_machine(m);
    c.use_tapes(vec![Tape::with_size(4, false), Tape::with_size(4, false)]);
    assert_eq!(c.step(), Ok(StepFeedback::CanContinue));
    let first = c.output(0).unwrap();
    let second = c.output(1).unwrap();
    assert_eq!(first, "a***...\n^");
    assert_eq!(second, "****...\n ^");
}

#[test]
fn a_blocked_move_is_an_error_and_changes_nothing() {
    let mut m = TuringMachine::new(1, 1, 1).unwrap();
    let sx = m.sx();
    m.add_transition(0, vec![BLANK], vec![sx], 0).unwrap();
    let mut c = Computation::new(1);
    c.use_alphabet(Alphabet::new('*'));
    c.use_machine(m);
    c.use_tapes(vec![Tape::with_size(2, false)]);
    assert_eq!(c.step(), Err("Could not move left".to_owned()));
    assert_eq!(c.output(0).unwrap(), "**...\n^");
}

#[test]
fn run_step_counts_steps_and_terminates_on_halt() {
    let mut m = TuringMachine::new(1, 2, 1).unwrap();
    let dx = m.dx();
    m.add_transition(0, vec![1], vec![dx], 0).unwrap();
    let mut alpha = Alphabet::new('*');
    alpha.add_symbols(&['a']);
    let mut c = Computation::new(1);
    c.use_alphabet(alpha);
    c.use_machine(m);
    c.use_tapes(vec![Tape::with_content(vec![1, 1, 0], false)]);
    assert!(c.run_step());
    assert!(c.run_step());
    assert!(!c.run_step());
    assert_eq!(c.transition_count(), 2);
    assert!(c.is_terminated());
}

#[test]
fn output_marks_the_head_column() {
    let mut c = engine_over(&['a'], 1);
    c.shift_head(2, 0);
    let shown = c.output(0).unwrap();
    assert_eq!(shown, "********...\n  ^");
}

#[test]
fn output_rejects_a_bad_index_and_missing_components() {
    let mut c = Computation::new(1);
    assert_eq!(c.output(1), Err("Index out of bounds".to_owned()));
    assert_eq!(c.output(0), Err("No alphabet".to_owned()));
    c.use_alphabet(Alphabet::new('*'));
    assert_eq!(c.output(0), Err("No tape".to_owned()));
    assert_eq!(c.output_all(), Err("No tapes".to_owned()));
    c.use_tapes(vec![Tape::with_size(2, false)]);
    assert_eq!(c.output(0).unwrap(), "**...\n^");
}

#[test]
fn output_all_concatenates_tapes_in_reverse_order() {
    let mut c = engine_over(&['a', 'b'], 2);
    c.set_input_string("a".to_owned()).unwrap();
    c.write_input_on_tape().unwrap();
    let all = c.output_all().unwrap();
    assert_eq!(all, "********...\n ^\na*******...\n ^");
}

#[test]
fn shift_head_stops_at_the_end_of_a_bounded_tape() {
    let mut c = engine_over(&[], 1);
    c.shift_head(100, 0);
    let shown = c.output(0).unwrap();
    // Eight cells; the head parks on the last one.
    assert_eq!(shown, "********...\n       ^");
    c.shift_head(0, 0);
    assert_eq!(c.output(0).unwrap(), "********...\n^");
}

#[test]
fn a_fresh_computation_is_bare() {
    let mut c = Computation::new(3);
    assert_eq!(c.tape_count(), 3);
    assert_eq!(c.transition_count(), 0);
    assert_eq!(c.current_state(), 0);
    assert!(c.input_string().is_empty());
    assert!(!c.is_paused() && !c.is_stopped() && !c.is_terminated());
    assert!(!c.is_on_final_state());
    c.use_alphabet(Alphabet::new('*'));
    c.set_input_string("ab".to_owned()).unwrap();
    assert_eq!(c.input_string(), "ab");
}

#[test]
fn pause_resume_and_stop_drive_the_flags() {
    let mut c = Computation::new(1);
    assert!(!c.should_exit());
    assert!(!c.should_wait());
    c.pause();
    assert!(c.should_wait());
    c.resume();
    assert!(!c.should_wait());
    c.stop();
    assert!(c.should_exit());
    // Pausing a stopped computation is a no-op.
    c.pause();
    assert!(!c.should_wait());
}

#[test]
fn stop_after_pause_still_releases_a_parked_loop() {
    let mut c = Computation::new(1);
    c.pause();
    assert!(c.should_wait());
    c.stop();
    // The wait predicate is false and the exit predicate true, so a loop
    // parked on the pause observes the stop and exits instead of waiting.
    assert!(!c.should_wait());
    assert!(c.should_exit());
    c.resume();
    assert!(!c.should_wait());
    assert!(c.should_exit());
}
