use turing_engine::tape::{Tape, BLANK};

#[test]
fn a_new_tape_is_blank_with_the_head_at_zero() {
    let t = Tape::new(false);
    assert_eq!(t.head_position(), 0);
    assert_eq!(t.size(), 500);
    assert!(t.content().iter().all(|&c| c == BLANK));
    assert!(!t.does_extend_on_end());
}

#[test]
fn with_content_keeps_the_cells() {
    let t = Tape::with_content(vec![3, 1, 4], true);
    assert_eq!(t.content(), &[3, 1, 4]);
    assert_eq!(t.head_position(), 0);
    assert!(t.does_extend_on_end());
}

#[test]
fn read_and_write_act_on_the_cell_under_the_head() {
    let mut t = Tape::with_content(vec![5, 6], false);
    assert_eq!(t.read(), 5);
    t.write(9);
    assert_eq!(t.read(), 9);
    assert_eq!(t.head_position(), 0);
    assert_eq!(t.content(), &[9, 6]);
}

#[test]
fn exactly_n_minus_one_right_moves_succeed_on_a_bounded_tape() {
    let n = 5;
    let mut t = Tape::with_size(n, false);
    for expected in 1..n {
        assert!(t.move_dx().is_ok());
        assert_eq!(t.head_position(), expected);
    }
    let before: Vec<u8> = t.content().to_vec();
    assert!(t.move_dx().is_err());
    assert_eq!(t.head_position(), n - 1);
    assert_eq!(t.content(), &before[..]);
}

#[test]
fn move_left_at_the_left_boundary_fails_without_mutation() {
    let mut t = Tape::with_content(vec![7, 8], false);
    let before: Vec<u8> = t.content().to_vec();
    assert!(t.move_sx().is_err());
    assert_eq!(t.head_position(), 0);
    assert_eq!(t.content(), &before[..]);
    assert!(t.move_dx().is_ok());
    assert!(t.move_sx().is_ok());
    assert_eq!(t.head_position(), 0);
}

#[test]
fn an_extending_tape_grows_by_one_blank_cell() {
    let mut t = Tape::with_content(vec![1, 2], true);
    t.write(9);
    assert!(t.move_dx().is_ok());
    assert_eq!(t.size(), 2);
    assert!(t.move_dx().is_ok());
    assert_eq!(t.size(), 3);
    assert_eq!(t.head_position(), 2);
    assert_eq!(t.read(), BLANK);
    assert_eq!(t.content(), &[9, 2, BLANK]);
}
