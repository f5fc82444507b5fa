use in_order::config::action::Action;
use in_order::config::{Config, Direction, Run, RunError};

fn s(t: &str) -> String {
    t.to_string()
}

fn dummy_actions(n: usize) -> Vec<Action> {
    (0..n)
        .map(|i| Action {
            name: format!("{}-step", i),
            sort_key: i as u128,
            command: s("sh"),
            do_file: Some(s("do.sh")),
            undo_file: Some(s("undo.sh")),
        })
        .collect()
}

#[test]
fn do_run_advances_one_action_at_a_time() {
    let config = Config { actions: dummy_actions(3), current_action: 0 };
    let mut run = config.start_run(Direction::Do).unwrap();
    assert_eq!(run.pending(), Some(0));
    run.record(true);
    assert_eq!(run.pending(), Some(1));
    run.record(true);
    run.record(true);
    assert_eq!(run.pending(), None);
    assert_eq!(run.cursor, 3);
    assert!(!run.stopped);
}

#[test]
fn failure_stops_the_run_and_keeps_progress() {
    // cursor starts at 1; three steps succeed, the fourth fails
    let config = Config { actions: dummy_actions(6), current_action: 1 };
    let mut run = config.start_run(Direction::Do).unwrap();
    assert_eq!(run.pending(), Some(1));
    run.record(true);
    run.record(true);
    run.record(true);
    assert_eq!(run.pending(), Some(4));
    run.record(false);
    // the cursor reflects the completed actions only, and nothing is pending
    assert_eq!(run.cursor, 4);
    assert!(run.stopped);
    assert_eq!(run.pending(), None);
    // a subsequent run resumes exactly at the failed action
    let resumed = Config { actions: dummy_actions(6), current_action: run.cursor };
    let mut next = resumed.start_run(Direction::Do).unwrap();
    assert_eq!(next.pending(), Some(4));
    next.record(true);
    assert_eq!(next.cursor, 5);
}

#[test]
fn undo_walks_backward_from_the_cursor() {
    let config = Config { actions: dummy_actions(4), current_action: 3 };
    let mut run = config.start_run(Direction::Undo).unwrap();
    assert_eq!(run.pending(), Some(2));
    run.record(true);
    assert_eq!(run.pending(), Some(1));
    run.record(false);
    assert_eq!(run.cursor, 2);
    assert_eq!(run.pending(), None);
}

#[test]
fn do_at_the_end_is_a_no_op() {
    let config = Config { actions: dummy_actions(2), current_action: 2 };
    assert_eq!(config.start_run(Direction::Do), Err(RunError::NothingToDo));
    let empty = Config { actions: vec![], current_action: 0 };
    assert_eq!(empty.start_run(Direction::Do), Err(RunError::NothingToDo));
}

#[test]
fn undo_at_zero_is_a_no_op() {
    let config = Config { actions: dummy_actions(2), current_action: 0 };
    assert_eq!(config.start_run(Direction::Undo), Err(RunError::NothingToDo));
}

#[test]
fn out_of_range_cursor_aborts_the_run() {
    let config = Config { actions: dummy_actions(2), current_action: 3 };
    assert_eq!(config.start_run(Direction::Do), Err(RunError::CursorRange));
    assert_eq!(config.start_run(Direction::Undo), Err(RunError::CursorRange));
}

#[test]
fn full_do_then_full_undo_returns_to_zero() {
    let n = 5;
    let config = Config { actions: dummy_actions(n), current_action: 0 };
    let mut run = config.start_run(Direction::Do).unwrap();
    while let Some(_) = run.pending() {
        run.record(true);
    }
    assert_eq!(run.cursor, n);
    let back = Config { actions: dummy_actions(n), current_action: run.cursor };
    let mut run = back.start_run(Direction::Undo).unwrap();
    while let Some(_) = run.pending() {
        run.record(true);
    }
    assert_eq!(run.cursor, 0);
}

#[test]
fn run_fields_mirror_the_sequence() {
    let config = Config { actions: dummy_actions(3), current_action: 1 };
    let run: Run = config.start_run(Direction::Undo).unwrap();
    assert_eq!(run.n, 3);
    assert_eq!(run.cursor, 1);
    assert_eq!(run.direction, Direction::Undo);
    assert!(!run.stopped);
}
