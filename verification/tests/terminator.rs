use hyprkill::errors::Errors;
use hyprkill::registry::input_parser;
use hyprkill::terminator::{attempt_outcome, kill_process, process_killer, MAX_PID};

// No process has this id: it is just above the greatest id that Linux
// hands out.
const NO_SUCH_PID: usize = 4194305;

#[test]
fn unknown_title_is_reported_and_a_missing_process_is_passed_over() {
    let mut reg = input_parser(vec!["X".to_string(), "Y".to_string()]);
    reg.record_client("Y", NO_SUCH_PID);
    assert_eq!(reg.get("X"), Some(None));
    assert_eq!(reg.get("Y"), Some(Some(NO_SUCH_PID)));
    let summary = process_killer(&reg);
    assert_eq!(summary.lines, vec!["Unknown window title: X".to_string()]);
    assert_eq!(summary.ended, vec![false, false]);
    let unknown = summary.lines.iter().filter(|l| l.as_str() == "Unknown window title: X").count();
    assert_eq!(unknown, 1);
    assert!(!summary.lines.contains(&"Killed window Y with pid: 4194305".to_string()));
}

#[test]
fn every_unknown_title_gets_its_line_in_order() {
    let reg = input_parser(vec!["B".to_string(), "".to_string(), "A".to_string()]);
    let summary = process_killer(&reg);
    assert_eq!(
        summary.lines,
        vec![
            "Unknown window title: B".to_string(),
            "Unknown window title: ".to_string(),
            "Unknown window title: A".to_string(),
        ]
    );
    assert_eq!(summary.ended, vec![false, false, false]);
}

#[test]
fn empty_registry_gives_no_lines() {
    let reg = input_parser(Vec::new());
    let summary = process_killer(&reg);
    assert!(summary.lines.is_empty());
    assert!(summary.ended.is_empty());
}

#[test]
fn kill_process_fails_for_an_id_that_no_process_has() {
    assert!(matches!(kill_process(NO_SUCH_PID), Err(Errors::FailedToKill)));
    assert!(matches!(kill_process(2147483000), Err(Errors::FailedToKill)));
}

#[test]
fn kill_process_fails_for_ids_out_of_range() {
    assert!(matches!(kill_process(0), Err(Errors::FailedToKill)));
    assert!(matches!(kill_process(MAX_PID + 1), Err(Errors::FailedToKill)));
    assert!(matches!(kill_process(4294967297), Err(Errors::FailedToKill)));
    assert!(matches!(kill_process(usize::MAX), Err(Errors::FailedToKill)));
}

#[test]
fn attempt_outcome_is_a_success_only_for_a_request_that_was_taken() {
    assert!(matches!(attempt_outcome(Some(true)), Ok(true)));
    assert!(matches!(attempt_outcome(Some(false)), Err(Errors::FailedToKill)));
    assert!(matches!(attempt_outcome(None), Err(Errors::FailedToKill)));
}

#[test]
fn max_pid_is_the_greatest_signed_32_bit_number() {
    assert_eq!(MAX_PID, i32::MAX as usize);
}
