use hyprkill::errors::Errors;
use hyprkill::notices::{kill_report, killed_notice, unknown_notice};

#[test]
fn notices_have_the_documented_text() {
    assert_eq!(unknown_notice("Firefox"), "Unknown window title: Firefox");
    assert_eq!(unknown_notice(""), "Unknown window title: ");
    assert_eq!(killed_notice("A", 100), "Killed window A with pid: 100");
    assert_eq!(killed_notice("My \"Game\"", 7), "Killed window My \"Game\" with pid: 7");
    assert_eq!(killed_notice("", 0), "Killed window  with pid: 0");
}

#[test]
fn kill_report_speaks_only_of_success() {
    assert_eq!(
        kill_report("A", 100, &Ok(true)),
        Some("Killed window A with pid: 100".to_string())
    );
    assert_eq!(kill_report("A", 100, &Err(Errors::NoProcessFound)), None);
    assert_eq!(kill_report("A", 100, &Err(Errors::FailedToKill)), None);
}

#[test]
fn lines_of_different_titles_differ() {
    assert_ne!(killed_notice("A", 12), killed_notice("A with pid: 1", 2));
    assert_ne!(killed_notice("A with pid: 1", 2), killed_notice("A", 2));
    assert_ne!(unknown_notice("A"), unknown_notice("B"));
    assert_ne!(unknown_notice("A"), killed_notice("A", 1));
}
