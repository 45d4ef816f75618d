use zsh_history_to_fish::errors::HistoryError;
use zsh_history_to_fish::pipeline::{convert_entries, render_record};
use zsh_history_to_fish::reader::HistoryEntry;

fn entry(ts: &str, cmd: &str) -> HistoryEntry {
    HistoryEntry { timestamp: String::from(ts), command: String::from(cmd) }
}

#[test]
fn record_has_command_line_and_timestamp_line() {
    let r = render_record(&String::from("echo hi"), &String::from("1700000000"));
    assert_eq!(r, "- cmd: echo hi\n  when: 1700000000\n");
}

#[test]
fn stream_without_operators_reports_no_changes() {
    let entries = vec![entry("1", "echo a"), entry("2", "ls"), entry("3", "pwd")];
    let report = convert_entries(&entries, false);
    assert_eq!(report.processed, 3);
    assert!(report.changed.is_empty());
    assert_eq!(report.records.len(), 3);
    assert_eq!(report.records[0], "- cmd: echo a\n  when: 1\n");
    assert_eq!(report.records[2], "- cmd: pwd\n  when: 3\n");
}

#[test]
fn single_converted_entry_is_reported_once() {
    let entries = vec![
        entry("1", "echo a"),
        entry("2", "build && deploy"),
        entry("3", "pwd"),
    ];
    let report = convert_entries(&entries, false);
    assert_eq!(report.processed, 3);
    assert_eq!(report.changed.len(), 1);
    assert_eq!(report.changed[0].0, "build && deploy");
    assert_eq!(report.changed[0].1, "build; and deploy");
    assert_eq!(report.records[1], "- cmd: build; and deploy\n  when: 2\n");
}

#[test]
fn no_convert_mode_leaves_commands_untouched() {
    let entries = vec![entry("1", "build && deploy"), entry("2", "a || b")];
    let report = convert_entries(&entries, true);
    assert_eq!(report.processed, 2);
    assert!(report.changed.is_empty());
    assert_eq!(report.records[0], "- cmd: build && deploy\n  when: 1\n");
    assert_eq!(report.records[1], "- cmd: a || b\n  when: 2\n");
}

#[test]
fn empty_history_reports_nothing() {
    let entries: Vec<HistoryEntry> = Vec::new();
    let report = convert_entries(&entries, false);
    assert_eq!(report.processed, 0);
    assert!(report.changed.is_empty());
    assert!(report.records.is_empty());
}

#[test]
fn multiline_command_is_written_with_real_newline() {
    let entries = vec![entry("7", "echo a\nb")];
    let report = convert_entries(&entries, false);
    assert_eq!(report.records[0], "- cmd: echo a\nb\n  when: 7\n");
}

#[test]
fn error_messages_name_the_failure() {
    assert_eq!(
        HistoryError::SourceUnavailable.message(),
        "history source unavailable"
    );
    assert_eq!(
        HistoryError::DecodeError.message(),
        "history output is not valid text"
    );
    assert_eq!(
        HistoryError::OutputWriteError.message(),
        "failed to write the output file"
    );
    assert_eq!(HistoryError::DecodeError, HistoryError::DecodeError);
    assert_ne!(HistoryError::DecodeError, HistoryError::SourceUnavailable);
}
