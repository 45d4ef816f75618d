use zsh_history_to_fish::reader::{parse_history_lines, parse_line, split_lines};

#[test]
fn well_formed_line_yields_entry() {
    let e = parse_line("42 1700000000 echo hi").unwrap();
    assert_eq!(e.timestamp, "1700000000");
    assert_eq!(e.command, "echo hi");
}

#[test]
fn escaped_newline_marker_becomes_real_newline() {
    let e = parse_line("7 1700000001 echo a\\nb").unwrap();
    assert_eq!(e.timestamp, "1700000001");
    assert_eq!(e.command, "echo a\nb");
}

#[test]
fn line_with_only_index_is_dropped() {
    assert!(parse_line("42").is_none());
}

#[test]
fn empty_and_blank_lines_are_dropped() {
    assert!(parse_line("").is_none());
    assert!(parse_line("   \t ").is_none());
}

#[test]
fn line_with_index_and_timestamp_only_keeps_empty_command() {
    let e = parse_line("42 1700000000").unwrap();
    assert_eq!(e.timestamp, "1700000000");
    assert_eq!(e.command, "");
}

#[test]
fn runs_of_blanks_inside_command_collapse_to_single_spaces() {
    // The rejoin is lossy by design: consecutive blanks and tabs become one
    // space each.
    let e = parse_line("1 2 echo   hi\tthere").unwrap();
    assert_eq!(e.command, "echo hi there");
}

#[test]
fn leading_whitespace_is_ignored() {
    let e = parse_line("  42 99 x").unwrap();
    assert_eq!(e.timestamp, "99");
    assert_eq!(e.command, "x");
}

#[test]
fn malformed_lines_shrink_the_result() {
    let lines = vec![
        String::from("42"),
        String::from("1 1700000000 echo ok"),
        String::from(""),
    ];
    let entries = parse_history_lines(&lines);
    assert!(entries.len() < lines.len());
    assert_eq!(entries.len(), 1);
    assert_eq!(entries[0].timestamp, "1700000000");
    assert_eq!(entries[0].command, "echo ok");
}

#[test]
fn entries_keep_their_order() {
    let lines = vec![
        String::from("1 100 first"),
        String::from("2 200 second"),
        String::from("3 300 third"),
    ];
    let entries = parse_history_lines(&lines);
    assert_eq!(entries.len(), 3);
    assert_eq!(entries[0].command, "first");
    assert_eq!(entries[1].command, "second");
    assert_eq!(entries[2].command, "third");
    assert_eq!(entries[0].timestamp, "100");
    assert_eq!(entries[2].timestamp, "300");
}

#[test]
fn split_lines_handles_both_line_endings() {
    let lines = split_lines("a\nb\r\nc\n");
    assert_eq!(lines, vec!["a", "b", "c"]);
}

#[test]
fn split_lines_keeps_unterminated_final_line() {
    assert_eq!(split_lines("a"), vec!["a"]);
    assert_eq!(split_lines("a\r"), vec!["a\r"]);
}

#[test]
fn split_lines_of_empty_text_is_empty() {
    assert_eq!(split_lines(""), Vec::<String>::new());
}

#[test]
fn split_lines_keeps_interior_empty_lines() {
    assert_eq!(split_lines("a\n\nb"), vec!["a", "", "b"]);
}
