use zsh_history_to_fish::translate::translate;

#[test]
fn identity_plain_command() {
    assert_eq!(translate("echo hi"), "echo hi");
}

#[test]
fn identity_pipes_and_single_ampersand() {
    assert_eq!(translate("ls -la | grep foo"), "ls -la | grep foo");
    assert_eq!(translate("sleep 1 & echo done"), "sleep 1 & echo done");
}

#[test]
fn identity_empty_command() {
    assert_eq!(translate(""), "");
}

#[test]
fn spaced_and_unspaced_conjunction_normalize_identically() {
    assert_eq!(translate("a && b"), "a; and b");
    assert_eq!(translate("a&&b"), "a; and b");
}

#[test]
fn disjunction_spaced_and_unspaced() {
    assert_eq!(translate("a || b"), "a; or b");
    assert_eq!(translate("a||b"), "a; or b");
}

#[test]
fn both_operators_in_one_command() {
    assert_eq!(translate("a && b || c"), "a; and b; or c");
}

#[test]
fn repeated_conjunctions() {
    assert_eq!(translate("a && b && c"), "a; and b; and c");
}

#[test]
fn bare_operators() {
    assert_eq!(translate("&&"), "; and ");
    assert_eq!(translate(" && "), "; and ");
    assert_eq!(translate("||"), "; or ");
}

#[test]
fn operators_inside_quotes_are_rewritten_too() {
    // The translation is purely lexical, by design: it does not spare
    // operators inside quoted arguments.
    assert_eq!(translate("echo \"a && b\""), "echo \"a; and b\"");
}

#[test]
fn uneven_spacing_keeps_extra_blanks() {
    assert_eq!(translate("a &&  b"), "a; and  b");
}
