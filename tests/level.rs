use hrm::error::ParseError;
use hrm::level::{kvp, label, number_list, sequence, size, test_case, Level, ParseLevel};

#[test]
fn parses_number() {
    let res = size("42");
    assert_eq!(res, Some(42));
}

#[test]
fn parses_label() {
    let (rest, label) = label("tests:\n").unwrap();
    assert!(rest.is_empty(), "Some input was unused: {rest}");
    assert_eq!(label.0, "tests");
}

#[test]
fn parses_number_list() {
    let (rest, list) = number_list("1 2 3");
    assert!(rest.is_empty(), "Some input was unused: {rest}");
    assert_eq!(list, vec![1, 2, 3]);
}

#[test]
fn parses_sequence() {
    let (rest, list) = sequence("[ 1 2 3 ]").unwrap();
    assert!(rest.is_empty(), "Some input was unused: {rest}");
    assert_eq!(list.0, vec![1, 2, 3]);
}

#[test]
fn parses_test_case() {
    let (rest, test) = test_case("[ 1 2 3 ] -> [ 3 2 1 ]").unwrap();
    assert!(rest.is_empty(), "Some input was unused: {rest}");
    assert_eq!(test.input.0, vec![1, 2, 3]);
    assert_eq!(test.output.0, vec![3, 2, 1]);
}

#[test]
fn number_takes_plus_sign() {
    assert_eq!(size("+42"), Some(42));
    assert_eq!(size("+"), None);
    assert_eq!(size("-1"), None);
    assert_eq!(size("++1"), None);
}

#[test]
fn number_rejects_non_digits_and_overflow() {
    assert_eq!(size(""), None);
    assert_eq!(size("4a"), None);
    assert_eq!(size("999999999999999999999999999"), None);
    assert_eq!(size("007"), Some(7));
}

#[test]
fn number_list_leaves_what_follows() {
    let (rest, list) = number_list("10 20  x");
    assert_eq!(rest, "  x");
    assert_eq!(list, vec![10, 20]);
    let (rest, list) = number_list("]");
    assert_eq!(rest, "]");
    assert!(list.is_empty());
}

#[test]
fn empty_sequence_and_missing_bracket() {
    let (rest, list) = sequence("[] tail").unwrap();
    assert_eq!(rest, " tail");
    assert!(list.0.is_empty());
    assert!(sequence("[ 1 2").is_none());
    assert!(sequence("1 2 ]").is_none());
}

#[test]
fn test_case_needs_arrow() {
    assert!(test_case("[ 1 ] [ 1 ]").is_none());
    let (rest, test) = test_case("[4]->[]\n").unwrap();
    assert_eq!(rest, "\n");
    assert_eq!(test.input.0, vec![4]);
    assert!(test.output.0.is_empty());
}

#[test]
fn label_forms() {
    let (rest, l) = label("\n  goals:\r\nsize = 1").unwrap();
    assert_eq!(rest, "size = 1");
    assert_eq!(l.0, "goals");
    assert!(label("goals:").is_none());
    assert!(label(":\n").is_none());
}

const LEVEL: &str = "goals:\n  size = 6\n  speed = 8\ntests:\n  [ 1 2 3 ] -> [ 3 2 1 ]\n  [ 4 ] -> [ 4 ]\n";

#[test]
fn parses_whole_level() {
    let level = Level::parse(LEVEL).unwrap();
    assert_eq!(level.goals.size, 6);
    assert_eq!(level.goals.speed, 8);
    assert_eq!(level.tests.len(), 2);
    assert_eq!(level.tests[0].input, vec![1, 2, 3]);
    assert_eq!(level.tests[0].output, vec![3, 2, 1]);
    assert_eq!(level.tests[1].input, vec![4]);
    assert_eq!(level.tests[1].output, vec![4]);
    assert!(Level::parse_admits(LEVEL));
}

#[test]
fn level_without_tests_section_has_no_tests() {
    let level = Level::parse("goals:\nspeed = 2\nsize = 1\n\n").unwrap();
    assert_eq!(level.goals.size, 1);
    assert_eq!(level.goals.speed, 2);
    assert!(level.tests.is_empty());
}

#[test]
fn level_missing_goal_is_not_admitted() {
    assert!(!Level::parse_admits("goals:\nsize = 6\n"));
    assert!(!Level::parse_admits(""));
    assert!(Level::parse_admits("goals:\nsize = 1\nspeed = 2\n"));
    assert!(Level::parse_admits("goals:\nsize = 1\ngoals:\nspeed = 2\n"));
    assert!(Level::parse_admits("oops"));
}

#[test]
fn level_duplicate_section() {
    match Level::parse("goals:\nsize = 1\ngoals:\nspeed = 2\n") {
        Err(ParseError::UnexpectedToken(t)) => assert_eq!(t, "x"),
        other => panic!("unexpected result {other:?}"),
    }
}

#[test]
fn level_trailing_text() {
    match Level::parse("goals:\nsize = 1\nspeed = 2\noops\n") {
        Err(ParseError::UnexpectedToken(t)) => assert_eq!(t, "oops\n"),
        other => panic!("unexpected result {other:?}"),
    }
}

#[test]
fn section_lookup() {
    let level = ParseLevel(Vec::new());
    assert_eq!(level.get_value("goals", "size"), None);
    assert!(level.tests("tests").is_empty());
}

#[test]
fn parses_key_value() {
    let (rest, pair) = kvp("key = 42").unwrap();
    assert!(rest.is_empty(), "Some input was unused: {rest}");
    assert_eq!(pair.0, "key");
    assert_eq!(pair.1, 42);
}

#[test]
fn key_value_needs_equals_and_number() {
    assert!(kvp("key 42").is_none());
    assert!(kvp("key = x").is_none());
    let (rest, pair) = kvp("speed\t=\t7\n").unwrap();
    assert_eq!(rest, "\n");
    assert_eq!(pair.0, "speed");
    assert_eq!(pair.1, 7);
}
