use dicephrase::input::{is_quit, parse_rolls, strip_line_ending};

#[test]
fn line_feed_is_taken_off() {
    assert_eq!(strip_line_ending("1234\n"), Some("1234"));
}

#[test]
fn carriage_return_and_line_feed_are_taken_off() {
    assert_eq!(strip_line_ending("1234\r\n"), Some("1234"));
}

#[test]
fn lone_carriage_return_is_taken_off() {
    assert_eq!(strip_line_ending("12\r"), Some("12"));
}

#[test]
fn line_without_ending_is_kept() {
    assert_eq!(strip_line_ending("q"), Some("q"));
    assert_eq!(strip_line_ending("12 34"), Some("12 34"));
}

#[test]
fn only_one_ending_is_taken_off() {
    assert_eq!(strip_line_ending("12\n\n"), Some("12\n"));
    assert_eq!(strip_line_ending("12\r\r\n"), Some("12\r"));
    assert_eq!(strip_line_ending("12\n\r"), Some("12\n"));
}

#[test]
fn line_with_nothing_before_its_ending_gives_nothing() {
    assert_eq!(strip_line_ending(""), None);
    assert_eq!(strip_line_ending("\n"), None);
    assert_eq!(strip_line_ending("\r"), None);
    assert_eq!(strip_line_ending("\r\n"), None);
}

#[test]
fn characters_of_several_bytes_are_kept_whole() {
    assert_eq!(strip_line_ending("\u{e9}\u{20ac}\r\n"), Some("\u{e9}\u{20ac}"));
}

#[test]
fn single_q_asks_to_quit() {
    assert!(is_quit("q"));
    assert!(is_quit("Q"));
}

#[test]
fn other_lines_do_not_ask_to_quit() {
    assert!(!is_quit(""));
    assert!(!is_quit("quit"));
    assert!(!is_quit("qq"));
    assert!(!is_quit("1"));
    assert!(!is_quit("q\n"));
    assert!(!is_quit(" q"));
}

#[test]
fn each_digit_is_one_roll() {
    assert_eq!(parse_rolls("1234"), Some(vec![1, 2, 3, 4]));
    assert_eq!(parse_rolls("6"), Some(vec![6]));
    assert_eq!(parse_rolls("0987"), Some(vec![0, 9, 8, 7]));
    assert_eq!(parse_rolls("16261626"), Some(vec![1, 6, 2, 6, 1, 6, 2, 6]));
}

#[test]
fn empty_line_holds_no_roll() {
    assert_eq!(parse_rolls(""), Some(Vec::new()));
}

#[test]
fn other_characters_are_no_rolls() {
    assert_eq!(parse_rolls("12a4"), None);
    assert_eq!(parse_rolls("1 2"), None);
    assert_eq!(parse_rolls("-1"), None);
    assert_eq!(parse_rolls("+1"), None);
    assert_eq!(parse_rolls("quit"), None);
    assert_eq!(parse_rolls("12\n"), None);
    assert_eq!(parse_rolls("/"), None);
    assert_eq!(parse_rolls(":"), None);
    // An Arabic-Indic digit is no decimal digit of the input.
    assert_eq!(parse_rolls("\u{661}"), None);
}
