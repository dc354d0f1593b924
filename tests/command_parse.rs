use lolzup::command::Command;

#[test]
fn parses_start() {
    assert!(matches!(Command::parse("/start"), Ok(Command::Start)));
}

#[test]
fn start_ignores_one_argument() {
    assert!(matches!(Command::parse("/start now"), Ok(Command::Start)));
}

#[test]
fn parses_new_with_argument() {
    match Command::parse("/new 42") {
        Ok(Command::New(a)) => assert_eq!(a, "42"),
        _ => panic!("expected /new"),
    }
}

#[test]
fn parses_delete_with_surrounding_whitespace() {
    match Command::parse("  \t/del   777 \n") {
        Ok(Command::Delete(a)) => assert_eq!(a, "777"),
        _ => panic!("expected /del"),
    }
}

#[test]
fn unicode_whitespace_separates_words() {
    match Command::parse("/new\u{3000}12\u{a0}") {
        Ok(Command::New(a)) => assert_eq!(a, "12"),
        _ => panic!("expected /new"),
    }
}

#[test]
fn empty_line_is_rejected() {
    assert!(matches!(Command::parse(""), Err("Empty command")));
    assert!(matches!(Command::parse("   "), Err("Empty command")));
}

#[test]
fn three_words_are_too_many() {
    assert!(matches!(Command::parse("/new 1 2"), Err("Too much arguments")));
}

#[test]
fn new_without_argument_is_rejected() {
    assert!(matches!(Command::parse("/new"), Err("You have to specify an argument")));
    assert!(matches!(Command::parse("/del "), Err("You have to specify an argument")));
}

#[test]
fn unknown_command_is_rejected() {
    assert!(matches!(Command::parse("/news 5"), Err("Command not found")));
    assert!(matches!(Command::parse("hello"), Err("Command not found")));
}

use lolzup::number::parse_i64;

#[test]
fn thread_ids_parse_like_std() {
    for s in ["42", "-7", "+9", "0", "007", "9223372036854775807", "-9223372036854775808"] {
        assert_eq!(parse_i64(s), s.parse::<i64>().ok(), "{s}");
    }
    assert_eq!(parse_i64("42"), Some(42));
    assert_eq!(parse_i64("-9223372036854775808"), Some(i64::MIN));
}

#[test]
fn non_numbers_are_refused() {
    for s in ["", "-", "+", "4a", " 4", "9223372036854775808", "-9223372036854775809", "99999999999999999999", "1.5"] {
        assert_eq!(parse_i64(s), None, "{s}");
        assert!(s.parse::<i64>().is_err());
    }
}
