use exed::ex::parse_command;
use exed::ex::tag_str;
use exed::ex::Action;
use exed::ex::Command;
use exed::ex::Locator;
use exed::ex::ParseError;
use exed::ex::Selector;

fn assert_command_equal(cmd_string: &str, selector: Selector, action: Action) {
    let cmd = parse_command(cmd_string);
    let expected_result = Command {
        string: cmd_string.to_string(),
        selector,
        action,
    };
    assert_eq!(cmd, Ok(expected_result));
}

#[test]
fn test_parse_here_print() {
    let command = parse_command(".p").unwrap();
    let expected_result = Command {
        string: ".p".to_string(),
        selector: Selector { start: Locator::Here, end: None },
        action: Action::Print,
    };

    assert_eq!(command, expected_result);
}

#[test]
fn match_tag_str() {
    assert_eq!(tag_str("abc", "a"), Some(("bc", "a")));
    assert_eq!(tag_str("abc", "ab"), Some(("c", "ab")));
    assert_eq!(tag_str("abc", "abc"), Some(("", "abc")));
    assert_eq!(tag_str("abc", ""), Some(("abc", "")));
}

#[test]
fn nomatch_tag_str() {
    assert_eq!(tag_str("abc", "b"), None);
    assert_eq!(tag_str("abc", "abe"), None);
    assert_eq!(tag_str("abcd", "abcderian"), None);
}

#[test]
fn tag_str_against_empty() {
    assert_eq!(tag_str("", "a"), None);
}

#[test]
fn here_print() {
    assert_command_equal(".p", Selector { start: Locator::Here, end: None }, Action::Print);
}

#[test]
fn all_delete() {
    assert_command_equal("%d", Selector { start: Locator::All, end: None }, Action::Delete);
}

#[test]
fn line_go() {
    assert_command_equal("14", Selector { start: Locator::Line(14), end: None }, Action::Go);
}

#[test]
fn simple_range_delete() {
    assert_command_equal(
        "3,4444d",
        Selector { start: Locator::Line(3), end: Some(Locator::Line(4444)) },
        Action::Delete,
    );
}

#[test]
fn relative_range() {
    assert_command_equal(
        "-3,+0y",
        Selector { start: Locator::Back(3), end: Some(Locator::Ahead(0)) },
        Action::Yank,
    );
}

#[test]
fn too_large_line_fails_with_overflow() {
    let r = parse_command("999999999999999999999999999999999999y");
    assert_eq!(r, Err(ParseError::IntegerOverflow));
}

#[test]
fn trailing_input_rejected() {
    let r = parse_command(".px");
    assert_eq!(r, Err(ParseError::TrailingInput("x".to_string())));
}

#[test]
fn unknown_action_rejected() {
    assert_eq!(parse_command("3z"), Err(ParseError::UnknownAction('z')));
    assert_eq!(parse_command("*"), Err(ParseError::UnknownAction('*')));
}

#[test]
fn empty_command_is_here_go() {
    assert_command_equal("", Selector { start: Locator::Here, end: None }, Action::Go);
}

#[test]
fn quit_and_yank_and_append() {
    assert_command_equal("q", Selector { start: Locator::Here, end: None }, Action::Quit);
    assert_command_equal("$y", Selector { start: Locator::Last, end: None }, Action::Yank);
    assert_command_equal("2a", Selector { start: Locator::Line(2), end: None }, Action::Append);
}

#[test]
fn put_takes_precedence_over_print() {
    assert_command_equal("put", Selector { start: Locator::Here, end: None }, Action::Put);
    assert_command_equal("1,2put", Selector {
        start: Locator::Line(1),
        end: Some(Locator::Line(2)),
    }, Action::Put);
}

#[test]
fn edit_takes_filename() {
    assert_command_equal(
        "e  notes.txt",
        Selector { start: Locator::Here, end: None },
        Action::Edit("notes.txt".to_string()),
    );
}

#[test]
fn write_filename_is_optional() {
    assert_command_equal("w", Selector { start: Locator::Here, end: None }, Action::Write(None));
    assert_command_equal(
        "1,2w out.txt",
        Selector { start: Locator::Line(1), end: Some(Locator::Line(2)) },
        Action::Write(Some("out.txt".to_string())),
    );
}

#[test]
fn global_wraps_actions_recursively() {
    assert_command_equal(
        "%gy",
        Selector { start: Locator::All, end: None },
        Action::Global(Box::new(Action::Yank)),
    );
    assert_command_equal(
        "ggd",
        Selector { start: Locator::Here, end: None },
        Action::Global(Box::new(Action::Global(Box::new(Action::Delete)))),
    );
}

#[test]
fn bare_sign_is_not_a_locator() {
    // `+` not followed by digits leaves the locator empty (Here), so the
    // sign itself fails as an unknown action.
    assert_eq!(parse_command("+p"), Err(ParseError::UnknownAction('+')));
}

#[test]
fn trailing_input_after_range_action() {
    assert_eq!(
        parse_command("1,2dq"),
        Err(ParseError::TrailingInput("q".to_string()))
    );
}

#[test]
fn raw_string_is_kept_verbatim() {
    let cmd = parse_command("  3,4p").err();
    // Leading spaces are not part of the grammar: the first space fails as
    // an unknown action after an empty (Here) locator.
    assert_eq!(cmd, Some(ParseError::UnknownAction(' ')));
    let cmd = parse_command("e  spaced name.txt").unwrap();
    assert_eq!(cmd.string, "e  spaced name.txt".to_string());
    assert_eq!(cmd.action, Action::Edit("spaced name.txt".to_string()));
}
