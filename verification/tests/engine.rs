use exed::buffer::Buffer;
use exed::engine::resolve;
use exed::engine::EditorError;
use exed::engine::Engine;
use exed::engine::EngineError;
use exed::engine::Outcome;
use exed::engine::PrintEvent;
use exed::engine::SelectorError;
use exed::ex::parse_command;
use exed::ex::Action;
use exed::ex::Command;
use exed::ex::Locator;
use exed::ex::Selector;

fn engine_with(lines: &[&str]) -> Engine {
    let mut engine = Engine::new();
    for l in lines {
        engine.buffer.content.push(l.to_string());
    }
    engine
}

fn run(engine: &mut Engine, input: &str) -> Result<Outcome, EditorError> {
    let cmd = parse_command(input).unwrap();
    let mut events: Vec<PrintEvent> = Vec::new();
    engine.execute(&cmd, &mut events)
}

#[test]
fn execute_yank() {
    let mut engine = Engine::new();
    engine.buffer.content.push("First line.".to_string());
    let cmd = Command {
        string: "1y".to_string(),
        action: Action::Yank,
        selector: Selector { start: Locator::Line(1), end: None },
    };
    let mut events: Vec<PrintEvent> = Vec::new();
    match engine.execute(&cmd, &mut events) {
        Ok(_) => assert_eq!(&engine.clipboard, "First line.\n"),
        Err(e) => panic!("{:?}", e),
    };
}

#[test]
fn delete_range_clamps_cursor() {
    let mut engine = engine_with(&["a", "b", "c", "d", "e"]);
    assert_eq!(run(&mut engine, "4"), Ok(Outcome::Continue));
    assert_eq!(engine.cursor.line, 4);
    assert_eq!(run(&mut engine, "1,3d"), Ok(Outcome::Continue));
    assert_eq!(engine.buffer.content, vec!["d".to_string(), "e".to_string()]);
    assert_eq!(engine.cursor.line, 2);
}

#[test]
fn yank_second_line() {
    let mut engine = engine_with(&["a", "b", "c"]);
    assert_eq!(run(&mut engine, "2y"), Ok(Outcome::Continue));
    assert_eq!(engine.clipboard, "b\n");
}

#[test]
fn print_all_emits_every_line_in_order() {
    let mut engine = engine_with(&["a", "b", "c"]);
    let cmd = parse_command("%p").unwrap();
    let mut events: Vec<PrintEvent> = Vec::new();
    assert_eq!(engine.execute(&cmd, &mut events), Ok(Outcome::Continue));
    assert_eq!(events.len(), 3);
    for (i, line) in ["a", "b", "c"].iter().enumerate() {
        assert_eq!(events[i].line_number, i + 1);
        assert_eq!(events[i].text, line.to_string());
    }
    assert_eq!(engine.buffer.content, vec!["a".to_string(), "b".to_string(), "c".to_string()]);
}

#[test]
fn global_yank_accumulates() {
    let mut engine = engine_with(&["x", "y", "z"]);
    engine.clipboard = "stale".to_string();
    let cmd = Command {
        string: "gy".to_string(),
        selector: Selector { start: Locator::All, end: None },
        action: Action::Global(Box::new(Action::Yank)),
    };
    let mut events: Vec<PrintEvent> = Vec::new();
    assert_eq!(engine.execute(&cmd, &mut events), Ok(Outcome::Continue));
    assert_eq!(engine.clipboard, "x\ny\nz\n");
}

#[test]
fn global_delete_empties_buffer() {
    let mut engine = engine_with(&["x", "y", "z"]);
    let cmd = Command {
        string: "gd".to_string(),
        selector: Selector { start: Locator::All, end: None },
        action: Action::Global(Box::new(Action::Delete)),
    };
    let mut events: Vec<PrintEvent> = Vec::new();
    assert_eq!(engine.execute(&cmd, &mut events), Ok(Outcome::Continue));
    assert!(engine.buffer.content.is_empty());
    assert_eq!(engine.cursor.line, 1);
}

#[test]
fn go_moves_cursor_to_resolved_end() {
    let mut engine = engine_with(&["a", "b", "c", "d"]);
    assert_eq!(run(&mut engine, "3"), Ok(Outcome::Continue));
    assert_eq!(engine.cursor.line, 3);
    assert_eq!(engine.cursor.col, 1);
    assert_eq!(run(&mut engine, "%"), Ok(Outcome::Continue));
    assert_eq!(engine.cursor.line, 4);
    assert_eq!(run(&mut engine, "-2"), Ok(Outcome::Continue));
    assert_eq!(engine.cursor.line, 2);
    assert_eq!(run(&mut engine, "+1"), Ok(Outcome::Continue));
    assert_eq!(engine.cursor.line, 3);
}

#[test]
fn quit_returns_exit_without_mutation() {
    let mut engine = engine_with(&["a"]);
    assert_eq!(run(&mut engine, "q"), Ok(Outcome::Exit));
    assert_eq!(engine.buffer.content, vec!["a".to_string()]);
}

#[test]
fn put_inserts_clipboard_after_line() {
    let mut engine = engine_with(&["a", "b"]);
    assert_eq!(run(&mut engine, "1,2y"), Ok(Outcome::Continue));
    assert_eq!(engine.clipboard, "a\nb\n");
    assert_eq!(run(&mut engine, "1put"), Ok(Outcome::Continue));
    assert_eq!(
        engine.buffer.content,
        vec!["a".to_string(), "a".to_string(), "b".to_string(), "b".to_string()],
    );
}

#[test]
fn append_is_not_implemented() {
    let mut engine = engine_with(&["a"]);
    assert_eq!(
        run(&mut engine, "a"),
        Err(EditorError::Engine(EngineError::NotImplemented)),
    );
}

#[test]
fn edit_is_a_request_to_the_caller() {
    let mut engine = engine_with(&["a"]);
    assert_eq!(
        run(&mut engine, "e notes.txt"),
        Ok(Outcome::Edit("notes.txt".to_string())),
    );
    // The buffer is untouched until the caller hands lines back.
    assert_eq!(engine.buffer.content, vec!["a".to_string()]);
}

#[test]
fn write_is_a_request_with_rendered_text() {
    let mut engine = engine_with(&["a", "b", "c"]);
    assert_eq!(
        run(&mut engine, "1,2w out.txt"),
        Ok(Outcome::Write { path: "out.txt".to_string(), text: "a\nb\n".to_string() }),
    );
    engine.buffer.filename = Some("own.txt".to_string());
    assert_eq!(
        run(&mut engine, "%w"),
        Ok(Outcome::Write { path: "own.txt".to_string(), text: "a\nb\nc\n".to_string() }),
    );
}

#[test]
fn write_without_any_filename_fails() {
    let mut engine = engine_with(&["a"]);
    assert_eq!(
        run(&mut engine, "w"),
        Err(EditorError::Engine(EngineError::NoFilenameSpecified)),
    );
}

#[test]
fn replace_buffer_resets_cursor() {
    let mut engine = engine_with(&["a", "b", "c"]);
    assert_eq!(run(&mut engine, "3"), Ok(Outcome::Continue));
    let mut replacement = Buffer::new();
    replacement.filename = Some("other.txt".to_string());
    replacement.content.push("fresh".to_string());
    engine.replace_buffer(replacement);
    assert_eq!(engine.cursor.line, 1);
    assert_eq!(engine.cursor.col, 1);
    assert_eq!(engine.buffer.content, vec!["fresh".to_string()]);
    assert_eq!(engine.buffer.filename, Some("other.txt".to_string()));
}

#[test]
fn resolve_line_number_is_single_line_range() {
    assert_eq!(resolve(&Selector { start: Locator::Line(2), end: None }, 1, 5), Ok((2, 2)));
    assert_eq!(resolve(&Selector { start: Locator::All, end: None }, 3, 5), Ok((1, 5)));
    assert_eq!(
        resolve(&Selector { start: Locator::Here, end: Some(Locator::Last) }, 2, 5),
        Ok((2, 5)),
    );
}

#[test]
fn resolve_back_underflow() {
    assert_eq!(
        resolve(&Selector { start: Locator::Back(5), end: None }, 3, 9),
        Err(SelectorError::Underflow),
    );
    let mut engine = engine_with(&["a", "b", "c"]);
    assert_eq!(
        run(&mut engine, "-5p"),
        Err(EditorError::Selector(SelectorError::Underflow)),
    );
}

#[test]
fn resolve_empty_buffer() {
    let mut engine = Engine::new();
    assert_eq!(
        run(&mut engine, "p"),
        Err(EditorError::Selector(SelectorError::EmptyBuffer)),
    );
    assert_eq!(
        resolve(&Selector { start: Locator::Line(1), end: None }, 1, 0),
        Err(SelectorError::EmptyBuffer),
    );
}

#[test]
fn resolve_out_of_range() {
    let mut engine = engine_with(&["a", "b", "c"]);
    assert_eq!(
        run(&mut engine, "9p"),
        Err(EditorError::Selector(SelectorError::OutOfRange)),
    );
    assert_eq!(
        run(&mut engine, "0p"),
        Err(EditorError::Selector(SelectorError::OutOfRange)),
    );
    // Resolution failure mutates nothing.
    assert_eq!(engine.buffer.content.len(), 3);
}

#[test]
fn resolve_reversed_range_never_executes() {
    let mut engine = engine_with(&["a", "b", "c"]);
    assert_eq!(
        run(&mut engine, "3,1d"),
        Err(EditorError::Selector(SelectorError::ReversedRange)),
    );
    assert_eq!(engine.buffer.content.len(), 3);
}

#[test]
fn global_print_emits_per_captured_line() {
    let mut engine = engine_with(&["a", "b", "c"]);
    let cmd = parse_command("%gp").unwrap();
    let mut events: Vec<PrintEvent> = Vec::new();
    assert_eq!(engine.execute(&cmd, &mut events), Ok(Outcome::Continue));
    assert_eq!(events.len(), 3);
    assert_eq!(events[2].line_number, 3);
    assert_eq!(events[2].text, "c".to_string());
}

#[test]
fn global_go_lands_on_last_captured_line() {
    let mut engine = engine_with(&["a", "b", "c"]);
    assert_eq!(run(&mut engine, "1,2gp"), Ok(Outcome::Continue));
    assert_eq!(run(&mut engine, "%g"), Ok(Outcome::Continue));
    assert_eq!(engine.cursor.line, 3);
}

#[test]
fn global_put_is_not_implemented() {
    let mut engine = engine_with(&["a"]);
    assert_eq!(
        run(&mut engine, "gput"),
        Err(EditorError::Engine(EngineError::NotImplemented)),
    );
}

#[test]
fn single_line_range_deletes_one_line() {
    let mut engine = engine_with(&["a", "b", "c"]);
    assert_eq!(run(&mut engine, "2,2d"), Ok(Outcome::Continue));
    assert_eq!(engine.buffer.content, vec!["a".to_string(), "c".to_string()]);
}

#[test]
fn last_locator_addresses_final_line() {
    let mut engine = engine_with(&["a", "b", "c"]);
    assert_eq!(run(&mut engine, "$y"), Ok(Outcome::Continue));
    assert_eq!(engine.clipboard, "c\n");
}

#[test]
fn put_with_empty_clipboard_inserts_nothing() {
    let mut engine = engine_with(&["a"]);
    assert_eq!(run(&mut engine, "1put"), Ok(Outcome::Continue));
    assert_eq!(engine.buffer.content, vec!["a".to_string()]);
}

#[test]
fn huge_ahead_offset_is_out_of_range_not_a_panic() {
    let mut engine = engine_with(&["a", "b"]);
    assert_eq!(
        run(&mut engine, "+18446744073709551615p"),
        Err(EditorError::Selector(SelectorError::OutOfRange)),
    );
}
