use exed::buffer::split_lines;
use exed::buffer::Buffer;

#[test]
fn new_buffer() {
    assert_eq!(
        Buffer::new(),
        Buffer { filename: None, content: vec![], top_visible: 0 }
    );
}

#[test]
fn split_lines_drops_terminators() {
    assert_eq!(split_lines("a\nb\n"), vec!["a".to_string(), "b".to_string()]);
    assert_eq!(split_lines("a\nb"), vec!["a".to_string(), "b".to_string()]);
    assert_eq!(split_lines("a"), vec!["a".to_string()]);
    assert_eq!(split_lines(""), Vec::<String>::new());
    assert_eq!(
        split_lines("\n\nx"),
        vec!["".to_string(), "".to_string(), "x".to_string()]
    );
}

#[test]
fn delete_shifts_following_lines_down() {
    let mut buf = Buffer::new();
    for l in ["a", "b", "c", "d"] {
        buf.content.push(l.to_string());
    }
    buf.delete(2, 3);
    assert_eq!(buf.content, vec!["a".to_string(), "d".to_string()]);
    buf.delete(1, 1);
    assert_eq!(buf.content, vec!["d".to_string()]);
}

#[test]
fn insert_splits_text_after_line() {
    let mut buf = Buffer::new();
    buf.content.push("top".to_string());
    buf.content.push("bottom".to_string());
    buf.insert(1, "mid1\nmid2\n");
    assert_eq!(
        buf.content,
        vec![
            "top".to_string(),
            "mid1".to_string(),
            "mid2".to_string(),
            "bottom".to_string()
        ]
    );
    buf.insert(0, "front");
    assert_eq!(buf.content[0], "front".to_string());
    assert_eq!(buf.content.len(), 5);
}
