use todo_list::base::{Status, TodoItem};
use todo_list::store::{encode_items, parse_items};

fn roundtrip(items: Vec<TodoItem>) -> Vec<TodoItem> {
    let text = encode_items(&items);
    parse_items(text.as_str()).expect("written store must read back")
}

fn assert_same_records(a: &[TodoItem], b: &[TodoItem]) {
    assert_eq!(a.len(), b.len());
    for (x, y) in a.iter().zip(b.iter()) {
        assert_eq!(x.todo, y.todo);
        assert_eq!(x.info, y.info);
        assert_eq!(x.status, y.status);
    }
}

#[test]
fn empty_store_is_an_empty_array() {
    let items: Vec<TodoItem> = Vec::new();
    assert_eq!(encode_items(&items), "[]");
}

#[test]
fn one_record_has_the_exact_expected_text() {
    let items = vec![TodoItem::new(Status::Todo, "Buy milk", "")];
    assert_eq!(
        encode_items(&items),
        "[{\"todo\":\"Buy milk\",\"info\":\"\",\"status\":\"TODO\"}]"
    );
}

#[test]
fn statuses_are_stored_as_uppercase_words() {
    let items = vec![
        TodoItem::new(Status::Todo, "a", ""),
        TodoItem::new(Status::InProgress, "b", ""),
        TodoItem::new(Status::Completed, "c", ""),
    ];
    let text = encode_items(&items);
    assert_eq!(
        text,
        "[{\"todo\":\"a\",\"info\":\"\",\"status\":\"TODO\"},\
         {\"todo\":\"b\",\"info\":\"\",\"status\":\"INPROGRESS\"},\
         {\"todo\":\"c\",\"info\":\"\",\"status\":\"COMPLETED\"}]"
    );
}

#[test]
fn quotes_and_backslashes_are_escaped() {
    let items = vec![TodoItem::new(Status::Todo, "say \"hi\"", "a\\b")];
    assert_eq!(
        encode_items(&items),
        "[{\"todo\":\"say \\\"hi\\\"\",\"info\":\"a\\\\b\",\"status\":\"TODO\"}]"
    );
}

#[test]
fn control_characters_are_escaped_as_four_digits() {
    let items = vec![TodoItem::new(Status::Todo, "a\nb", "c\td")];
    assert_eq!(
        encode_items(&items),
        "[{\"todo\":\"a\\u000ab\",\"info\":\"c\\u0009d\",\"status\":\"TODO\"}]"
    );
}

#[test]
fn roundtrip_keeps_records_and_order() {
    let items = vec![
        TodoItem::new(Status::Todo, "Buy milk", ""),
        TodoItem::new(Status::InProgress, "Write letter", "to grandma"),
        TodoItem::new(Status::Completed, "Clean up", "the attic"),
    ];
    let back = roundtrip(items);
    assert_same_records(
        &back,
        &[
            TodoItem::new(Status::Todo, "Buy milk", ""),
            TodoItem::new(Status::InProgress, "Write letter", "to grandma"),
            TodoItem::new(Status::Completed, "Clean up", "the attic"),
        ],
    );
}

#[test]
fn roundtrip_of_the_empty_store() {
    let back = roundtrip(Vec::new());
    assert_eq!(back.len(), 0);
}

#[test]
fn roundtrip_with_awkward_text() {
    let items = vec![TodoItem::new(
        Status::InProgress,
        "quote \" backslash \\ newline \n tab \t",
        "unicode \u{00e9}\u{4e16}\u{754c} and \u{0001}",
    )];
    let back = roundtrip(items);
    assert_eq!(back.len(), 1);
    assert_eq!(back[0].todo, "quote \" backslash \\ newline \n tab \t");
    assert_eq!(back[0].info, "unicode \u{00e9}\u{4e16}\u{754c} and \u{0001}");
    assert_eq!(back[0].status, Status::InProgress);
}

#[test]
fn handwritten_store_text_is_read() {
    let text = "[{\"todo\":\"x\",\"info\":\"y\",\"status\":\"COMPLETED\"}]";
    let back = parse_items(text).expect("valid store text");
    assert_eq!(back.len(), 1);
    assert_eq!(back[0].todo, "x");
    assert_eq!(back[0].info, "y");
    assert_eq!(back[0].status, Status::Completed);
}

#[test]
fn malformed_texts_are_rejected() {
    assert!(parse_items("").is_none());
    assert!(parse_items("x").is_none());
    assert!(parse_items("[").is_none());
    assert!(parse_items("{}").is_none());
    assert!(parse_items("[}]").is_none());
    assert!(parse_items("[\"foo\"]").is_none());
    assert!(parse_items("[{\"todo\":\"a\",\"info\":\"b\"}]").is_none());
    assert!(parse_items("[{\"todo\":\"a\",\"info\":\"b\",\"status\":\"DONE\"}]").is_none());
    assert!(parse_items("[{\"todo\":\"a\",\"info\":\"b\",\"status\":\"TODO\"}] ").is_none());
    assert!(parse_items("[ ]").is_none());
}

#[test]
fn unescaped_control_characters_are_rejected() {
    assert!(parse_items("[{\"todo\":\"a\nb\",\"info\":\"\",\"status\":\"TODO\"}]").is_none());
}

#[test]
fn non_canonical_escapes_are_rejected() {
    assert!(parse_items("[{\"todo\":\"\\u0041\",\"info\":\"\",\"status\":\"TODO\"}]").is_none());
    assert!(parse_items("[{\"todo\":\"\\n\",\"info\":\"\",\"status\":\"TODO\"}]").is_none());
    assert!(parse_items("[{\"todo\":\"\\u00AA\",\"info\":\"\",\"status\":\"TODO\"}]").is_none());
}
