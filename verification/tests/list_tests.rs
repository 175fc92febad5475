use todo_list::base::{Status, TodoItem};
use todo_list::list::TodoList;

fn three_items() -> TodoList {
    TodoList::from_items(vec![
        TodoItem::new(Status::Todo, "one", "first"),
        TodoItem::new(Status::InProgress, "two", "second"),
        TodoItem::new(Status::Completed, "three", "third"),
    ])
}

#[test]
fn fresh_list_has_no_selection() {
    let l = three_items();
    assert_eq!(l.selected(), None);
    assert_eq!(l.items.len(), 3);
}

#[test]
fn select_next_from_none_lands_on_first() {
    let mut l = three_items();
    l.select_none();
    l.select_next();
    assert_eq!(l.selected(), Some(0));
}

#[test]
fn select_next_then_previous_keeps_position() {
    let mut l = three_items();
    l.select_none();
    l.select_next();
    let after_next = l.selected();
    l.select_previous();
    assert_eq!(l.selected(), after_next);
    assert_eq!(l.selected(), Some(0));
}

#[test]
fn select_next_clamps_at_end() {
    let mut l = three_items();
    l.select_last();
    assert_eq!(l.selected(), Some(2));
    l.select_next();
    assert_eq!(l.selected(), Some(2));
    l.select_next();
    assert_eq!(l.selected(), Some(2));
}

#[test]
fn select_previous_clamps_at_start() {
    let mut l = three_items();
    l.select_first();
    l.select_previous();
    assert_eq!(l.selected(), Some(0));
}

#[test]
fn select_previous_from_none_lands_on_last() {
    let mut l = three_items();
    l.select_previous();
    assert_eq!(l.selected(), Some(2));
}

#[test]
fn navigation_is_a_no_op_on_empty_list() {
    let mut l = TodoList::from_items(Vec::new());
    l.select_next();
    assert_eq!(l.selected(), None);
    l.select_previous();
    assert_eq!(l.selected(), None);
    l.select_first();
    assert_eq!(l.selected(), None);
    l.select_last();
    assert_eq!(l.selected(), None);
}

#[test]
fn select_first_and_last_jump() {
    let mut l = three_items();
    l.select_first();
    assert_eq!(l.selected(), Some(0));
    l.select_last();
    assert_eq!(l.selected(), Some(2));
}

#[test]
fn select_none_clears() {
    let mut l = three_items();
    l.select_first();
    l.select_none();
    assert_eq!(l.selected(), None);
}

#[test]
fn set_status_changes_only_selected_item() {
    let mut l = three_items();
    l.select_first();
    l.set_status(Status::Completed);
    assert_eq!(l.items[0].status, Status::Completed);
    assert_eq!(l.items[1].status, Status::InProgress);
    assert_eq!(l.items[2].status, Status::Completed);
    assert_eq!(l.items[0].todo, "one");
    assert_eq!(l.items[0].info, "first");
}

#[test]
fn set_status_without_selection_changes_nothing() {
    let mut l = three_items();
    l.set_status(Status::Completed);
    assert_eq!(l.items[0].status, Status::Todo);
    assert_eq!(l.items[1].status, Status::InProgress);
    assert_eq!(l.items[2].status, Status::Completed);
}
