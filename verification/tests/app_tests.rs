use todo_list::app::App;
use todo_list::base::{Status, TodoItem};
use todo_list::event::{KeyCode, KeyEvent, KeyKind};

fn press(app: &mut App, code: KeyCode) {
    app.handle_key(KeyEvent::press(code));
}

fn type_text(app: &mut App, text: &str) {
    for c in text.chars() {
        press(app, KeyCode::Char(c));
    }
}

#[test]
fn empty_store_is_seeded_with_one_task() {
    let app = App::new(Vec::new(), vec![TodoItem::new(Status::Completed, "old", "gone")]);
    assert_eq!(app.todo_list.items.len(), 1);
    assert_eq!(app.todo_list.items[0].todo, "Create a task");
    assert_eq!(app.todo_list.items[0].info, "Press 'a' to start writing a task");
    assert_eq!(app.todo_list.items[0].status, Status::Todo);
    assert_eq!(app.history_list.items.len(), 0);
    assert!(!app.popup_mode);
    assert!(!app.should_exit);
    assert!(!app.focus_history);
}

#[test]
fn loaded_store_is_kept_as_it_is() {
    let app = App::new(
        vec![TodoItem::new(Status::InProgress, "work", "ongoing")],
        vec![TodoItem::new(Status::Completed, "done", "finished")],
    );
    assert_eq!(app.todo_list.items.len(), 1);
    assert_eq!(app.todo_list.items[0].todo, "work");
    assert_eq!(app.history_list.items.len(), 1);
    assert_eq!(app.history_list.items[0].todo, "done");
}

#[test]
fn open_form_type_and_confirm_appends_to_active() {
    let mut app = App::new(vec![TodoItem::new(Status::Todo, "Buy milk", "")], Vec::new());
    press(&mut app, KeyCode::Char('a'));
    assert!(app.popup_mode);
    type_text(&mut app, "Call mom");
    press(&mut app, KeyCode::Tab);
    type_text(&mut app, "before 6pm");
    press(&mut app, KeyCode::Enter);
    assert!(!app.popup_mode);
    assert_eq!(app.todo_list.items.len(), 2);
    assert_eq!(app.todo_list.items[0].todo, "Buy milk");
    assert_eq!(app.todo_list.items[0].info, "");
    assert_eq!(app.todo_list.items[0].status, Status::Todo);
    assert_eq!(app.todo_list.items[1].todo, "Call mom");
    assert_eq!(app.todo_list.items[1].info, "before 6pm");
    assert_eq!(app.todo_list.items[1].status, Status::Todo);
}

#[test]
fn cancel_discards_the_entry_and_clears_the_form() {
    let mut app = App::new(vec![TodoItem::new(Status::Todo, "Buy milk", "")], Vec::new());
    press(&mut app, KeyCode::Char('a'));
    type_text(&mut app, "half an ent");
    press(&mut app, KeyCode::Esc);
    assert!(!app.popup_mode);
    assert_eq!(app.todo_list.items.len(), 1);
    assert_eq!(app.todo_form.name.value, "");
    press(&mut app, KeyCode::Char('a'));
    press(&mut app, KeyCode::Enter);
    assert_eq!(app.todo_list.items.len(), 2);
    assert_eq!(app.todo_list.items[1].todo, "");
}

#[test]
fn cycle_status_then_reconcile_moves_item_to_history() {
    let mut app = App::new(vec![TodoItem::new(Status::InProgress, "task", "info")], Vec::new());
    press(&mut app, KeyCode::Down);
    assert_eq!(app.todo_list.selected(), Some(0));
    press(&mut app, KeyCode::Char('l'));
    assert_eq!(app.todo_list.items[0].status, Status::Completed);
    press(&mut app, KeyCode::Char('f'));
    assert_eq!(app.todo_list.items.len(), 0);
    assert_eq!(app.history_list.items.len(), 1);
    assert_eq!(app.history_list.items[0].todo, "task");
    assert_eq!(app.history_list.items[0].status, Status::Completed);
    assert_eq!(app.todo_list.selected(), None);
    assert_eq!(app.history_list.selected(), None);
}

#[test]
fn cycling_three_times_restores_the_status() {
    let mut app = App::new(vec![TodoItem::new(Status::InProgress, "task", "")], Vec::new());
    press(&mut app, KeyCode::Down);
    press(&mut app, KeyCode::Char('l'));
    press(&mut app, KeyCode::Char('l'));
    press(&mut app, KeyCode::Char('l'));
    assert_eq!(app.todo_list.items[0].status, Status::InProgress);
}

#[test]
fn cycle_status_without_selection_is_a_no_op() {
    let mut app = App::new(vec![TodoItem::new(Status::Todo, "task", "")], Vec::new());
    press(&mut app, KeyCode::Char('l'));
    assert_eq!(app.todo_list.items[0].status, Status::Todo);
}

#[test]
fn reconcile_partitions_and_keeps_order() {
    let mut app = App::new(
        vec![
            TodoItem::new(Status::Todo, "a1", ""),
            TodoItem::new(Status::Completed, "a2", ""),
            TodoItem::new(Status::InProgress, "a3", ""),
        ],
        vec![
            TodoItem::new(Status::Completed, "h1", ""),
            TodoItem::new(Status::Todo, "h2", ""),
        ],
    );
    press(&mut app, KeyCode::Char('f'));
    let active: Vec<&str> = app.todo_list.items.iter().map(|t| t.todo.as_str()).collect();
    let history: Vec<&str> = app.history_list.items.iter().map(|t| t.todo.as_str()).collect();
    assert_eq!(active, vec!["h2", "a1", "a3"]);
    assert_eq!(history, vec!["h1", "a2"]);
    for t in &app.history_list.items {
        assert_eq!(t.status, Status::Completed);
    }
    for t in &app.todo_list.items {
        assert_ne!(t.status, Status::Completed);
    }
}

#[test]
fn second_reconcile_changes_nothing() {
    let mut app = App::new(
        vec![
            TodoItem::new(Status::Completed, "a1", ""),
            TodoItem::new(Status::Todo, "a2", ""),
        ],
        vec![TodoItem::new(Status::InProgress, "h1", "")],
    );
    press(&mut app, KeyCode::Char('f'));
    let active_once: Vec<String> = app.todo_list.items.iter().map(|t| t.todo.clone()).collect();
    let history_once: Vec<String> = app.history_list.items.iter().map(|t| t.todo.clone()).collect();
    press(&mut app, KeyCode::Char('f'));
    let active_twice: Vec<String> = app.todo_list.items.iter().map(|t| t.todo.clone()).collect();
    let history_twice: Vec<String> =
        app.history_list.items.iter().map(|t| t.todo.clone()).collect();
    assert_eq!(active_once, active_twice);
    assert_eq!(history_once, history_twice);
}

#[test]
fn switch_list_routes_navigation_to_history() {
    let mut app = App::new(
        vec![TodoItem::new(Status::Todo, "a", "")],
        vec![
            TodoItem::new(Status::Completed, "h1", ""),
            TodoItem::new(Status::Completed, "h2", ""),
        ],
    );
    press(&mut app, KeyCode::Char('w'));
    assert!(app.focus_history);
    press(&mut app, KeyCode::Down);
    assert_eq!(app.history_list.selected(), Some(0));
    assert_eq!(app.todo_list.selected(), None);
    press(&mut app, KeyCode::Char('G'));
    assert_eq!(app.history_list.selected(), Some(1));
    press(&mut app, KeyCode::Char('g'));
    assert_eq!(app.history_list.selected(), Some(0));
    press(&mut app, KeyCode::Char('h'));
    assert_eq!(app.history_list.selected(), None);
}

#[test]
fn quit_is_absorbing() {
    let mut app = App::new(vec![TodoItem::new(Status::Todo, "a", "")], Vec::new());
    press(&mut app, KeyCode::Char('q'));
    assert!(app.should_exit);
    press(&mut app, KeyCode::Down);
    assert_eq!(app.todo_list.selected(), None);
    press(&mut app, KeyCode::Char('a'));
    assert!(!app.popup_mode);
}

#[test]
fn escape_quits_in_normal_mode() {
    let mut app = App::new(vec![TodoItem::new(Status::Todo, "a", "")], Vec::new());
    press(&mut app, KeyCode::Esc);
    assert!(app.should_exit);
}

#[test]
fn releases_are_ignored() {
    let mut app = App::new(vec![TodoItem::new(Status::Todo, "a", "")], Vec::new());
    app.handle_key(KeyEvent { code: KeyCode::Char('q'), kind: KeyKind::Release });
    assert!(!app.should_exit);
    app.handle_key(KeyEvent { code: KeyCode::Down, kind: KeyKind::Release });
    assert_eq!(app.todo_list.selected(), None);
}

#[test]
fn unmapped_keys_do_nothing() {
    let mut app = App::new(vec![TodoItem::new(Status::Todo, "a", "")], Vec::new());
    press(&mut app, KeyCode::Char('z'));
    press(&mut app, KeyCode::Backspace);
    press(&mut app, KeyCode::Tab);
    assert!(!app.should_exit);
    assert!(!app.popup_mode);
    assert_eq!(app.todo_list.selected(), None);
    assert_eq!(app.todo_list.items.len(), 1);
}

#[test]
fn arrow_and_jump_keys_mirror_the_letters() {
    let mut app = App::new(
        vec![
            TodoItem::new(Status::Todo, "a1", ""),
            TodoItem::new(Status::Todo, "a2", ""),
            TodoItem::new(Status::Todo, "a3", ""),
        ],
        Vec::new(),
    );
    press(&mut app, KeyCode::Down);
    assert_eq!(app.todo_list.selected(), Some(0));
    press(&mut app, KeyCode::End);
    assert_eq!(app.todo_list.selected(), Some(2));
    press(&mut app, KeyCode::Up);
    assert_eq!(app.todo_list.selected(), Some(1));
    press(&mut app, KeyCode::Home);
    assert_eq!(app.todo_list.selected(), Some(0));
    press(&mut app, KeyCode::Right);
    assert_eq!(app.todo_list.items[0].status, Status::InProgress);
    press(&mut app, KeyCode::Left);
    assert_eq!(app.todo_list.selected(), None);
}
