use todo_list::base::Status;
use todo_list::event::{KeyCode, KeyEvent, KeyKind};
use todo_list::form::{Focus, StringField, TodoForm};

fn press(code: KeyCode) -> KeyEvent {
    KeyEvent::press(code)
}

fn type_text(form: &mut TodoForm, text: &str) {
    for c in text.chars() {
        form.on_key_press(press(KeyCode::Char(c)));
    }
}

#[test]
fn focus_round_robins_over_two_fields() {
    assert_eq!(Focus::Name.next(), Focus::Description);
    assert_eq!(Focus::Description.next(), Focus::Name);
    assert_eq!(Focus::Name.next().next(), Focus::Name);
}

#[test]
fn default_form_is_reset() {
    let form = TodoForm::default();
    assert_eq!(form.focus, Focus::Name);
    assert_eq!(form.name.value, "");
    assert_eq!(form.description.value, "");
    assert_eq!(form.name.label, "Name");
    assert_eq!(form.description.label, "Description");
}

#[test]
fn string_field_appends_and_deletes() {
    let mut f = StringField::new("Name");
    f.on_key_press(press(KeyCode::Char('h')));
    f.on_key_press(press(KeyCode::Char('i')));
    assert_eq!(f.value, "hi");
    f.on_key_press(press(KeyCode::Backspace));
    assert_eq!(f.value, "h");
    f.on_key_press(press(KeyCode::Up));
    assert_eq!(f.value, "h");
}

#[test]
fn backspace_on_empty_buffer_is_a_no_op() {
    let mut f = StringField::new("Name");
    f.on_key_press(press(KeyCode::Backspace));
    assert_eq!(f.value, "");
}

#[test]
fn tab_moves_typing_to_description() {
    let mut form = TodoForm::default();
    type_text(&mut form, "ab");
    form.on_key_press(press(KeyCode::Tab));
    type_text(&mut form, "cd");
    assert_eq!(form.name.value, "ab");
    assert_eq!(form.description.value, "cd");
    form.on_key_press(press(KeyCode::Tab));
    type_text(&mut form, "e");
    assert_eq!(form.name.value, "abe");
}

#[test]
fn releases_do_not_edit_the_form() {
    let mut form = TodoForm::default();
    form.on_key_press(KeyEvent { code: KeyCode::Char('x'), kind: KeyKind::Release });
    form.on_key_press(KeyEvent { code: KeyCode::Tab, kind: KeyKind::Release });
    assert_eq!(form.name.value, "");
    assert_eq!(form.focus, Focus::Name);
}

#[test]
fn submit_returns_todo_record_and_resets() {
    let mut form = TodoForm::default();
    type_text(&mut form, "Call mom");
    form.on_key_press(press(KeyCode::Tab));
    type_text(&mut form, "before 6pm");
    let record = form.submit();
    assert_eq!(record.todo, "Call mom");
    assert_eq!(record.info, "before 6pm");
    assert_eq!(record.status, Status::Todo);
    assert_eq!(form.name.value, "");
    assert_eq!(form.description.value, "");
    assert_eq!(form.focus, Focus::Name);
}

#[test]
fn submit_on_empty_form_yields_empty_strings() {
    let mut form = TodoForm::default();
    let record = form.submit();
    assert_eq!(record.todo, "");
    assert_eq!(record.info, "");
    assert_eq!(record.status, Status::Todo);
}
