//! The modal entry form: two labelled text fields and a focus that
//! round-robins between them.

use vstd::prelude::*;

use crate::base::{Status, TaskView, TodoItem};
use crate::event::{KeyCode, KeyEvent, KeyKind};
use crate::text::{pop_char, push_char};

verus! {

/// Which of the two fields currently receives text.
#[derive(Clone, Copy, Debug, PartialEq, Eq, Structural)]
pub enum Focus {
    Name,
    Description,
}

/// The focus after one advance: the other field, there being exactly two.
pub open spec fn next_focus(f: Focus) -> Focus {
    match f {
        Focus::Name => Focus::Description,
        Focus::Description => Focus::Name,
    }
}

impl Focus {
    /// Round-robin focus order over the two fields.
    pub fn next(&self) -> (r: Self)
        ensures
            r == next_focus(*self),
    {
        match self {
            Self::Name => Self::Description,
            Self::Description => Self::Name,
        }
    }
}

impl Default for Focus {
    fn default() -> (r: Self)
        ensures
            r == Focus::Name,
    {
        Focus::Name
    }
}

/// A text buffer edited one character at a time: a press of a printable
/// character appends it, a press of backspace removes the last character (and
/// does nothing on an empty buffer), every other key leaves the buffer alone.
pub open spec fn edited(buf: Seq<char>, e: KeyEvent) -> Seq<char> {
    match e.code {
        KeyCode::Char(c) => buf.push(c),
        KeyCode::Backspace => if buf.len() == 0 {
            buf
        } else {
            buf.drop_last()
        },
        _ => buf,
    }
}

/// A string field with a label.
#[derive(Debug)]
pub struct StringField {
    pub label: String,
    pub value: String,
}

impl StringField {
    /// An empty field under the given label.
    pub fn new(label: &str) -> (r: Self)
        ensures
            r.label@ == label@,
            r.value@ == Seq::<char>::empty(),
    {
        Self { label: label.to_owned(), value: String::new() }
    }

    /// Applies one key event to the buffer, as [`edited`] describes.
    pub fn on_key_press(&mut self, event: KeyEvent)
        ensures
            final(self).value@ == edited(old(self).value@, event),
            final(self).label == old(self).label,
    {
        match event.code {
            KeyCode::Char(c) => push_char(&mut self.value, c),
            KeyCode::Backspace => {
                let _ = pop_char(&mut self.value);
            },
            _ => {},
        }
    }
}

/// Mathematical image of the form: the focus and both buffers.
#[verifier::ext_equal]
pub ghost struct FormAbs {
    pub focus: Focus,
    pub name: Seq<char>,
    pub description: Seq<char>,
}

/// The form as it stands when freshly opened or just submitted: both buffers
/// empty and the focus on the name field.
pub open spec fn reset_form() -> FormAbs {
    FormAbs { focus: Focus::Name, name: Seq::empty(), description: Seq::empty() }
}

/// The form after one key press: tab advances the focus, anything else is
/// routed to the focused field. Releases change nothing.
pub open spec fn form_step(f: FormAbs, e: KeyEvent) -> FormAbs {
    if !(e.kind is Press) {
        f
    } else {
        match e.code {
            KeyCode::Tab => FormAbs { focus: next_focus(f.focus), ..f },
            _ => match f.focus {
                Focus::Name => FormAbs { name: edited(f.name, e), ..f },
                Focus::Description => FormAbs { description: edited(f.description, e), ..f },
            },
        }
    }
}

/// The entry form collecting a name and a description for a new task.
#[derive(Debug)]
pub struct TodoForm {
    pub focus: Focus,
    pub name: StringField,
    pub description: StringField,
}

impl View for TodoForm {
    type V = FormAbs;

    open spec fn view(&self) -> FormAbs {
        FormAbs { focus: self.focus, name: self.name.value@, description: self.description.value@ }
    }
}

impl TodoForm {
    /// The labels never change; everything else about the form does.
    pub open spec fn wf(&self) -> bool {
        self.name.label@ == "Name"@ && self.description.label@ == "Description"@
    }

    /// Handles focus navigation or passes the event to the focused field.
    pub fn on_key_press(&mut self, event: KeyEvent)
        ensures
            final(self)@ == form_step(old(self)@, event),
            final(self).wf() == old(self).wf(),
    {
        match event.kind {
            KeyKind::Release => {},
            KeyKind::Press => {
                match event.code {
                    KeyCode::Tab => {
                        self.focus = self.focus.next();
                    },
                    _ => {
                        match self.focus {
                            Focus::Name => self.name.on_key_press(event),
                            Focus::Description => self.description.on_key_press(event),
                        }
                    },
                }
            },
        }
    }

    /// Produces the new task record, with status `Todo`, from the two
    /// buffers, then clears both buffers and puts the focus back on the name
    /// field. The caller decides whether to keep or discard the record.
    pub fn submit(&mut self) -> (r: TodoItem)
        ensures
            r@ == (TaskView {
                todo: old(self)@.name,
                info: old(self)@.description,
                status: Status::Todo,
            }),
            final(self)@ == reset_form(),
            final(self).wf() == old(self).wf(),
    {
        let mut todo = String::new();
        core::mem::swap(&mut todo, &mut self.name.value);
        let mut info = String::new();
        core::mem::swap(&mut info, &mut self.description.value);
        self.focus = Focus::Name;
        TodoItem { todo, info, status: Status::Todo }
    }
}

impl Default for TodoForm {
    /// An empty form: both fields blank, focus on the name field.
    fn default() -> (r: Self)
        ensures
            r@ == reset_form(),
            r.wf(),
    {
        Self {
            focus: Focus::Name,
            name: StringField::new("Name"),
            description: StringField::new("Description"),
        }
    }
}

} // verus!
