//! The application controller: two selectable lists, one entry form, and the
//! dispatch of logical key events over them.

use vstd::prelude::*;

use crate::base::{cycle_status, cycled, Status, TaskView, TodoItem};
use crate::event::{KeyCode, KeyEvent, KeyKind};
use crate::form::{reset_form, form_step, FormAbs, TodoForm};
use crate::list::{
    first_cursor, last_cursor, next_cursor, prev_cursor, views_of, with_selected_status, ListAbs,
    TodoList,
};

verus! {

/// The logical commands of the normal (non-modal) mode. Callers map keys to
/// these; the tables below give the mapping the controller itself uses.
#[derive(Clone, Copy, Debug)]
pub enum Command {
    Quit,
    ClearSelection,
    Next,
    Previous,
    First,
    Last,
    CycleStatus,
    SwitchList,
    Reconcile,
    OpenForm,
}

/// Mathematical image of the whole application state.
#[verifier::ext_equal]
pub ghost struct AppAbs {
    pub should_exit: bool,
    pub focus_history: bool,
    pub active: ListAbs,
    pub history: ListAbs,
    pub form: FormAbs,
    pub popup: bool,
}

/// Whether a record counts as finished for the reconciliation sweep.
pub open spec fn is_completed(t: TaskView) -> bool {
    t.status == Status::Completed
}

/// The completed records of a sequence, in order.
pub open spec fn completed_of(s: Seq<TaskView>) -> Seq<TaskView> {
    s.filter(|t: TaskView| is_completed(t))
}

/// The records of a sequence not yet completed, in order.
pub open spec fn pending_of(s: Seq<TaskView>) -> Seq<TaskView> {
    s.filter(|t: TaskView| !is_completed(t))
}

/// After a reconciliation sweep the history holds every completed record:
/// those already in the history first, then those from the active list, each
/// group in its original order.
pub open spec fn reconciled_history(h: Seq<TaskView>, a: Seq<TaskView>) -> Seq<TaskView> {
    completed_of(h) + completed_of(a)
}

/// After a reconciliation sweep the active list holds every record not yet
/// completed, ordered like [`reconciled_history`].
pub open spec fn reconciled_active(h: Seq<TaskView>, a: Seq<TaskView>) -> Seq<TaskView> {
    pending_of(h) + pending_of(a)
}

/// The list that navigation and status keys currently act on.
pub open spec fn focused(s: AppAbs) -> ListAbs {
    if s.focus_history {
        s.history
    } else {
        s.active
    }
}

/// The state with the focused list replaced.
pub open spec fn with_focused(s: AppAbs, l: ListAbs) -> AppAbs {
    if s.focus_history {
        AppAbs { history: l, ..s }
    } else {
        AppAbs { active: l, ..s }
    }
}

/// The list with the status of the selected item advanced one step along the
/// cycle; the list itself when nothing is selected.
pub open spec fn cycle_selected(l: ListAbs) -> ListAbs {
    match l.cursor {
        None => l,
        Some(i) => with_selected_status(l, cycled(l.items[i].status)),
    }
}

/// Effect of one normal-mode command on the state.
pub open spec fn apply_command(s: AppAbs, cmd: Command) -> AppAbs {
    match cmd {
        Command::Quit => AppAbs { should_exit: true, ..s },
        Command::ClearSelection => with_focused(
            s,
            ListAbs { items: focused(s).items, cursor: None },
        ),
        Command::Next => with_focused(
            s,
            ListAbs {
                items: focused(s).items,
                cursor: next_cursor(focused(s).items.len() as int, focused(s).cursor),
            },
        ),
        Command::Previous => with_focused(
            s,
            ListAbs {
                items: focused(s).items,
                cursor: prev_cursor(focused(s).items.len() as int, focused(s).cursor),
            },
        ),
        Command::First => with_focused(
            s,
            ListAbs {
                items: focused(s).items,
                cursor: first_cursor(focused(s).items.len() as int),
            },
        ),
        Command::Last => with_focused(
            s,
            ListAbs {
                items: focused(s).items,
                cursor: last_cursor(focused(s).items.len() as int),
            },
        ),
        Command::CycleStatus => with_focused(s, cycle_selected(focused(s))),
        Command::SwitchList => AppAbs { focus_history: !s.focus_history, ..s },
        Command::Reconcile => AppAbs {
            active: ListAbs {
                items: reconciled_active(s.history.items, s.active.items),
                cursor: None,
            },
            history: ListAbs {
                items: reconciled_history(s.history.items, s.active.items),
                cursor: None,
            },
            ..s
        },
        Command::OpenForm => AppAbs { popup: true, ..s },
    }
}

/// Which command, if any, a key triggers in normal mode.
pub open spec fn normal_command(code: KeyCode) -> Option<Command> {
    match code {
        KeyCode::Esc => Some(Command::Quit),
        KeyCode::Left => Some(Command::ClearSelection),
        KeyCode::Down => Some(Command::Next),
        KeyCode::Up => Some(Command::Previous),
        KeyCode::Home => Some(Command::First),
        KeyCode::End => Some(Command::Last),
        KeyCode::Right => Some(Command::CycleStatus),
        KeyCode::Enter => Some(Command::CycleStatus),
        KeyCode::Char(c) => if c == 'q' {
            Some(Command::Quit)
        } else if c == 'h' {
            Some(Command::ClearSelection)
        } else if c == 'j' {
            Some(Command::Next)
        } else if c == 'k' {
            Some(Command::Previous)
        } else if c == 'g' {
            Some(Command::First)
        } else if c == 'G' {
            Some(Command::Last)
        } else if c == 'l' {
            Some(Command::CycleStatus)
        } else if c == 'w' {
            Some(Command::SwitchList)
        } else if c == 'f' {
            Some(Command::Reconcile)
        } else if c == 'a' {
            Some(Command::OpenForm)
        } else {
            None
        },
        _ => None,
    }
}

/// One key press in normal mode: the command it maps to, or nothing.
pub open spec fn normal_step(s: AppAbs, e: KeyEvent) -> AppAbs {
    match normal_command(e.code) {
        None => s,
        Some(cmd) => apply_command(s, cmd),
    }
}

/// One key press while the form is open. Escape discards the entry, enter
/// appends it to the active list; both close the form and reset it. Every
/// other key edits the form.
pub open spec fn modal_step(s: AppAbs, e: KeyEvent) -> AppAbs {
    match e.code {
        KeyCode::Esc => AppAbs { popup: false, form: reset_form(), ..s },
        KeyCode::Enter => AppAbs {
            popup: false,
            form: reset_form(),
            active: ListAbs {
                items: s.active.items.push(
                    TaskView { todo: s.form.name, info: s.form.description, status: Status::Todo },
                ),
                cursor: s.active.cursor,
            },
            ..s
        },
        _ => AppAbs { form: form_step(s.form, e), ..s },
    }
}

/// One logical key event, over the whole state machine. Once the controller
/// has decided to exit it accepts no further commands; releases are ignored;
/// otherwise the event goes to the form when the form is open and to the
/// normal-mode tables when it is not.
pub open spec fn step(s: AppAbs, e: KeyEvent) -> AppAbs {
    if s.should_exit || !(e.kind is Press) {
        s
    } else if s.popup {
        modal_step(s, e)
    } else {
        normal_step(s, e)
    }
}

/// The record the application seeds an empty store with.
pub open spec fn seed_task() -> TaskView {
    TaskView {
        todo: "Create a task"@,
        info: "Press 'a' to start writing a task"@,
        status: Status::Todo,
    }
}

/// The state the application starts in: nothing selected, form closed and
/// reset. An empty active store is replaced by a single seeded task and an
/// empty history.
pub open spec fn initial_state(todos: Seq<TaskView>, history: Seq<TaskView>) -> AppAbs {
    AppAbs {
        should_exit: false,
        focus_history: false,
        active: ListAbs {
            items: if todos.len() > 0 {
                todos
            } else {
                seq![seed_task()]
            },
            cursor: None,
        },
        history: ListAbs {
            items: if todos.len() > 0 {
                history
            } else {
                Seq::empty()
            },
            cursor: None,
        },
        form: reset_form(),
        popup: false,
    }
}

/// The whole application state.
#[derive(Debug)]
pub struct App {
    pub should_exit: bool,
    pub focus_history: bool,
    pub todo_list: TodoList,
    pub history_list: TodoList,
    pub todo_form: TodoForm,
    pub popup_mode: bool,
}

impl View for App {
    type V = AppAbs;

    open spec fn view(&self) -> AppAbs {
        AppAbs {
            should_exit: self.should_exit,
            focus_history: self.focus_history,
            active: self.todo_list@,
            history: self.history_list@,
            form: self.todo_form@,
            popup: self.popup_mode,
        }
    }
}

impl App {
    /// Both cursors address items, the form labels are intact, and whenever
    /// the form is closed it is reset.
    pub open spec fn wf(&self) -> bool {
        &&& self.todo_list.wf()
        &&& self.history_list.wf()
        &&& self.todo_form.wf()
        &&& (!self.popup_mode ==> self.todo_form@ == reset_form())
    }

    /// Builds the starting state from the two loaded stores.
    pub fn new(todos: Vec<TodoItem>, history: Vec<TodoItem>) -> (r: App)
        ensures
            r.wf(),
            r@ == initial_state(views_of(todos@), views_of(history@)),
    {
        if todos.len() > 0 {
            let r = App {
                should_exit: false,
                focus_history: false,
                todo_list: TodoList::from_items(todos),
                history_list: TodoList::from_items(history),
                todo_form: TodoForm::default(),
                popup_mode: false,
            };
            proof {
                assert(r@ =~= initial_state(views_of(todos@), views_of(history@)));
            }
            r
        } else {
            let seed = TodoItem::new(
                Status::Todo,
                "Create a task",
                "Press 'a' to start writing a task",
            );
            let mut seeded: Vec<TodoItem> = Vec::new();
            seeded.push(seed);
            let empty: Vec<TodoItem> = Vec::new();
            let r = App {
                should_exit: false,
                focus_history: false,
                todo_list: TodoList::from_items(seeded),
                history_list: TodoList::from_items(empty),
                todo_form: TodoForm::default(),
                popup_mode: false,
            };
            proof {
                assert(views_of(seeded@) =~= seq![seed_task()]);
                assert(views_of(empty@) =~= Seq::<TaskView>::empty());
                assert(r@ =~= initial_state(views_of(todos@), views_of(history@)));
            }
            r
        }
    }

    /// Clears the selection on the focused list.
    pub fn select_none(&mut self)
        requires
            old(self).wf(),
        ensures
            final(self).wf(),
            final(self)@ == apply_command(old(self)@, Command::ClearSelection),
    {
        if self.focus_history {
            self.history_list.select_none();
        } else {
            self.todo_list.select_none();
        }
    }

    /// Moves the selection on the focused list one step forward.
    pub fn select_next(&mut self)
        requires
            old(self).wf(),
        ensures
            final(self).wf(),
            final(self)@ == apply_command(old(self)@, Command::Next),
    {
        if self.focus_history {
            self.history_list.select_next();
        } else {
            self.todo_list.select_next();
        }
    }

    /// Moves the selection on the focused list one step back.
    pub fn select_previous(&mut self)
        requires
            old(self).wf(),
        ensures
            final(self).wf(),
            final(self)@ == apply_command(old(self)@, Command::Previous),
    {
        if self.focus_history {
            self.history_list.select_previous();
        } else {
            self.todo_list.select_previous();
        }
    }

    /// Puts the selection on the first item of the focused list.
    pub fn select_first(&mut self)
        requires
            old(self).wf(),
        ensures
            final(self).wf(),
            final(self)@ == apply_command(old(self)@, Command::First),
    {
        if self.focus_history {
            self.history_list.select_first();
        } else {
            self.todo_list.select_first();
        }
    }

    /// Puts the selection on the last item of the focused list.
    pub fn select_last(&mut self)
        requires
            old(self).wf(),
        ensures
            final(self).wf(),
            final(self)@ == apply_command(old(self)@, Command::Last),
    {
        if self.focus_history {
            self.history_list.select_last();
        } else {
            self.todo_list.select_last();
        }
    }

    /// Advances the status of the selected item of the focused list one step
    /// along the cycle; does nothing when nothing is selected.
    pub fn toggle_status(&mut self)
        requires
            old(self).wf(),
        ensures
            final(self).wf(),
            final(self)@ == apply_command(old(self)@, Command::CycleStatus),
    {
        if self.focus_history {
            match self.history_list.selected() {
                None => {},
                Some(i) => {
                    let st = self.history_list.items[i].status;
                    self.history_list.set_status(cycle_status(st));
                },
            }
        } else {
            match self.todo_list.selected() {
                None => {},
                Some(i) => {
                    let st = self.todo_list.items[i].status;
                    self.todo_list.set_status(cycle_status(st));
                },
            }
        }
    }

    /// Toggles which list receives navigation and status keys.
    pub fn switch_todo_history(&mut self)
        requires
            old(self).wf(),
        ensures
            final(self).wf(),
            final(self)@ == apply_command(old(self)@, Command::SwitchList),
    {
        self.focus_history = !self.focus_history;
    }

    /// The reconciliation sweep: rebuilds both lists so that the history
    /// holds exactly the completed records and the active list the rest,
    /// history items first, each group in its original order. Records move;
    /// none is duplicated or lost. Both selections are cleared, since the
    /// rebuild invalidates the old indices.
    pub fn flush_items(&mut self)
        requires
            old(self).wf(),
        ensures
            final(self).wf(),
            final(self)@ == apply_command(old(self)@, Command::Reconcile),
    {
        let mut h_items: Vec<TodoItem> = Vec::new();
        core::mem::swap(&mut h_items, &mut self.history_list.items);
        let mut a_items: Vec<TodoItem> = Vec::new();
        core::mem::swap(&mut a_items, &mut self.todo_list.items);
        let mut done: Vec<TodoItem> = Vec::new();
        let mut other: Vec<TodoItem> = Vec::new();
        partition_by_status(&mut h_items, &mut done, &mut other);
        partition_by_status(&mut a_items, &mut done, &mut other);
        self.history_list = TodoList { items: done, cursor: None };
        self.todo_list = TodoList { items: other, cursor: None };
        proof {
            assert(final(self)@ =~= apply_command(old(self)@, Command::Reconcile));
        }
    }

    /// Opens the entry form. The form is already reset: it is reset whenever
    /// it is closed.
    pub fn add_todo(&mut self)
        requires
            old(self).wf(),
            !old(self).popup_mode,
        ensures
            final(self).wf(),
            final(self)@ == apply_command(old(self)@, Command::OpenForm),
    {
        self.popup_mode = true;
    }

    /// Routes one logical key event: the whole transition of the state
    /// machine, as [`step`] states it.
    pub fn handle_key(&mut self, event: KeyEvent)
        requires
            old(self).wf(),
        ensures
            final(self).wf(),
            final(self)@ == step(old(self)@, event),
    {
        if self.should_exit {
            return ;
        }
        match event.kind {
            KeyKind::Release => {
                return ;
            },
            KeyKind::Press => {},
        }
        if self.popup_mode {
            match event.code {
                KeyCode::Esc => {
                    self.popup_mode = false;
                    let _ = self.todo_form.submit();
                },
                KeyCode::Enter => {
                    self.popup_mode = false;
                    let todo = self.todo_form.submit();
                    self.todo_list.items.push(todo);
                    proof {
                        assert(self@ =~= modal_step(old(self)@, event));
                    }
                },
                _ => {
                    self.todo_form.on_key_press(event);
                },
            }
        } else {
            match event.code {
                KeyCode::Esc => {
                    self.should_exit = true;
                },
                KeyCode::Left => self.select_none(),
                KeyCode::Down => self.select_next(),
                KeyCode::Up => self.select_previous(),
                KeyCode::Home => self.select_first(),
                KeyCode::End => self.select_last(),
                KeyCode::Right => self.toggle_status(),
                KeyCode::Enter => self.toggle_status(),
                KeyCode::Char(c) => {
                    if c == 'q' {
                        self.should_exit = true;
                    } else if c == 'h' {
                        self.select_none();
                    } else if c == 'j' {
                        self.select_next();
                    } else if c == 'k' {
                        self.select_previous();
                    } else if c == 'g' {
                        self.select_first();
                    } else if c == 'G' {
                        self.select_last();
                    } else if c == 'l' {
                        self.toggle_status();
                    } else if c == 'w' {
                        self.switch_todo_history();
                    } else if c == 'f' {
                        self.flush_items();
                    } else if c == 'a' {
                        self.add_todo();
                    }
                },
                _ => {},
            }
        }
    }
}

/// Empties `src` front to back, appending each completed record to `done`
/// and every other record to `other`.
fn partition_by_status(src: &mut Vec<TodoItem>, done: &mut Vec<TodoItem>, other: &mut Vec<TodoItem>)
    ensures
        final(src)@.len() == 0,
        views_of(final(done)@) == views_of(old(done)@) + completed_of(views_of(old(src)@)),
        views_of(final(other)@) == views_of(old(other)@) + pending_of(views_of(old(src)@)),
{
    let ghost orig = old(src)@;
    let ghost done0 = old(done)@;
    let ghost other0 = old(other)@;
    proof {
        reveal(Seq::filter);
        assert(src@ =~= orig.skip(orig.len() - src@.len()));
        assert(views_of(orig.take(orig.len() - src@.len())) =~= Seq::<TaskView>::empty());
        assert(views_of(done@) =~= views_of(done0) + completed_of(
            views_of(orig.take(orig.len() - src@.len())),
        ));
        assert(views_of(other@) =~= views_of(other0) + pending_of(
            views_of(orig.take(orig.len() - src@.len())),
        ));
    }
    while src.len() > 0
        invariant
            src@.len() <= orig.len(),
            src@ == orig.skip(orig.len() - src@.len()),
            views_of(done@) == views_of(done0) + completed_of(
                views_of(orig.take(orig.len() - src@.len())),
            ),
            views_of(other@) == views_of(other0) + pending_of(
                views_of(orig.take(orig.len() - src@.len())),
            ),
        decreases src@.len(),
    {
        let ghost k: int = orig.len() - src@.len();
        let ghost db = done@;
        let ghost ob = other@;
        let it = src.remove(0);
        proof {
            assert(orig.skip(k)[0] == orig[k]);
            assert(src@ =~= orig.skip(k + 1));
            assert(it == orig[k]);
            assert(views_of(orig.take(k + 1)) =~= views_of(orig.take(k as int)).push(it@));
            lemma_completed_of_push(views_of(orig.take(k as int)), it@);
            lemma_pending_of_push(views_of(orig.take(k as int)), it@);
        }
        let completed = match it.status {
            Status::Completed => true,
            _ => false,
        };
        if completed {
            done.push(it);
            proof {
                assert(orig.len() - src@.len() == k + 1);
                assert(is_completed(orig[k]@));
                assert(completed_of(views_of(orig.take(k + 1))) == completed_of(
                    views_of(orig.take(k)),
                ).push(orig[k]@));
                assert(pending_of(views_of(orig.take(k + 1))) == pending_of(views_of(orig.take(k))));
                assert(done@ == db.push(orig[k]));
                assert(views_of(db.push(orig[k])) =~= views_of(db).push(orig[k]@));
                assert(views_of(db) == views_of(done0) + completed_of(views_of(orig.take(k))));
                assert((views_of(done0) + completed_of(views_of(orig.take(k)))).push(orig[k]@)
                    =~= views_of(done0) + completed_of(views_of(orig.take(k))).push(orig[k]@));
                assert(views_of(done@) == views_of(done0) + completed_of(
                    views_of(orig.take(k + 1)),
                ));
            }
        } else {
            other.push(it);
            proof {
                assert(orig.len() - src@.len() == k + 1);
                assert(!is_completed(orig[k]@));
                assert(pending_of(views_of(orig.take(k + 1))) == pending_of(
                    views_of(orig.take(k)),
                ).push(orig[k]@));
                assert(completed_of(views_of(orig.take(k + 1))) == completed_of(
                    views_of(orig.take(k)),
                ));
                assert(other@ == ob.push(orig[k]));
                assert(views_of(ob.push(orig[k])) =~= views_of(ob).push(orig[k]@));
                assert(views_of(ob) == views_of(other0) + pending_of(views_of(orig.take(k))));
                assert((views_of(other0) + pending_of(views_of(orig.take(k)))).push(orig[k]@)
                    =~= views_of(other0) + pending_of(views_of(orig.take(k))).push(orig[k]@));
                assert(views_of(other@) == views_of(other0) + pending_of(
                    views_of(orig.take(k + 1)),
                ));
            }
        }
    }
    proof {
        assert(orig.take(orig.len() as int) =~= orig);
    }
}

/// Appending one record to a sequence appends it to the completed part
/// exactly when it is completed.
pub proof fn lemma_completed_of_push(s: Seq<TaskView>, x: TaskView)
    ensures
        completed_of(s.push(x)) == if is_completed(x) {
            completed_of(s).push(x)
        } else {
            completed_of(s)
        },
{
    reveal(Seq::filter);
    assert(s.push(x).drop_last() =~= s);
}

/// Appending one record to a sequence appends it to the pending part exactly
/// when it is not completed.
pub proof fn lemma_pending_of_push(s: Seq<TaskView>, x: TaskView)
    ensures
        pending_of(s.push(x)) == if !is_completed(x) {
            pending_of(s).push(x)
        } else {
            pending_of(s)
        },
{
    reveal(Seq::filter);
    assert(s.push(x).drop_last() =~= s);
}

/// Every record that the completed part keeps is indeed completed, and every
/// record of the pending part is not.
proof fn lemma_parts_sound(s: Seq<TaskView>)
    ensures
        forall|i: int|
            0 <= i < completed_of(s).len() ==> is_completed(#[trigger] completed_of(s)[i]),
        forall|i: int|
            0 <= i < pending_of(s).len() ==> !is_completed(#[trigger] pending_of(s)[i]),
{
    assert forall|i: int| 0 <= i < completed_of(s).len() implies is_completed(
        completed_of(s)[i],
    ) by {
        s.lemma_filter_pred(|t: TaskView| is_completed(t), i);
    };
    assert forall|i: int| 0 <= i < pending_of(s).len() implies !is_completed(
        pending_of(s)[i],
    ) by {
        s.lemma_filter_pred(|t: TaskView| !is_completed(t), i);
    };
}

/// Splitting a sequence into its completed and pending parts is idempotent:
/// the completed part is all completed and the pending part all pending.
proof fn lemma_parts_idempotent(s: Seq<TaskView>)
    ensures
        completed_of(completed_of(s)) == completed_of(s),
        pending_of(completed_of(s)) == Seq::<TaskView>::empty(),
        pending_of(pending_of(s)) == pending_of(s),
        completed_of(pending_of(s)) == Seq::<TaskView>::empty(),
    decreases s.len(),
{
    reveal(Seq::filter);
    if s.len() == 0 {
        assert(completed_of(s) =~= Seq::<TaskView>::empty());
        assert(pending_of(s) =~= Seq::<TaskView>::empty());
    } else {
        lemma_parts_idempotent(s.drop_last());
        let x = s.last();
        if is_completed(x) {
            assert(completed_of(s) == completed_of(s.drop_last()).push(x));
            assert(pending_of(s) == pending_of(s.drop_last()));
            lemma_completed_of_push(completed_of(s.drop_last()), x);
            lemma_pending_of_push(completed_of(s.drop_last()), x);
        } else {
            assert(pending_of(s) == pending_of(s.drop_last()).push(x));
            assert(completed_of(s) == completed_of(s.drop_last()));
            lemma_completed_of_push(pending_of(s.drop_last()), x);
            lemma_pending_of_push(pending_of(s.drop_last()), x);
        }
    }
}

/// Advancing the status with nothing selected changes nothing.
pub proof fn lemma_cycle_without_selection(l: ListAbs)
    requires
        l.cursor is None,
    ensures
        cycle_selected(l) == l,
{
}

/// One reconciliation sweep partitions fully, and a second one changes
/// nothing: every record of the new history is completed, no record of the
/// new active list is, and reconciling the two resulting lists again returns
/// both exactly as they are.
pub proof fn lemma_reconcile_idempotent(h: Seq<TaskView>, a: Seq<TaskView>)
    ensures
        forall|i: int|
            0 <= i < reconciled_history(h, a).len() ==> is_completed(
                #[trigger] reconciled_history(h, a)[i],
            ),
        forall|i: int|
            0 <= i < reconciled_active(h, a).len() ==> !is_completed(
                #[trigger] reconciled_active(h, a)[i],
            ),
        reconciled_history(reconciled_history(h, a), reconciled_active(h, a))
            == reconciled_history(h, a),
        reconciled_active(reconciled_history(h, a), reconciled_active(h, a))
            == reconciled_active(h, a),
{
    lemma_parts_sound(h);
    lemma_parts_sound(a);
    lemma_parts_idempotent(h);
    lemma_parts_idempotent(a);
    let rh = reconciled_history(h, a);
    let ra = reconciled_active(h, a);
    assert forall|i: int| 0 <= i < rh.len() implies is_completed(rh[i]) by {
        if i < completed_of(h).len() {
            assert(rh[i] == completed_of(h)[i]);
        } else {
            assert(rh[i] == completed_of(a)[i - completed_of(h).len()]);
        }
    };
    assert forall|i: int| 0 <= i < ra.len() implies !is_completed(ra[i]) by {
        if i < pending_of(h).len() {
            assert(ra[i] == pending_of(h)[i]);
        } else {
            assert(ra[i] == pending_of(a)[i - pending_of(h).len()]);
        }
    };
    Seq::filter_distributes_over_add(completed_of(h), completed_of(a), |t: TaskView| is_completed(t));
    Seq::filter_distributes_over_add(pending_of(h), pending_of(a), |t: TaskView| is_completed(t));
    Seq::filter_distributes_over_add(completed_of(h), completed_of(a), |t: TaskView| !is_completed(t));
    Seq::filter_distributes_over_add(pending_of(h), pending_of(a), |t: TaskView| !is_completed(t));
    assert(completed_of(rh) == completed_of(h) + completed_of(a));
    assert(completed_of(ra) =~= Seq::<TaskView>::empty());
    assert(pending_of(rh) =~= Seq::<TaskView>::empty());
    assert(pending_of(ra) == pending_of(h) + pending_of(a));
    assert(reconciled_history(rh, ra) =~= rh);
    assert(reconciled_active(rh, ra) =~= ra);
}

} // verus!

