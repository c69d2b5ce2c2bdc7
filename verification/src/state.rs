//! The interaction state machine: the current mode, the selection, the input
//! buffer and the stored test command, together with the router that maps one
//! key to one atomic transition and the side effect the caller must perform.

use vstd::prelude::*;
use vstd::pervasive::VecAdditionalExecFns;
use crate::task::Status;
use crate::task::Task;
use crate::task::TaskView;
use crate::task::cycled;
use crate::task::views_of;
use crate::task::lemma_views_of_push;
use crate::task::lemma_views_of_update;
use crate::task::lemma_views_of_remove;
use crate::text::all_space;
use crate::text::push_char;
use crate::text::pop_char;
use crate::store::heading;
use crate::store::render_tasks;
use crate::store::section;
use crate::store::status_marker;
use crate::store::task_line;
use crate::store::has_status;
use crate::store::lemma_section_contains;
use crate::store::lemma_render_contains_section;

verus! {

/// The interaction mode: browsing the list, or typing into one of the three
/// input prompts.
#[derive(Clone, Copy, Debug, PartialEq, Eq, Structural)]
pub enum Mode {
    View,
    AddInput,
    EditInput,
    SetTestCommand,
}

/// One key event, as the router understands it; anything else is `Other`
/// and has no effect.
#[derive(Clone, Copy, Debug, PartialEq, Eq, Structural)]
pub enum Key {
    Char(char),
    Enter,
    Esc,
    Backspace,
    Up,
    Down,
    Other,
}

/// What the caller must do after a transition: nothing, quit, persist the
/// list, export it, run the test-and-commit action, or surface a warning
/// about a rejected empty description.
#[derive(Clone, Copy, Debug, PartialEq, Eq, Structural)]
pub enum Effect {
    Quiet,
    Quit,
    Save,
    Export,
    RunTcr,
    WarnEmptyAdd,
    WarnEmptyEdit,
}

/// The mathematical shape of the interaction state.
#[verifier::ext_equal]
pub ghost struct StateView {
    pub tasks: Seq<TaskView>,
    pub selected: int,
    pub mode: Mode,
    pub input: Seq<char>,
    pub test_command: Seq<char>,
}

impl StateView {
    /// The selection invariant: the selected index lies inside the list, and
    /// is zero when the list is empty.
    pub open spec fn wf(self) -> bool {
        &&& 0 <= self.selected
        &&& self.tasks.len() == 0 ==> self.selected == 0
        &&& self.tasks.len() > 0 ==> self.selected < self.tasks.len()
    }
}

/// `pre` with another mode and input buffer, everything else unchanged.
pub open spec fn with_mode_input(pre: StateView, mode: Mode, input: Seq<char>) -> StateView {
    StateView {
        tasks: pre.tasks,
        selected: pre.selected,
        mode: mode,
        input: input,
        test_command: pre.test_command,
    }
}

/// Move the selection one step down, clamped to the last index.
pub open spec fn move_down(pre: StateView) -> StateView {
    if pre.selected + 1 < pre.tasks.len() {
        StateView {
            tasks: pre.tasks,
            selected: pre.selected + 1,
            mode: pre.mode,
            input: pre.input,
            test_command: pre.test_command,
        }
    } else {
        pre
    }
}

/// Move the selection one step up, clamped to zero.
pub open spec fn move_up(pre: StateView) -> StateView {
    if pre.selected > 0 {
        StateView {
            tasks: pre.tasks,
            selected: pre.selected - 1,
            mode: pre.mode,
            input: pre.input,
            test_command: pre.test_command,
        }
    } else {
        pre
    }
}

/// Remove the selected task; the selection moves down by one only when it
/// sat on the last index.
pub open spec fn delete_selected(pre: StateView) -> (StateView, Effect) {
    if 0 <= pre.selected < pre.tasks.len() {
        let selected = if pre.selected == pre.tasks.len() - 1 && pre.selected > 0 {
            pre.selected - 1
        } else {
            pre.selected
        };
        (
            StateView {
                tasks: pre.tasks.remove(pre.selected),
                selected: selected,
                mode: pre.mode,
                input: pre.input,
                test_command: pre.test_command,
            },
            Effect::Save,
        )
    } else {
        (pre, Effect::Quiet)
    }
}

/// Cycle the selected task's status one step.
pub open spec fn toggle_selected(pre: StateView) -> (StateView, Effect) {
    if 0 <= pre.selected < pre.tasks.len() {
        let t = pre.tasks[pre.selected];
        (
            StateView {
                tasks: pre.tasks.update(
                    pre.selected,
                    TaskView { description: t.description, status: cycled(t.status) },
                ),
                selected: pre.selected,
                mode: pre.mode,
                input: pre.input,
                test_command: pre.test_command,
            },
            Effect::Save,
        )
    } else {
        (pre, Effect::Quiet)
    }
}

/// The transition for a key in View mode.
pub open spec fn step_view(pre: StateView, key: Key) -> (StateView, Effect) {
    match key {
        Key::Char(c) => {
            if c == 'q' {
                (pre, Effect::Quit)
            } else if c == 'j' {
                (move_down(pre), Effect::Quiet)
            } else if c == 'k' {
                (move_up(pre), Effect::Quiet)
            } else if c == 'd' {
                delete_selected(pre)
            } else if c == 'a' {
                (with_mode_input(pre, Mode::AddInput, Seq::empty()), Effect::Quiet)
            } else if c == 'e' {
                if 0 <= pre.selected < pre.tasks.len() {
                    (
                        with_mode_input(
                            pre,
                            Mode::EditInput,
                            pre.tasks[pre.selected].description,
                        ),
                        Effect::Quiet,
                    )
                } else {
                    (pre, Effect::Quiet)
                }
            } else if c == 'T' {
                (with_mode_input(pre, Mode::SetTestCommand, pre.test_command), Effect::Quiet)
            } else if c == 't' {
                (pre, Effect::RunTcr)
            } else if c == 'E' {
                (pre, Effect::Export)
            } else {
                (pre, Effect::Quiet)
            }
        },
        Key::Down => (move_down(pre), Effect::Quiet),
        Key::Up => (move_up(pre), Effect::Quiet),
        Key::Enter => toggle_selected(pre),
        _ => (pre, Effect::Quiet),
    }
}

/// The transition for a key while typing a new task's description.
pub open spec fn step_add(pre: StateView, key: Key) -> (StateView, Effect) {
    match key {
        Key::Enter => {
            if all_space(pre.input) {
                (with_mode_input(pre, Mode::View, Seq::empty()), Effect::WarnEmptyAdd)
            } else {
                (
                    StateView {
                        tasks: pre.tasks.push(
                            TaskView { description: pre.input, status: Status::Pending },
                        ),
                        selected: pre.selected,
                        mode: Mode::View,
                        input: Seq::empty(),
                        test_command: pre.test_command,
                    },
                    Effect::Save,
                )
            }
        },
        Key::Esc => (with_mode_input(pre, Mode::View, Seq::empty()), Effect::Quiet),
        Key::Char(c) => (with_mode_input(pre, pre.mode, pre.input.push(c)), Effect::Quiet),
        Key::Backspace => (
            with_mode_input(
                pre,
                pre.mode,
                if pre.input.len() > 0 {
                    pre.input.drop_last()
                } else {
                    pre.input
                },
            ),
            Effect::Quiet,
        ),
        _ => (pre, Effect::Quiet),
    }
}

/// The transition for a key while editing the selected task's description.
pub open spec fn step_edit(pre: StateView, key: Key) -> (StateView, Effect) {
    match key {
        Key::Enter => {
            if 0 <= pre.selected < pre.tasks.len() {
                if all_space(pre.input) {
                    (with_mode_input(pre, Mode::View, Seq::empty()), Effect::WarnEmptyEdit)
                } else {
                    (
                        StateView {
                            tasks: pre.tasks.update(
                                pre.selected,
                                TaskView { description: pre.input, status: Status::Pending },
                            ),
                            selected: pre.selected,
                            mode: Mode::View,
                            input: Seq::empty(),
                            test_command: pre.test_command,
                        },
                        Effect::Save,
                    )
                }
            } else {
                (pre, Effect::Quiet)
            }
        },
        Key::Esc => (with_mode_input(pre, Mode::View, Seq::empty()), Effect::Quiet),
        Key::Char(c) => (with_mode_input(pre, pre.mode, pre.input.push(c)), Effect::Quiet),
        Key::Backspace => (
            with_mode_input(
                pre,
                pre.mode,
                if pre.input.len() > 0 {
                    pre.input.drop_last()
                } else {
                    pre.input
                },
            ),
            Effect::Quiet,
        ),
        _ => (pre, Effect::Quiet),
    }
}

/// The transition for a key while typing the test command; any text,
/// whitespace included, is accepted verbatim.
pub open spec fn step_set_command(pre: StateView, key: Key) -> (StateView, Effect) {
    match key {
        Key::Enter => (
            StateView {
                tasks: pre.tasks,
                selected: pre.selected,
                mode: Mode::View,
                input: Seq::empty(),
                test_command: pre.input,
            },
            Effect::Quiet,
        ),
        Key::Esc => (with_mode_input(pre, Mode::View, Seq::empty()), Effect::Quiet),
        Key::Char(c) => (with_mode_input(pre, pre.mode, pre.input.push(c)), Effect::Quiet),
        Key::Backspace => (
            with_mode_input(
                pre,
                pre.mode,
                if pre.input.len() > 0 {
                    pre.input.drop_last()
                } else {
                    pre.input
                },
            ),
            Effect::Quiet,
        ),
        _ => (pre, Effect::Quiet),
    }
}

/// The router: one key maps to one atomic transition of the interaction
/// state, depending on the current mode.
pub open spec fn step(pre: StateView, key: Key) -> (StateView, Effect) {
    match pre.mode {
        Mode::View => step_view(pre, key),
        Mode::AddInput => step_add(pre, key),
        Mode::EditInput => step_edit(pre, key),
        Mode::SetTestCommand => step_set_command(pre, key),
    }
}

/// Any sequence of transitions keeps the selection inside the list, and at
/// zero when the list is empty: one step from a well-formed state is
/// well-formed again.
pub proof fn lemma_step_preserves_wf(pre: StateView, key: Key)
    requires
        pre.wf(),
    ensures
        step(pre, key).0.wf(),
{
}

/// An empty or whitespace-only input in the add or edit prompt never changes
/// the task list, whatever key arrives: confirming it is rejected with a
/// warning, and every other key leaves the list alone.
pub proof fn lemma_blank_input_changes_no_tasks(pre: StateView, key: Key)
    requires
        pre.mode == Mode::AddInput || pre.mode == Mode::EditInput,
        all_space(pre.input),
    ensures
        step(pre, key).0.tasks == pre.tasks,
{
}

/// The whole interaction state: the task list, the selection, the mode, the
/// input buffer and the stored test command.
pub struct AppState {
    pub tasks: Vec<Task>,
    pub selected: usize,
    pub mode: Mode,
    pub input: String,
    pub test_command: String,
}

impl View for AppState {
    type V = StateView;

    open spec fn view(&self) -> StateView {
        StateView {
            tasks: views_of(self.tasks@),
            selected: self.selected as int,
            mode: self.mode,
            input: self.input@,
            test_command: self.test_command@,
        }
    }
}

impl AppState {
    /// The state at startup: the loaded tasks, the given test command, View
    /// mode, an empty input buffer, and the selection at the top.
    pub fn new(tasks: Vec<Task>, test_command: String) -> (r: AppState)
        ensures
            r@ == (StateView {
                tasks: views_of(tasks@),
                selected: 0,
                mode: Mode::View,
                input: Seq::empty(),
                test_command: test_command@,
            }),
            r@.wf(),
    {
        let r = AppState {
            tasks,
            selected: 0,
            mode: Mode::View,
            input: String::new(),
            test_command,
        };
        proof {
            assert(r@.input =~= Seq::<char>::empty());
        }
        r
    }

    /// Route one key event: apply the transition the current mode prescribes
    /// and hand back the side effect the caller must perform.
    pub fn handle_key(&mut self, key: Key) -> (e: Effect)
        requires
            old(self)@.wf(),
        ensures
            final(self)@ == step(old(self)@, key).0,
            e == step(old(self)@, key).1,
            final(self)@.wf(),
    {
        proof {
            lemma_step_preserves_wf(old(self)@, key);
        }
        match self.mode {
            Mode::View => self.handle_view_key(key),
            Mode::AddInput => self.handle_add_key(key),
            Mode::EditInput => self.handle_edit_key(key),
            Mode::SetTestCommand => self.handle_set_command_key(key),
        }
    }

    fn handle_view_key(&mut self, key: Key) -> (e: Effect)
        requires
            old(self)@.wf(),
            old(self)@.mode == Mode::View,
        ensures
            final(self)@ == step_view(old(self)@, key).0,
            e == step_view(old(self)@, key).1,
    {
        match key {
            Key::Char(c) => {
                if c == 'q' {
                    Effect::Quit
                } else if c == 'j' {
                    self.select_down();
                    Effect::Quiet
                } else if c == 'k' {
                    self.select_up();
                    Effect::Quiet
                } else if c == 'd' {
                    self.delete_selected_task()
                } else if c == 'a' {
                    self.input = String::new();
                    self.mode = Mode::AddInput;
                    proof {
                        assert(self@ =~~= with_mode_input(
                            old(self)@,
                            Mode::AddInput,
                            Seq::empty(),
                        ));
                    }
                    Effect::Quiet
                } else if c == 'e' {
                    if self.selected < self.tasks.len() {
                        self.input = self.tasks[self.selected].description.clone();
                        self.mode = Mode::EditInput;
                        proof {
                            assert(self@ =~~= step_view(old(self)@, key).0);
                        }
                    }
                    Effect::Quiet
                } else if c == 'T' {
                    self.input = self.test_command.clone();
                    self.mode = Mode::SetTestCommand;
                    proof {
                        assert(self@ =~~= step_view(old(self)@, key).0);
                    }
                    Effect::Quiet
                } else if c == 't' {
                    Effect::RunTcr
                } else if c == 'E' {
                    Effect::Export
                } else {
                    Effect::Quiet
                }
            },
            Key::Down => {
                self.select_down();
                Effect::Quiet
            },
            Key::Up => {
                self.select_up();
                Effect::Quiet
            },
            Key::Enter => self.toggle_selected_task(),
            _ => Effect::Quiet,
        }
    }

    fn select_down(&mut self)
        requires
            old(self)@.wf(),
        ensures
            final(self)@ == move_down(old(self)@),
    {
        if self.tasks.len() > 0 && self.selected < self.tasks.len() - 1 {
            self.selected = self.selected + 1;
        }
    }

    fn select_up(&mut self)
        ensures
            final(self)@ == move_up(old(self)@),
    {
        if self.selected > 0 {
            self.selected = self.selected - 1;
        }
    }

    fn delete_selected_task(&mut self) -> (e: Effect)
        requires
            old(self)@.wf(),
        ensures
            final(self)@ == delete_selected(old(self)@).0,
            e == delete_selected(old(self)@).1,
    {
        if self.tasks.len() > 0 {
            let was_last = self.selected == self.tasks.len() - 1;
            proof {
                lemma_views_of_remove(self.tasks@, self.selected as int);
            }
            self.tasks.remove(self.selected);
            if was_last && self.selected > 0 {
                self.selected = self.selected - 1;
            }
            proof {
                assert(self@ =~~= delete_selected(old(self)@).0);
            }
            Effect::Save
        } else {
            Effect::Quiet
        }
    }

    fn toggle_selected_task(&mut self) -> (e: Effect)
        requires
            old(self)@.wf(),
        ensures
            final(self)@ == toggle_selected(old(self)@).0,
            e == toggle_selected(old(self)@).1,
    {
        if self.selected < self.tasks.len() {
            let description = self.tasks[self.selected].description.clone();
            let status = self.tasks[self.selected].status.cycle();
            proof {
                lemma_views_of_update(
                    self.tasks@,
                    self.selected as int,
                    Task { description, status },
                );
            }
            self.tasks.set(self.selected, Task { description, status });
            proof {
                assert(self@ =~~= toggle_selected(old(self)@).0);
            }
            Effect::Save
        } else {
            Effect::Quiet
        }
    }

    fn handle_add_key(&mut self, key: Key) -> (e: Effect)
        requires
            old(self)@.mode == Mode::AddInput,
        ensures
            final(self)@ == step_add(old(self)@, key).0,
            e == step_add(old(self)@, key).1,
    {
        match key {
            Key::Enter => {
                let text = self.input.clone();
                self.input = String::new();
                self.mode = Mode::View;
                match Task::new(text) {
                    Some(t) => {
                        proof {
                            lemma_views_of_push(self.tasks@, t);
                        }
                        self.tasks.push(t);
                        proof {
                            assert(self@ =~~= step_add(old(self)@, key).0);
                        }
                        Effect::Save
                    },
                    None => {
                        proof {
                            assert(self@ =~~= step_add(old(self)@, key).0);
                        }
                        Effect::WarnEmptyAdd
                    },
                }
            },
            Key::Esc => {
                self.input = String::new();
                self.mode = Mode::View;
                proof {
                    assert(self@ =~~= step_add(old(self)@, key).0);
                }
                Effect::Quiet
            },
            Key::Char(c) => {
                push_char(&mut self.input, c);
                proof {
                    assert(self@ =~~= step_add(old(self)@, key).0);
                }
                Effect::Quiet
            },
            Key::Backspace => {
                let _ = pop_char(&mut self.input);
                proof {
                    assert(self@ =~~= step_add(old(self)@, key).0);
                }
                Effect::Quiet
            },
            _ => Effect::Quiet,
        }
    }

    fn handle_edit_key(&mut self, key: Key) -> (e: Effect)
        requires
            old(self)@.wf(),
            old(self)@.mode == Mode::EditInput,
        ensures
            final(self)@ == step_edit(old(self)@, key).0,
            e == step_edit(old(self)@, key).1,
    {
        match key {
            Key::Enter => {
                if self.selected < self.tasks.len() {
                    let text = self.input.clone();
                    self.input = String::new();
                    self.mode = Mode::View;
                    match Task::new(text) {
                        Some(t) => {
                            proof {
                                lemma_views_of_update(self.tasks@, self.selected as int, t);
                            }
                            self.tasks.set(self.selected, t);
                            proof {
                                assert(self@ =~~= step_edit(old(self)@, key).0);
                            }
                            Effect::Save
                        },
                        None => {
                            proof {
                                assert(self@ =~~= step_edit(old(self)@, key).0);
                            }
                            Effect::WarnEmptyEdit
                        },
                    }
                } else {
                    Effect::Quiet
                }
            },
            Key::Esc => {
                self.input = String::new();
                self.mode = Mode::View;
                proof {
                    assert(self@ =~~= step_edit(old(self)@, key).0);
                }
                Effect::Quiet
            },
            Key::Char(c) => {
                push_char(&mut self.input, c);
                proof {
                    assert(self@ =~~= step_edit(old(self)@, key).0);
                }
                Effect::Quiet
            },
            Key::Backspace => {
                let _ = pop_char(&mut self.input);
                proof {
                    assert(self@ =~~= step_edit(old(self)@, key).0);
                }
                Effect::Quiet
            },
            _ => Effect::Quiet,
        }
    }

    fn handle_set_command_key(&mut self, key: Key) -> (e: Effect)
        requires
            old(self)@.mode == Mode::SetTestCommand,
        ensures
            final(self)@ == step_set_command(old(self)@, key).0,
            e == step_set_command(old(self)@, key).1,
    {
        match key {
            Key::Enter => {
                let text = self.input.clone();
                self.input = String::new();
                self.test_command = text;
                self.mode = Mode::View;
                proof {
                    assert(self@ =~~= step_set_command(old(self)@, key).0);
                }
                Effect::Quiet
            },
            Key::Esc => {
                self.input = String::new();
                self.mode = Mode::View;
                proof {
                    assert(self@ =~~= step_set_command(old(self)@, key).0);
                }
                Effect::Quiet
            },
            Key::Char(c) => {
                push_char(&mut self.input, c);
                proof {
                    assert(self@ =~~= step_set_command(old(self)@, key).0);
                }
                Effect::Quiet
            },
            Key::Backspace => {
                let _ = pop_char(&mut self.input);
                proof {
                    assert(self@ =~~= step_set_command(old(self)@, key).0);
                }
                Effect::Quiet
            },
            _ => Effect::Quiet,
        }
    }
}


/// Toggling the selected task asks for a save and cycles exactly that
/// task's status, and the text that save writes holds the new status's
/// section — opening with its heading — and, after the heading, the task's
/// checklist line, which opens with the new status's marker. So a selected
/// Pending task is written as a "- [x]" line under the Done heading after
/// one toggle, and applying this lemma to the new state covers the second
/// toggle, which writes it as a "- [~]" line under the Working heading.
pub proof fn lemma_toggle_then_save(pre: StateView)
    requires
        pre.wf(),
        pre.mode == Mode::View,
        pre.tasks.len() > 0,
    ensures
        step(pre, Key::Enter).1 == Effect::Save,
        step(pre, Key::Enter).0.tasks == pre.tasks.update(
            pre.selected,
            TaskView {
                description: pre.tasks[pre.selected].description,
                status: cycled(pre.tasks[pre.selected].status),
            },
        ),
        ({
            let ts1 = step(pre, Key::Enter).0.tasks;
            let t1 = ts1[pre.selected];
            let sec = section(ts1, t1.status);
            &&& task_line(t1).take(status_marker(t1.status).len() as int) == status_marker(
                t1.status,
            )
            &&& sec.take(heading(t1.status).len() as int) == heading(t1.status)
            &&& exists|i: int|
                heading(t1.status).len() <= i && i + task_line(t1).len() <= sec.len() && (
                #[trigger] sec.subrange(i, i + task_line(t1).len() as int)) == task_line(t1)
            &&& exists|a: int|
                0 <= a && a + sec.len() <= render_tasks(ts1).len() && (#[trigger] render_tasks(
                    ts1,
                ).subrange(a, a + sec.len() as int)) == sec
        }),
{
    let sel = pre.selected;
    let t0 = pre.tasks[sel];
    let t1 = TaskView { description: t0.description, status: cycled(t0.status) };
    let ts1 = step(pre, Key::Enter).0.tasks;
    assert(ts1 == pre.tasks.update(sel, t1));
    assert(ts1[sel] == t1);
    assert(task_line(t1).take(status_marker(t1.status).len() as int) =~= status_marker(
        t1.status,
    ));
    lemma_section_contains(ts1, t1.status, sel);
    assert(has_status(ts1, t1.status));
    lemma_render_contains_section(ts1, t1.status);
}

} // verus!
