use tcr_tasks::state::{AppState, Effect, Key, Mode};
use tcr_tasks::store::save_tasks;
use tcr_tasks::task::{Status, Task};

fn task(description: &str, status: Status) -> Task {
    Task { description: description.to_string(), status }
}

fn fresh(tasks: Vec<Task>) -> AppState {
    AppState::new(tasks, " ".to_string())
}

fn type_text(state: &mut AppState, text: &str) {
    for c in text.chars() {
        let e = state.handle_key(Key::Char(c));
        assert_eq!(e, Effect::Quiet);
    }
}

#[test]
fn add_flow_appends_pending_task_and_returns_to_view() {
    let mut state = fresh(vec![task("Write spec", Status::Pending)]);
    assert_eq!(state.handle_key(Key::Char('a')), Effect::Quiet);
    assert_eq!(state.mode, Mode::AddInput);
    type_text(&mut state, "Write spec 2");
    assert_eq!(state.handle_key(Key::Enter), Effect::Save);
    assert_eq!(state.mode, Mode::View);
    assert_eq!(state.tasks.len(), 2);
    assert_eq!(state.tasks[1].description, "Write spec 2");
    assert_eq!(state.tasks[1].status, Status::Pending);
    let content = save_tasks(&state.tasks);
    assert_eq!(
        content,
        "# \u{1f4cb} Task List\n\n## \u{1f4cb} Pending\n- [ ] Write spec\n- [ ] Write spec 2\n\n"
    );
}

#[test]
fn empty_add_is_rejected_with_warning() {
    let mut state = fresh(vec![task("keep", Status::Pending)]);
    state.handle_key(Key::Char('a'));
    assert_eq!(state.handle_key(Key::Enter), Effect::WarnEmptyAdd);
    assert_eq!(state.tasks.len(), 1);
    assert_eq!(state.mode, Mode::View);
}

#[test]
fn whitespace_add_is_rejected_with_warning() {
    let mut state = fresh(Vec::new());
    state.handle_key(Key::Char('a'));
    type_text(&mut state, " \t ");
    assert_eq!(state.handle_key(Key::Enter), Effect::WarnEmptyAdd);
    assert!(state.tasks.is_empty());
}

#[test]
fn unicode_whitespace_add_is_rejected() {
    let mut state = fresh(Vec::new());
    state.handle_key(Key::Char('a'));
    state.handle_key(Key::Char('\u{0c}'));
    state.handle_key(Key::Char('\u{a0}'));
    assert_eq!(state.handle_key(Key::Enter), Effect::WarnEmptyAdd);
    assert!(state.tasks.is_empty());
}

#[test]
fn edit_flow_replaces_selected_task() {
    let mut state = fresh(vec![task("old", Status::Done)]);
    assert_eq!(state.handle_key(Key::Char('e')), Effect::Quiet);
    assert_eq!(state.mode, Mode::EditInput);
    assert_eq!(state.input, "old");
    for _ in 0..3 {
        state.handle_key(Key::Backspace);
    }
    type_text(&mut state, "new");
    assert_eq!(state.handle_key(Key::Enter), Effect::Save);
    assert_eq!(state.tasks.len(), 1);
    assert_eq!(state.tasks[0].description, "new");
    assert_eq!(state.tasks[0].status, Status::Pending);
    assert_eq!(state.mode, Mode::View);
}

#[test]
fn empty_edit_leaves_task_unchanged() {
    let mut state = fresh(vec![task("keep me", Status::Working)]);
    state.handle_key(Key::Char('e'));
    for _ in 0..7 {
        state.handle_key(Key::Backspace);
    }
    assert_eq!(state.handle_key(Key::Enter), Effect::WarnEmptyEdit);
    assert_eq!(state.tasks[0].description, "keep me");
    assert_eq!(state.tasks[0].status, Status::Working);
}

#[test]
fn edit_on_empty_list_is_ignored() {
    let mut state = fresh(Vec::new());
    assert_eq!(state.handle_key(Key::Char('e')), Effect::Quiet);
    assert_eq!(state.mode, Mode::View);
}

#[test]
fn escape_discards_input_buffer() {
    let mut state = fresh(Vec::new());
    state.handle_key(Key::Char('a'));
    type_text(&mut state, "half typed");
    assert_eq!(state.handle_key(Key::Esc), Effect::Quiet);
    assert_eq!(state.mode, Mode::View);
    assert!(state.tasks.is_empty());
    assert_eq!(state.input, "");
}

#[test]
fn selection_moves_are_clamped() {
    let mut state = fresh(vec![
        task("a", Status::Pending),
        task("b", Status::Pending),
        task("c", Status::Pending),
    ]);
    assert_eq!(state.selected, 0);
    state.handle_key(Key::Up);
    assert_eq!(state.selected, 0);
    state.handle_key(Key::Down);
    state.handle_key(Key::Char('j'));
    assert_eq!(state.selected, 2);
    state.handle_key(Key::Down);
    assert_eq!(state.selected, 2);
    state.handle_key(Key::Char('k'));
    assert_eq!(state.selected, 1);
}

#[test]
fn moves_on_empty_list_keep_selection_at_zero() {
    let mut state = fresh(Vec::new());
    state.handle_key(Key::Down);
    state.handle_key(Key::Up);
    assert_eq!(state.selected, 0);
}

#[test]
fn delete_clamps_selection_only_from_last_index() {
    let mut state = fresh(vec![
        task("a", Status::Pending),
        task("b", Status::Pending),
        task("c", Status::Pending),
    ]);
    assert_eq!(state.handle_key(Key::Char('d')), Effect::Save);
    assert_eq!(state.selected, 0);
    assert_eq!(state.tasks.len(), 2);
    assert_eq!(state.tasks[0].description, "b");
    state.handle_key(Key::Down);
    assert_eq!(state.selected, 1);
    assert_eq!(state.handle_key(Key::Char('d')), Effect::Save);
    assert_eq!(state.selected, 0);
    assert_eq!(state.tasks.len(), 1);
    assert_eq!(state.tasks[0].description, "b");
}

#[test]
fn delete_on_empty_list_is_ignored() {
    let mut state = fresh(Vec::new());
    assert_eq!(state.handle_key(Key::Char('d')), Effect::Quiet);
    assert!(state.tasks.is_empty());
    assert_eq!(state.selected, 0);
}

#[test]
fn selection_stays_in_bounds_through_mixed_operations() {
    let mut state = fresh(Vec::new());
    let keys = [
        Key::Char('a'),
        Key::Char('x'),
        Key::Enter,
        Key::Char('a'),
        Key::Char('y'),
        Key::Enter,
        Key::Down,
        Key::Char('d'),
        Key::Down,
        Key::Up,
        Key::Char('d'),
        Key::Char('d'),
        Key::Up,
    ];
    for key in keys {
        state.handle_key(key);
        if state.tasks.is_empty() {
            assert_eq!(state.selected, 0);
        } else {
            assert!(state.selected < state.tasks.len());
        }
    }
}

#[test]
fn toggle_cycles_selected_status_and_saves() {
    let mut state = fresh(vec![task("Write spec", Status::Pending)]);
    assert_eq!(state.handle_key(Key::Enter), Effect::Save);
    assert_eq!(state.tasks[0].status, Status::Done);
    let content = save_tasks(&state.tasks);
    assert_eq!(
        content,
        "# \u{1f4cb} Task List\n\n## \u{2705} Done\n- [x] Write spec\n\n"
    );
    assert_eq!(state.handle_key(Key::Enter), Effect::Save);
    assert_eq!(state.tasks[0].status, Status::Working);
    let content = save_tasks(&state.tasks);
    assert_eq!(
        content,
        "# \u{1f4cb} Task List\n\n## \u{1f6a7} Working\n- [~] Write spec\n\n"
    );
}

#[test]
fn toggle_on_empty_list_is_ignored() {
    let mut state = fresh(Vec::new());
    assert_eq!(state.handle_key(Key::Enter), Effect::Quiet);
}

#[test]
fn set_test_command_accepts_any_text_verbatim() {
    let mut state = fresh(Vec::new());
    assert_eq!(state.handle_key(Key::Char('T')), Effect::Quiet);
    assert_eq!(state.mode, Mode::SetTestCommand);
    assert_eq!(state.input, " ");
    state.handle_key(Key::Backspace);
    type_text(&mut state, "cargo test");
    assert_eq!(state.handle_key(Key::Enter), Effect::Quiet);
    assert_eq!(state.mode, Mode::View);
    assert_eq!(state.test_command, "cargo test");
}

#[test]
fn view_mode_actions_report_their_effects() {
    let mut state = fresh(vec![task("a", Status::Pending)]);
    assert_eq!(state.handle_key(Key::Char('q')), Effect::Quit);
    assert_eq!(state.handle_key(Key::Char('t')), Effect::RunTcr);
    assert_eq!(state.handle_key(Key::Char('E')), Effect::Export);
    assert_eq!(state.handle_key(Key::Char('z')), Effect::Quiet);
    assert_eq!(state.handle_key(Key::Other), Effect::Quiet);
}
