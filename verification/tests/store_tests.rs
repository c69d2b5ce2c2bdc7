use tcr_tasks::store::{load_tasks, save_tasks};
use tcr_tasks::task::{Status, Task};

fn task(description: &str, status: Status) -> Task {
    Task { description: description.to_string(), status }
}

#[test]
fn load_empty_content_gives_empty_list() {
    // An absent task file is handed to the library as empty text.
    let tasks = load_tasks("");
    assert!(tasks.is_empty());
}

#[test]
fn load_recognizes_all_three_markers() {
    let content = "- [x] done task\n- [~] working task\n- [ ] pending task\n";
    let tasks = load_tasks(content);
    assert_eq!(tasks.len(), 3);
    assert_eq!(tasks[0].description, "done task");
    assert_eq!(tasks[0].status, Status::Done);
    assert_eq!(tasks[1].description, "working task");
    assert_eq!(tasks[1].status, Status::Working);
    assert_eq!(tasks[2].description, "pending task");
    assert_eq!(tasks[2].status, Status::Pending);
}

#[test]
fn load_defaults_unrecognized_marker_to_pending() {
    let tasks = load_tasks("- [?] odd marker\n");
    assert_eq!(tasks.len(), 1);
    assert_eq!(tasks[0].description, "odd marker");
    assert_eq!(tasks[0].status, Status::Pending);
}

#[test]
fn load_ignores_non_checklist_lines() {
    let content = "# \u{1f4cb} Task List\n\n## \u{1f4cb} Pending\n- [ ] real\n\nplain text\n";
    let tasks = load_tasks(content);
    assert_eq!(tasks.len(), 1);
    assert_eq!(tasks[0].description, "real");
    assert_eq!(tasks[0].status, Status::Pending);
}

#[test]
fn load_accepts_bare_marker_with_empty_description() {
    let tasks = load_tasks("- [x]\n");
    assert_eq!(tasks.len(), 1);
    assert_eq!(tasks[0].description, "");
    assert_eq!(tasks[0].status, Status::Done);
}

#[test]
fn load_trims_unicode_whitespace() {
    let tasks = load_tasks("\u{a0} - [x] nb\u{2009}\n");
    assert_eq!(tasks.len(), 1);
    assert_eq!(tasks[0].description, "nb");
    assert_eq!(tasks[0].status, Status::Done);
}

#[test]
fn save_writes_only_non_empty_sections() {
    let tasks = vec![task("solo", Status::Pending)];
    let content = save_tasks(&tasks);
    assert_eq!(
        content,
        "# \u{1f4cb} Task List\n\n## \u{1f4cb} Pending\n- [ ] solo\n\n"
    );
}

#[test]
fn save_groups_sections_in_fixed_order() {
    let tasks = vec![
        task("p", Status::Pending),
        task("d", Status::Done),
        task("w", Status::Working),
    ];
    let content = save_tasks(&tasks);
    assert_eq!(
        content,
        "# \u{1f4cb} Task List\n\n## \u{1f6a7} Working\n- [~] w\n\n## \u{1f4cb} Pending\n- [ ] p\n\n## \u{2705} Done\n- [x] d\n\n"
    );
}

#[test]
fn save_empty_list_writes_title_only() {
    let tasks: Vec<Task> = Vec::new();
    assert_eq!(save_tasks(&tasks), "# \u{1f4cb} Task List\n\n");
}

#[test]
fn save_then_load_keeps_tasks_grouped_by_status() {
    let tasks = vec![
        task("b", Status::Working),
        task("a", Status::Pending),
        task("c", Status::Done),
        task("d", Status::Working),
    ];
    let reloaded = load_tasks(&save_tasks(&tasks));
    let expect = [
        ("b", Status::Working),
        ("d", Status::Working),
        ("a", Status::Pending),
        ("c", Status::Done),
    ];
    assert_eq!(reloaded.len(), expect.len());
    for (got, want) in reloaded.iter().zip(expect.iter()) {
        assert_eq!(got.description, want.0);
        assert_eq!(got.status, want.1);
    }
}

#[test]
fn save_then_load_within_one_status_keeps_order() {
    let tasks = vec![
        task("first", Status::Pending),
        task("second", Status::Pending),
        task("third", Status::Pending),
    ];
    let reloaded = load_tasks(&save_tasks(&tasks));
    assert_eq!(reloaded.len(), 3);
    assert_eq!(reloaded[0].description, "first");
    assert_eq!(reloaded[1].description, "second");
    assert_eq!(reloaded[2].description, "third");
}
