use tcr_tasks::task::{Status, Task};

#[test]
fn new_task_starts_pending() {
    let t = Task::new("Write spec".to_string()).unwrap();
    assert_eq!(t.description, "Write spec");
    assert_eq!(t.status, Status::Pending);
}

#[test]
fn empty_description_is_rejected() {
    assert!(Task::new(String::new()).is_none());
}

#[test]
fn whitespace_description_is_rejected() {
    assert!(Task::new("  \t \n".to_string()).is_none());
}

#[test]
fn unicode_whitespace_description_is_rejected() {
    assert!(Task::new("\u{0b}\u{a0}\u{2003}".to_string()).is_none());
}

#[test]
fn status_cycle_steps_through_the_three_statuses() {
    assert_eq!(Status::Pending.cycle(), Status::Done);
    assert_eq!(Status::Done.cycle(), Status::Working);
    assert_eq!(Status::Working.cycle(), Status::Pending);
}

#[test]
fn cycling_three_times_returns_to_the_start() {
    for st in [Status::Pending, Status::Working, Status::Done] {
        assert_eq!(st.cycle().cycle().cycle(), st);
        assert_ne!(st.cycle(), st);
    }
}
