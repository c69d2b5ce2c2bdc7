use tcr_tasks::runner::{TcrOutcome, VcsStep, split_command, tcr_followup, test_invocation, vcs_next};
use tcr_tasks::task::{Status, Task};

fn task(description: &str, status: Status) -> Task {
    Task { description: description.to_string(), status }
}

#[test]
fn empty_command_is_refused_without_running_anything() {
    assert!(test_invocation("").is_none());
}

#[test]
fn whitespace_command_is_refused_without_running_anything() {
    assert!(test_invocation(" \t  \n ").is_none());
}

#[test]
fn unicode_whitespace_command_is_refused() {
    assert!(test_invocation("\u{a0}\u{2028} \u{3000}").is_none());
}

#[test]
fn command_splits_on_unicode_whitespace() {
    let words = split_command("a\u{0c}b\u{a0}c");
    assert_eq!(words, vec!["a".to_string(), "b".to_string(), "c".to_string()]);
}

#[test]
fn command_splits_into_program_and_arguments() {
    let (program, args) = test_invocation("cargo test --all").unwrap();
    assert_eq!(program, "cargo");
    assert_eq!(args, vec!["test".to_string(), "--all".to_string()]);
}

#[test]
fn single_word_command_has_no_arguments() {
    let (program, args) = test_invocation("make").unwrap();
    assert_eq!(program, "make");
    assert!(args.is_empty());
}

#[test]
fn split_command_collapses_repeated_whitespace() {
    let words = split_command("  a \t b  c ");
    assert_eq!(words, vec!["a".to_string(), "b".to_string(), "c".to_string()]);
}

#[test]
fn staging_success_leads_to_commit_step() {
    assert_eq!(vcs_next(VcsStep::Stage, true), Ok(Some(VcsStep::Commit)));
}

#[test]
fn commit_success_ends_the_sequence() {
    assert_eq!(vcs_next(VcsStep::Commit, true), Ok(None));
}

#[test]
fn staging_failure_reports_the_stage_step() {
    assert_eq!(vcs_next(VcsStep::Stage, false), Err("git add failed".to_string()));
}

#[test]
fn commit_failure_reports_the_commit_step() {
    assert_eq!(vcs_next(VcsStep::Commit, false), Err("git commit failed".to_string()));
}

#[test]
fn failed_test_leads_to_revert() {
    let tasks = vec![task("Fix bug", Status::Working)];
    assert!(matches!(tcr_followup(&tasks, 0, false), TcrOutcome::Revert));
}

#[test]
fn successful_test_commits_with_the_selected_task_in_the_message() {
    let tasks = vec![task("Fix bug", Status::Working)];
    match tcr_followup(&tasks, 0, true) {
        TcrOutcome::Commit(message) => {
            assert_eq!(message, "TCR: completed task \"Fix bug\"");
        },
        _ => panic!("expected a commit"),
    }
}

#[test]
fn successful_test_without_selection_only_saves() {
    let tasks: Vec<Task> = Vec::new();
    assert!(matches!(tcr_followup(&tasks, 0, true), TcrOutcome::SaveOnly));
}
