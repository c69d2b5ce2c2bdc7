//! Tasks and their statuses: a task is a description with one of three
//! statuses, and the status moves through a fixed three-step cycle.

use vstd::prelude::*;
use crate::text::all_space;
use crate::text::blank;

verus! {

/// The status of a task: waiting to be worked on, in progress, or finished.
#[derive(Clone, Copy, Debug, PartialEq, Eq, Structural)]
pub enum Status {
    Pending,
    Working,
    Done,
}

/// The status a task moves to when its status is cycled once:
/// Pending to Done, Done to Working, Working to Pending.
pub open spec fn cycled(s: Status) -> Status {
    match s {
        Status::Pending => Status::Done,
        Status::Done => Status::Working,
        Status::Working => Status::Pending,
    }
}

impl Status {
    /// Move this status one step along the cycle.
    pub fn cycle(self) -> (r: Status)
        ensures
            r == cycled(self),
    {
        match self {
            Status::Pending => Status::Done,
            Status::Done => Status::Working,
            Status::Working => Status::Pending,
        }
    }
}

/// Cycling is total on the three statuses and is exactly the three-cycle
/// Pending, Done, Working: three steps return any status to itself, and no
/// single step leaves a status in place.
pub proof fn lemma_status_three_cycle(s: Status)
    ensures
        cycled(cycled(cycled(s))) == s,
        cycled(s) != s,
        cycled(Status::Pending) == Status::Done,
        cycled(Status::Done) == Status::Working,
        cycled(Status::Working) == Status::Pending,
{
}

/// One entry of the task list: a description and a status.
#[derive(Clone, Debug)]
pub struct Task {
    pub description: String,
    pub status: Status,
}

/// The mathematical shape of a task: its description as a sequence of
/// characters, and its status.
#[verifier::ext_equal]
pub ghost struct TaskView {
    pub description: Seq<char>,
    pub status: Status,
}

impl View for Task {
    type V = TaskView;

    open spec fn view(&self) -> TaskView {
        TaskView { description: self.description@, status: self.status }
    }
}

/// The views of the tasks of `ts`, in order.
pub open spec fn views_of(ts: Seq<Task>) -> Seq<TaskView> {
    ts.map_values(|t: Task| t@)
}

pub proof fn lemma_views_of_push(ts: Seq<Task>, t: Task)
    ensures
        views_of(ts.push(t)) == views_of(ts).push(t@),
{
    assert(views_of(ts.push(t)) =~= views_of(ts).push(t@));
}

pub proof fn lemma_views_of_update(ts: Seq<Task>, i: int, t: Task)
    requires
        0 <= i < ts.len(),
    ensures
        views_of(ts.update(i, t)) == views_of(ts).update(i, t@),
{
    assert(views_of(ts.update(i, t)) =~= views_of(ts).update(i, t@));
}

pub proof fn lemma_views_of_remove(ts: Seq<Task>, i: int)
    requires
        0 <= i < ts.len(),
    ensures
        views_of(ts.remove(i)) == views_of(ts).remove(i),
{
    assert(views_of(ts.remove(i)) =~= views_of(ts).remove(i));
}

impl Task {
    /// Build a new pending task from `description`; an empty or
    /// whitespace-only description is rejected.
    pub fn new(description: String) -> (r: Option<Task>)
        ensures
            r is Some <==> !all_space(description@),
            r matches Some(t) ==> t@.description == description@ && t@.status == Status::Pending,
    {
        if blank(description.as_str()) {
            None
        } else {
            Some(Task { description, status: Status::Pending })
        }
    }
}

} // verus!
