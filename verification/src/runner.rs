//! The external action runner's decisions: splitting the stored test command
//! into a program and its arguments, refusing to run a blank command, the
//! follow-up after the test ran, and the two-step stage-then-commit sequence.
//! The caller performs the process invocations and feeds the outcomes back.

use vstd::prelude::*;
use crate::task::Task;
use crate::task::views_of;
use crate::text::all_space;
use crate::text::is_space;
use crate::text::space_char;

verus! {

/// The length of the whitespace-free word at the front of `s` (zero when `s`
/// is empty or opens with whitespace).
pub open spec fn word_len(s: Seq<char>) -> nat
    decreases s.len(),
{
    if s.len() == 0 || is_space(s[0]) {
        0
    } else {
        (1 + word_len(s.drop_first())) as nat
    }
}

pub proof fn lemma_word_len_le(s: Seq<char>)
    ensures
        word_len(s) <= s.len(),
    decreases s.len(),
{
    if s.len() > 0 && !is_space(s[0]) {
        lemma_word_len_le(s.drop_first());
    }
}

/// The whitespace-separated words of `s`, in order.
pub open spec fn tokens(s: Seq<char>) -> Seq<Seq<char>>
    decreases s.len(),
    via tokens_decreases
{
    if s.len() == 0 {
        Seq::empty()
    } else if is_space(s[0]) {
        tokens(s.drop_first())
    } else {
        let w = word_len(s) as int;
        seq![s.take(w)] + tokens(s.skip(w))
    }
}

#[via_fn]
proof fn tokens_decreases(s: Seq<char>) {
    if s.len() > 0 && !is_space(s[0]) {
        lemma_word_len_le(s);
    }
}

/// A text has no words exactly when it is empty or whitespace throughout.
pub proof fn lemma_no_tokens_iff_blank(s: Seq<char>)
    ensures
        tokens(s).len() == 0 <==> all_space(s),
    decreases s.len(),
{
    if s.len() == 0 {
    } else if is_space(s[0]) {
        lemma_no_tokens_iff_blank(s.drop_first());
        assert(all_space(s.drop_first()) ==> all_space(s)) by {
            if all_space(s.drop_first()) {
                assert forall|i: int| 0 <= i < s.len() implies is_space(s[i]) by {
                    if i > 0 {
                        assert(s.drop_first()[i - 1] == s[i]);
                    }
                }
            }
        }
        assert(all_space(s) ==> all_space(s.drop_first()));
    } else {
        assert(!is_space(s[0]));
    }
}

proof fn lemma_word_len_at(s: Seq<char>, m: int)
    requires
        0 <= m <= s.len(),
        forall|k: int| 0 <= k < m ==> !is_space(s[k]),
        m < s.len() ==> is_space(s[m]),
    ensures
        word_len(s) == m,
    decreases m,
{
    if m > 0 {
        assert forall|k: int| 0 <= k < m - 1 implies !is_space(s.drop_first()[k]) by {
            assert(s.drop_first()[k] == s[k + 1]);
        }
        lemma_word_len_at(s.drop_first(), m - 1);
    }
}

/// The views of the strings of `v`, in order.
pub open spec fn string_views(v: Seq<String>) -> Seq<Seq<char>> {
    v.map_values(|t: String| t@)
}

/// Split a command on whitespace into its words.
pub fn split_command(command: &str) -> (r: Vec<String>)
    ensures
        string_views(r@) == tokens(command@),
{
    let n = command.unicode_len();
    let mut r: Vec<String> = Vec::new();
    let mut i: usize = 0;
    proof {
        assert(string_views(r@) =~= Seq::<Seq<char>>::empty());
        assert(command@.skip(0) =~= command@);
    }
    while i < n
        invariant
            n == command@.len(),
            i <= n,
            tokens(command@) == string_views(r@) + tokens(command@.skip(i as int)),
        decreases n - i,
    {
        let ghost rem = command@.skip(i as int);
        let c = command.get_char(i);
        if space_char(c) {
            proof {
                assert(rem[0] == command@[i as int]);
                assert(rem.drop_first() =~= command@.skip(i as int + 1));
                assert(string_views(r@) + tokens(command@.skip(i as int + 1)) =~= string_views(
                    r@,
                ) + tokens(rem));
            }
            i = i + 1;
        } else {
            let mut j: usize = i;
            while j < n && !space_char(command.get_char(j))
                invariant
                    n == command@.len(),
                    i <= j <= n,
                    forall|k: int| i <= k < j ==> !is_space(command@[k]),
                decreases n - j,
            {
                j = j + 1;
            }
            proof {
                assert forall|k: int| 0 <= k < j - i implies !is_space(rem[k]) by {
                    assert(rem[k] == command@[k + i]);
                }
                lemma_word_len_at(rem, j - i);
            }
            let word = command.substring_char(i, j);
            let owned = word.to_owned();
            let ghost r_before = r@;
            r.push(owned);
            proof {
                assert(rem.take(j - i) =~= command@.subrange(i as int, j as int));
                assert(rem.skip(j - i) =~= command@.skip(j as int));
                assert(string_views(r@) =~= string_views(r_before) + seq![word@]);
                assert(string_views(r@) + tokens(command@.skip(j as int)) =~= string_views(
                    r_before,
                ) + tokens(rem));
            }
            i = j;
        }
    }
    proof {
        assert(command@.skip(n as int) =~= Seq::<char>::empty());
        assert(string_views(r@) + tokens(command@.skip(n as int)) =~= string_views(r@));
    }
    r
}

/// What to run for the stored test command: the program and its arguments,
/// or nothing when the command is empty or whitespace-only — a blank command
/// is a failure without any attempt to execute.
pub fn test_invocation(command: &str) -> (r: Option<(String, Vec<String>)>)
    ensures
        r is Some <==> !all_space(command@),
        r matches Some(pa) ==> seq![pa.0@] + string_views(pa.1@) == tokens(command@),
{
    proof {
        lemma_no_tokens_iff_blank(command@);
    }
    let mut words = split_command(command);
    if words.len() == 0 {
        None
    } else {
        let ghost w0 = words@;
        let program = words.remove(0);
        proof {
            assert(seq![program@] + string_views(words@) =~= string_views(w0));
        }
        Some((program, words))
    }
}

/// The two steps of committing the task file: stage everything, then commit.
#[derive(Clone, Copy, Debug, PartialEq, Eq, Structural)]
pub enum VcsStep {
    Stage,
    Commit,
}

/// Decide what follows an attempted version-control step: after a successful
/// stage the commit runs, after a successful commit the sequence is done,
/// and a failed step aborts with a message naming the step that failed.
pub fn vcs_next(step: VcsStep, ok: bool) -> (r: Result<Option<VcsStep>, String>)
    ensures
        ok && step == VcsStep::Stage ==> r == Ok::<Option<VcsStep>, String>(
            Some(VcsStep::Commit),
        ),
        ok && step == VcsStep::Commit ==> r == Ok::<Option<VcsStep>, String>(None),
        !ok && step == VcsStep::Stage ==> (r matches Err(m) && m@ == "git add failed"@),
        !ok && step == VcsStep::Commit ==> (r matches Err(m) && m@ == "git commit failed"@),
{
    match (step, ok) {
        (VcsStep::Stage, true) => Ok(Some(VcsStep::Commit)),
        (VcsStep::Commit, true) => Ok(None),
        (VcsStep::Stage, false) => Err(String::from_str("git add failed")),
        (VcsStep::Commit, false) => Err(String::from_str("git commit failed")),
    }
}

/// The commit message that records the selected task.
pub open spec fn commit_message(desc: Seq<char>) -> Seq<char> {
    "TCR: completed task \""@ + desc + "\""@
}

/// What follows the test run: on failure, discard the local changes; on
/// success, persist and — when a task is selected — commit with a message
/// naming it.
pub enum TcrOutcome {
    Commit(String),
    SaveOnly,
    Revert,
}

/// Decide the follow-up of the test-and-commit action once the test command
/// has run (or was refused because it was blank).
pub fn tcr_followup(tasks: &Vec<Task>, selected: usize, test_ok: bool) -> (r: TcrOutcome)
    ensures
        !test_ok ==> r is Revert,
        test_ok && selected < tasks@.len() ==> (r matches TcrOutcome::Commit(m) && m@
            == commit_message(views_of(tasks@)[selected as int].description)),
        test_ok && selected >= tasks@.len() ==> r is SaveOnly,
{
    if !test_ok {
        TcrOutcome::Revert
    } else if selected < tasks.len() {
        let mut message = String::from_str("TCR: completed task \"");
        message.append(tasks[selected].description.as_str());
        message.append("\"");
        TcrOutcome::Commit(message)
    } else {
        TcrOutcome::SaveOnly
    }
}

} // verus!
