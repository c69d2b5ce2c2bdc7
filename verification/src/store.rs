//! The task store: parses the persisted checklist text into tasks and
//! renders tasks back into status-grouped text. The text holds one heading
//! line, then one section per non-empty status group in the fixed order
//! Working, Pending, Done; each task is one checklist line.

use vstd::prelude::*;
use crate::task::Status;
use crate::task::Task;
use crate::task::TaskView;
use crate::task::views_of;
use crate::text::is_space;
use crate::text::trim;
use crate::text::trim_str;
use crate::text::lemma_trim_trimmed;
use crate::text::lemma_trimmed_endpoints;
use vstd::multiset::Multiset;

verus! {

// ---------- splitting text into lines ----------

/// The number of characters before the first line feed of `s` (all of `s`
/// when it has none).
pub open spec fn line_len(s: Seq<char>) -> nat
    decreases s.len(),
{
    if s.len() == 0 {
        0
    } else if s[0] == '\n' {
        0
    } else {
        (1 + line_len(s.drop_first())) as nat
    }
}

/// The lines of `s`: the segments between line feeds, with an unterminated
/// final segment kept when it is non-empty.
pub open spec fn split_lines(s: Seq<char>) -> Seq<Seq<char>>
    decreases s.len(),
{
    if s.len() == 0 {
        Seq::empty()
    } else {
        let n = line_len(s) as int;
        if n >= s.len() {
            seq![s]
        } else {
            seq![s.take(n)] + split_lines(s.skip(n + 1))
        }
    }
}

proof fn lemma_line_len_at(s: Seq<char>, m: int)
    requires
        0 <= m <= s.len(),
        forall|k: int| 0 <= k < m ==> s[k] != '\n',
        m < s.len() ==> s[m] == '\n',
    ensures
        line_len(s) == m,
    decreases m,
{
    if m > 0 {
        assert forall|k: int| 0 <= k < m - 1 implies s.drop_first()[k] != '\n' by {
            assert(s.drop_first()[k] == s[k + 1]);
        }
        lemma_line_len_at(s.drop_first(), m - 1);
    }
}

// ---------- one line ----------

/// True when the trimmed line `t` is a checklist item.
pub open spec fn is_task_line(t: Seq<char>) -> bool {
    t.len() >= 3 && t[0] == '-' && t[1] == ' ' && t[2] == '['
}

/// The status named by the marker of the trimmed checklist line `t`; an
/// unrecognized or bare marker means Pending.
pub open spec fn line_status(t: Seq<char>) -> Status {
    if t.len() >= 5 && t[3] == 'x' && t[4] == ']' {
        Status::Done
    } else if t.len() >= 5 && t[3] == '~' && t[4] == ']' {
        Status::Working
    } else {
        Status::Pending
    }
}

/// The description on the trimmed checklist line `t`: what follows the
/// five-character marker, trimmed.
pub open spec fn line_desc(t: Seq<char>) -> Seq<char> {
    if t.len() >= 5 {
        trim(t.skip(5))
    } else {
        Seq::empty()
    }
}

/// The task on a single line, if the trimmed line is a checklist item.
pub open spec fn parse_line(line: Seq<char>) -> Option<TaskView> {
    let t = trim(line);
    if is_task_line(t) {
        Some(TaskView { description: line_desc(t), status: line_status(t) })
    } else {
        None
    }
}

/// The tasks a single line contributes: one or none.
pub open spec fn line_tasks(line: Seq<char>) -> Seq<TaskView> {
    match parse_line(line) {
        Some(t) => seq![t],
        None => Seq::empty(),
    }
}

/// The tasks on the given lines, in order; lines that are no checklist
/// items contribute nothing.
pub open spec fn parse_lines(lines: Seq<Seq<char>>) -> Seq<TaskView>
    decreases lines.len(),
{
    if lines.len() == 0 {
        Seq::empty()
    } else {
        line_tasks(lines[0]) + parse_lines(lines.drop_first())
    }
}

/// The tasks encoded in the persisted text.
pub open spec fn parse_content(s: Seq<char>) -> Seq<TaskView> {
    parse_lines(split_lines(s))
}

proof fn lemma_parse_lines_cons(l: Seq<char>, rest: Seq<Seq<char>>)
    ensures
        parse_lines(seq![l] + rest) == line_tasks(l) + parse_lines(rest),
{
    let all = seq![l] + rest;
    assert(all[0] == l);
    assert(all.drop_first() =~= rest);
}

// ---------- executable parsing ----------

/// Parse one line of the persisted text.
fn parse_task_line(line: &str) -> (r: Option<Task>)
    ensures
        r is Some <==> parse_line(line@) is Some,
        r matches Some(t) ==> parse_line(line@) == Some(t@),
{
    let t = trim_str(line);
    let tn = t.unicode_len();
    if tn >= 3 && t.get_char(0) == '-' && t.get_char(1) == ' ' && t.get_char(2) == '[' {
        let status = if tn >= 5 && t.get_char(3) == 'x' && t.get_char(4) == ']' {
            Status::Done
        } else if tn >= 5 && t.get_char(3) == '~' && t.get_char(4) == ']' {
            Status::Working
        } else {
            Status::Pending
        };
        let description = if tn >= 5 {
            let rest = t.substring_char(5, tn);
            proof {
                assert(t@.subrange(5, tn as int) =~= t@.skip(5));
            }
            let d = trim_str(rest);
            d.to_owned()
        } else {
            String::new()
        };
        Some(Task { description, status })
    } else {
        None
    }
}

/// Parse the whole persisted text into the task list it encodes. Lines that
/// are no checklist items are ignored; an absent file is handed in as empty
/// text and yields an empty list.
pub fn load_tasks(content: &str) -> (r: Vec<Task>)
    ensures
        views_of(r@) == parse_content(content@),
{
    let n = content.unicode_len();
    let mut r: Vec<Task> = Vec::new();
    let mut i: usize = 0;
    proof {
        assert(views_of(r@) =~= Seq::<TaskView>::empty());
        assert(content@.skip(0) =~= content@);
    }
    while i < n
        invariant
            n == content@.len(),
            i <= n,
            parse_content(content@) == views_of(r@) + parse_content(content@.skip(i as int)),
        decreases n - i,
    {
        let ghost rem = content@.skip(i as int);
        let mut j: usize = i;
        while j < n && content.get_char(j) != '\n'
            invariant
                n == content@.len(),
                i <= j <= n,
                forall|k: int| i <= k < j ==> content@[k] != '\n',
            decreases n - j,
        {
            j += 1;
        }
        proof {
            assert forall|k: int| 0 <= k < j - i implies rem[k] != '\n' by {
                assert(rem[k] == content@[k + i]);
            }
            lemma_line_len_at(rem, j - i);
        }
        let line = content.substring_char(i, j);
        proof {
            assert(line@ =~= rem.take(j - i));
        }
        let parsed = parse_task_line(line);
        proof {
            if j < n {
                assert(rem.skip(j - i + 1) =~= content@.skip(j + 1));
                lemma_parse_lines_cons(rem.take(j - i), split_lines(rem.skip(j - i + 1)));
                assert(parse_content(rem) == line_tasks(line@) + parse_content(content@.skip(j + 1)));
            } else {
                assert(rem.take(j - i) =~= rem);
                assert(split_lines(rem) == seq![rem]);
                assert(seq![rem] =~= seq![rem] + Seq::<Seq<char>>::empty());
                lemma_parse_lines_cons(rem, Seq::empty());
                assert(parse_content(rem) == line_tasks(line@) + Seq::<TaskView>::empty());
                assert(content@.skip(n as int) =~= Seq::<char>::empty());
                assert(parse_content(content@.skip(n as int)) == Seq::<TaskView>::empty());
            }
        }
        let ghost r_before = r@;
        match parsed {
            Some(t) => {
                r.push(t);
                proof {
                    assert(views_of(r@) =~= views_of(r_before) + seq![t@]);
                }
            },
            None => {},
        }
        proof {
            let next = if j < n { (j + 1) as int } else { n as int };
            assert(views_of(r@) + parse_content(content@.skip(next)) =~= views_of(r_before)
                + parse_content(rem));
        }
        if j < n {
            i = j + 1;
        } else {
            i = n;
        }
    }
    proof {
        assert(content@.skip(n as int) =~= Seq::<char>::empty());
        assert(parse_content(content@) =~= views_of(r@));
    }
    r
}

// ---------- rendering ----------

/// The five-character checklist marker of a status, with its trailing space.
pub open spec fn status_marker(st: Status) -> Seq<char> {
    match st {
        Status::Pending => "- [ ] "@,
        Status::Working => "- [~] "@,
        Status::Done => "- [x] "@,
    }
}

/// The checklist line a task is written as, with its closing line feed.
pub open spec fn task_line(t: TaskView) -> Seq<char> {
    status_marker(t.status) + t.description + "\n"@
}

/// The heading line that opens a status section.
pub open spec fn heading(st: Status) -> Seq<char> {
    match st {
        Status::Pending => "## \u{1f4cb} Pending\n"@,
        Status::Working => "## \u{1f6a7} Working\n"@,
        Status::Done => "## \u{2705} Done\n"@,
    }
}

/// The checklist lines of the tasks of `ts` whose status is `st`, in order.
pub open spec fn lines_for(ts: Seq<TaskView>, st: Status) -> Seq<char>
    decreases ts.len(),
{
    if ts.len() == 0 {
        Seq::empty()
    } else {
        (if ts[0].status == st {
            task_line(ts[0])
        } else {
            Seq::empty()
        }) + lines_for(ts.drop_first(), st)
    }
}

/// True when some task of `ts` has status `st`.
pub open spec fn has_status(ts: Seq<TaskView>, st: Status) -> bool {
    exists|i: int| 0 <= i < ts.len() && ts[i].status == st
}

/// The section of the persisted text for status `st`: a heading, the
/// checklist lines, and a blank line — or nothing when no task has `st`.
pub open spec fn section(ts: Seq<TaskView>, st: Status) -> Seq<char> {
    if has_status(ts, st) {
        heading(st) + lines_for(ts, st) + "\n"@
    } else {
        Seq::empty()
    }
}

/// The whole persisted text: a title line, then the non-empty sections in
/// the fixed order Working, Pending, Done.
pub open spec fn render_tasks(ts: Seq<TaskView>) -> Seq<char> {
    "# \u{1f4cb} Task List\n\n"@ + section(ts, Status::Working) + section(ts, Status::Pending)
        + section(ts, Status::Done)
}

/// True when some task of `tasks` has status `st`.
fn any_with_status(tasks: &Vec<Task>, st: Status) -> (r: bool)
    ensures
        r == has_status(views_of(tasks@), st),
{
    let ghost ts = views_of(tasks@);
    let mut i: usize = 0;
    while i < tasks.len()
        invariant
            ts == views_of(tasks@),
            i <= tasks@.len(),
            forall|k: int| 0 <= k < i ==> ts[k].status != st,
        decreases tasks@.len() - i,
    {
        if tasks[i].status == st {
            proof {
                assert(ts[i as int].status == st);
            }
            return true;
        }
        proof {
            assert(ts[i as int].status != st);
        }
        i += 1;
    }
    false
}

/// Append the section for status `st` to the text being built.
fn append_section(content: &mut String, tasks: &Vec<Task>, st: Status)
    ensures
        final(content)@ == old(content)@ + section(views_of(tasks@), st),
{
    let ghost ts = views_of(tasks@);
    if !any_with_status(tasks, st) {
        proof {
            assert(old(content)@ + section(ts, st) =~= old(content)@);
        }
        return ;
    }
    match st {
        Status::Working => content.append("## \u{1f6a7} Working\n"),
        Status::Pending => content.append("## \u{1f4cb} Pending\n"),
        Status::Done => content.append("## \u{2705} Done\n"),
    }
    let mut i: usize = 0;
    proof {
        assert(ts.skip(0) =~= ts);
    }
    while i < tasks.len()
        invariant
            ts == views_of(tasks@),
            i <= tasks@.len(),
            content@ + lines_for(ts.skip(i as int), st) == old(content)@ + heading(st)
                + lines_for(ts, st),
        decreases tasks@.len() - i,
    {
        let ghost mid = content@;
        let ghost rem = ts.skip(i as int);
        proof {
            assert(rem[0] == ts[i as int]);
            assert(rem.drop_first() =~= ts.skip(i as int + 1));
        }
        if tasks[i].status == st {
            match st {
                Status::Pending => content.append("- [ ] "),
                Status::Working => content.append("- [~] "),
                Status::Done => content.append("- [x] "),
            }
            content.append(tasks[i].description.as_str());
            content.append("\n");
            proof {
                assert(content@ =~= mid + task_line(ts[i as int]));
                assert(content@ + lines_for(ts.skip(i as int + 1), st) =~= mid + lines_for(
                    rem,
                    st,
                ));
            }
        } else {
            proof {
                assert(lines_for(rem, st) == Seq::<char>::empty() + lines_for(
                    ts.skip(i as int + 1),
                    st,
                ));
                assert(Seq::<char>::empty() + lines_for(ts.skip(i as int + 1), st) =~= lines_for(
                    ts.skip(i as int + 1),
                    st,
                ));
            }
        }
        i += 1;
    }
    proof {
        assert(ts.skip(tasks@.len() as int) =~= Seq::<TaskView>::empty());
        assert(content@ + Seq::<char>::empty() =~= content@);
    }
    content.append("\n");
    proof {
        assert(content@ =~= old(content)@ + (heading(st) + lines_for(ts, st) + "\n"@));
    }
}

/// Render the whole task list as the persisted text.
pub fn save_tasks(tasks: &Vec<Task>) -> (r: String)
    ensures
        r@ == render_tasks(views_of(tasks@)),
{
    let ghost ts = views_of(tasks@);
    let mut content = String::from_str("# \u{1f4cb} Task List\n\n");
    append_section(&mut content, tasks, Status::Working);
    append_section(&mut content, tasks, Status::Pending);
    append_section(&mut content, tasks, Status::Done);
    proof {
        assert(content@ =~= render_tasks(ts));
    }
    content
}

// ---------- the save / load round trip ----------

/// A description survives the save format untouched when it carries no line
/// feed and no leading or trailing whitespace.
pub open spec fn storable(t: TaskView) -> bool {
    &&& trim(t.description) == t.description
    &&& forall|k: int| 0 <= k < t.description.len() ==> t.description[k] != '\n'
}

/// The tasks of `ts` whose status is `st`, in order.
pub open spec fn with_status(ts: Seq<TaskView>, st: Status) -> Seq<TaskView>
    decreases ts.len(),
{
    if ts.len() == 0 {
        Seq::empty()
    } else {
        (if ts[0].status == st {
            seq![ts[0]]
        } else {
            Seq::empty()
        }) + with_status(ts.drop_first(), st)
    }
}

/// `ts` regrouped as loading the saved text yields it: the Working tasks,
/// then the Pending ones, then the Done ones, each group in original order.
pub open spec fn grouped(ts: Seq<TaskView>) -> Seq<TaskView> {
    with_status(ts, Status::Working) + with_status(ts, Status::Pending) + with_status(
        ts,
        Status::Done,
    )
}

proof fn lemma_line_len_props(s: Seq<char>)
    ensures
        line_len(s) <= s.len(),
        line_len(s) < s.len() ==> s[line_len(s) as int] == '\n',
        forall|k: int| 0 <= k < line_len(s) ==> s[k] != '\n',
    decreases s.len(),
{
    if s.len() > 0 && s[0] != '\n' {
        lemma_line_len_props(s.drop_first());
        assert forall|k: int| 0 <= k < line_len(s) implies s[k] != '\n' by {
            if k > 0 {
                assert(s.drop_first()[k - 1] == s[k]);
            }
        }
        if line_len(s) < s.len() {
            assert(s.drop_first()[line_len(s.drop_first()) as int] == s[line_len(s) as int]);
        }
    }
}

proof fn lemma_split_lines_concat(a: Seq<char>, b: Seq<char>)
    requires
        a.len() == 0 || a.last() == '\n',
    ensures
        split_lines(a + b) == split_lines(a) + split_lines(b),
    decreases a.len(),
{
    if a.len() == 0 {
        assert(a + b =~= b);
        assert(split_lines(a) + split_lines(b) =~= split_lines(b));
    } else {
        lemma_line_len_props(a);
        let m = line_len(a) as int;
        assert(m < a.len()) by {
            if m == a.len() {
                assert(a[a.len() - 1] != '\n');
            }
        }
        assert forall|k: int| 0 <= k < m implies (a + b)[k] != '\n' by {
            assert((a + b)[k] == a[k]);
        }
        assert((a + b)[m] == a[m]);
        lemma_line_len_at(a + b, m);
        let rest = a.skip(m + 1);
        assert((a + b).take(m) =~= a.take(m));
        assert((a + b).skip(m + 1) =~= rest + b);
        if rest.len() > 0 {
            assert(rest.last() == a.last());
        }
        lemma_split_lines_concat(rest, b);
        assert(seq![a.take(m)] + (split_lines(rest) + split_lines(b)) =~= (seq![a.take(m)]
            + split_lines(rest)) + split_lines(b));
    }
}

proof fn lemma_parse_lines_concat(l1: Seq<Seq<char>>, l2: Seq<Seq<char>>)
    ensures
        parse_lines(l1 + l2) == parse_lines(l1) + parse_lines(l2),
    decreases l1.len(),
{
    if l1.len() == 0 {
        assert(l1 + l2 =~= l2);
        assert(parse_lines(l1) + parse_lines(l2) =~= parse_lines(l2));
    } else {
        assert((l1 + l2)[0] == l1[0]);
        assert((l1 + l2).drop_first() =~= l1.drop_first() + l2);
        lemma_parse_lines_concat(l1.drop_first(), l2);
        assert(line_tasks(l1[0]) + (parse_lines(l1.drop_first()) + parse_lines(l2)) =~= (
        line_tasks(l1[0]) + parse_lines(l1.drop_first())) + parse_lines(l2));
    }
}

/// Parsing distributes over concatenation when the first part closes with a
/// line feed.
proof fn lemma_parse_content_concat(a: Seq<char>, b: Seq<char>)
    requires
        a.len() == 0 || a.last() == '\n',
    ensures
        parse_content(a + b) == parse_content(a) + parse_content(b),
{
    lemma_split_lines_concat(a, b);
    lemma_parse_lines_concat(split_lines(a), split_lines(b));
}

proof fn lemma_marker_shape(st: Status)
    ensures
        status_marker(st).len() == 6,
        forall|k: int| 0 <= k < 6 ==> status_marker(st)[k] != '\n',
        status_marker(st)[0] == '-',
        status_marker(st)[1] == ' ',
        status_marker(st)[2] == '[',
        status_marker(st)[4] == ']',
        status_marker(st)[5] == ' ',
        st == Status::Pending ==> status_marker(st)[3] == ' ',
        st == Status::Working ==> status_marker(st)[3] == '~',
        st == Status::Done ==> status_marker(st)[3] == 'x',
    {
    reveal_strlit("- [ ] ");
    reveal_strlit("- [~] ");
    reveal_strlit("- [x] ");
}

/// Parsing a text of exactly one line-feed-terminated line yields what that
/// line (without its line feed) yields.
proof fn lemma_single_line(h: Seq<char>)
    requires
        h.len() >= 1,
        h.last() == '\n',
        forall|k: int| 0 <= k < h.len() - 1 ==> h[k] != '\n',
    ensures
        parse_content(h) == line_tasks(h.take(h.len() - 1)),
{
    let n = h.len() as int;
    lemma_line_len_at(h, n - 1);
    assert(h.skip(n) =~= Seq::<char>::empty());
    assert(split_lines(h) == seq![h.take(n - 1)] + split_lines(Seq::<char>::empty()));
    assert(seq![h.take(n - 1)] + Seq::<Seq<char>>::empty() =~= seq![h.take(n - 1)]);
    lemma_parse_lines_cons(h.take(n - 1), Seq::empty());
    assert(line_tasks(h.take(n - 1)) + Seq::<TaskView>::empty() =~= line_tasks(h.take(n - 1)));
}

/// A saved checklist line reads back as exactly its task.
proof fn lemma_task_line_parses(t: TaskView)
    requires
        storable(t),
    ensures
        task_line(t).len() > 0,
        task_line(t).last() == '\n',
        parse_content(task_line(t)) == seq![t],
{
    reveal_strlit("\n");
    lemma_marker_shape(t.status);
    let m = status_marker(t.status);
    let d = t.description;
    let l = task_line(t);
    let ml = m + d;
    assert(l =~= ml + "\n"@);
    assert(l.last() == '\n');
    assert forall|k: int| 0 <= k < l.len() - 1 implies l[k] != '\n' by {
        if k < 6 {
            assert(l[k] == m[k]);
        } else {
            assert(l[k] == d[k - 6]);
        }
    }
    lemma_single_line(l);
    assert(l.take(l.len() - 1) =~= ml);
    if d.len() > 0 {
        lemma_trimmed_endpoints(d);
        assert(ml[0] == '-' && !is_space(ml[0]));
        assert(ml.last() == d.last());
        lemma_trim_trimmed(ml, 0, ml.len() as int);
        assert(ml.subrange(0, ml.len() as int) =~= ml);
        assert(is_task_line(ml));
        let rest = ml.skip(5);
        assert(rest[0] == ' ');
        assert forall|k: int| 1 <= k < rest.len() implies rest[k] == d[k - 1] by {
            assert(rest[k] == ml[k + 5]);
        }
        lemma_trim_trimmed(rest, 1, rest.len() as int);
        assert(rest.subrange(1, rest.len() as int) =~= d);
        assert(line_desc(ml) == d);
        assert(parse_line(ml) == Some(TaskView { description: d, status: t.status }));
        assert(TaskView { description: d, status: t.status } =~= t);
    } else {
        assert(ml =~= m);
        lemma_trim_trimmed(ml, 0, 5);
        let t5 = ml.subrange(0, 5);
        assert(trim(ml) == t5);
        assert(is_task_line(t5));
        assert(t5.len() == 5);
        assert(t5.skip(5) =~= Seq::<char>::empty());
        assert(line_desc(t5) == d);
        assert(parse_line(ml) == Some(TaskView { description: d, status: t.status }));
        assert(TaskView { description: d, status: t.status } =~= t);
    }
    assert(line_tasks(ml) =~= seq![t]);
}

proof fn lemma_heading_parses_empty(st: Status)
    ensures
        heading(st).len() >= 2,
        heading(st).last() == '\n',
        parse_content(heading(st)) == Seq::<TaskView>::empty(),
{
    reveal_strlit("## \u{1f6a7} Working\n");
    reveal_strlit("## \u{1f4cb} Pending\n");
    reveal_strlit("## \u{2705} Done\n");
    let h = heading(st);
    let n = h.len() as int;
    assert(h.last() == '\n');
    assert(forall|k: int| 0 <= k < n - 1 ==> h[k] != '\n');
    lemma_single_line(h);
    let hl = h.take(n - 1);
    assert(!is_space(hl[0]));
    assert(!is_space(hl[hl.len() - 1]));
    lemma_trim_trimmed(hl, 0, hl.len() as int);
    assert(hl.subrange(0, hl.len() as int) =~= hl);
    assert(hl[0] == '#');
    assert(!is_task_line(hl));
    assert(line_tasks(hl) =~= Seq::<TaskView>::empty());
}

proof fn lemma_header_parses_empty()
    ensures
        "# \u{1f4cb} Task List\n\n"@.len() > 0,
        "# \u{1f4cb} Task List\n\n"@.last() == '\n',
        parse_content("# \u{1f4cb} Task List\n\n"@) == Seq::<TaskView>::empty(),
{
    reveal_strlit("# \u{1f4cb} Task List\n\n");
    reveal_strlit("# \u{1f4cb} Task List\n");
    reveal_strlit("\n");
    let a = "# \u{1f4cb} Task List\n"@;
    let b = "\n"@;
    let h = "# \u{1f4cb} Task List\n\n"@;
    assert(h =~= a + b);
    lemma_parse_content_concat(a, b);
    lemma_single_line(a);
    let al = a.take(a.len() - 1);
    assert(!is_space(al[0]));
    assert(!is_space(al[al.len() - 1]));
    lemma_trim_trimmed(al, 0, al.len() as int);
    assert(al.subrange(0, al.len() as int) =~= al);
    assert(al[0] == '#');
    assert(!is_task_line(al));
    assert(line_tasks(al) =~= Seq::<TaskView>::empty());
    lemma_single_line(b);
    assert(b.take(0) =~= Seq::<char>::empty());
    assert(trim(Seq::<char>::empty()) == Seq::<char>::empty());
    assert(line_tasks(Seq::<char>::empty()) =~= Seq::<TaskView>::empty());
    assert(parse_content(h) =~= Seq::<TaskView>::empty());
}

proof fn lemma_blank_line_parses_empty()
    ensures
        "\n"@.len() == 1,
        "\n"@.last() == '\n',
        parse_content("\n"@) == Seq::<TaskView>::empty(),
{
    reveal_strlit("\n");
    let b = "\n"@;
    lemma_single_line(b);
    assert(b.take(0) =~= Seq::<char>::empty());
    assert(trim(Seq::<char>::empty()) == Seq::<char>::empty());
    assert(line_tasks(Seq::<char>::empty()) =~= Seq::<TaskView>::empty());
}

proof fn lemma_lines_for_parse(ts: Seq<TaskView>, st: Status)
    requires
        forall|i: int| 0 <= i < ts.len() ==> storable(ts[i]),
    ensures
        parse_content(lines_for(ts, st)) == with_status(ts, st),
        lines_for(ts, st).len() > 0 ==> lines_for(ts, st).last() == '\n',
    decreases ts.len(),
{
    if ts.len() == 0 {
    } else {
        let first = ts[0];
        let rest = ts.drop_first();
        assert forall|i: int| 0 <= i < rest.len() implies storable(rest[i]) by {
            assert(rest[i] == ts[i + 1]);
        }
        lemma_lines_for_parse(rest, st);
        if first.status == st {
            lemma_task_line_parses(first);
            lemma_parse_content_concat(task_line(first), lines_for(rest, st));
            assert(seq![first] + with_status(rest, st) == with_status(ts, st));
        } else {
            assert(lines_for(ts, st) == Seq::<char>::empty() + lines_for(rest, st));
            assert(Seq::<char>::empty() + lines_for(rest, st) =~= lines_for(rest, st));
            assert(Seq::<TaskView>::empty() + with_status(rest, st) =~= with_status(rest, st));
        }
    }
}

proof fn lemma_with_status_empty_iff(ts: Seq<TaskView>, st: Status)
    ensures
        with_status(ts, st).len() == 0 <==> !has_status(ts, st),
    decreases ts.len(),
{
    if ts.len() == 0 {
    } else {
        lemma_with_status_empty_iff(ts.drop_first(), st);
        if ts[0].status == st {
            assert(has_status(ts, st));
        } else {
            assert(Seq::<TaskView>::empty() + with_status(ts.drop_first(), st) =~= with_status(
                ts.drop_first(),
                st,
            ));
            if has_status(ts, st) {
                let i = choose|i: int| 0 <= i < ts.len() && ts[i].status == st;
                assert(ts.drop_first()[i - 1] == ts[i]);
                assert(has_status(ts.drop_first(), st));
            }
            if has_status(ts.drop_first(), st) {
                let i = choose|i: int| 0 <= i < ts.drop_first().len() && ts.drop_first()[i].status
                    == st;
                assert(ts[i + 1] == ts.drop_first()[i]);
                assert(has_status(ts, st));
            }
        }
    }
}

proof fn lemma_section_parse(ts: Seq<TaskView>, st: Status)
    requires
        forall|i: int| 0 <= i < ts.len() ==> storable(ts[i]),
    ensures
        parse_content(section(ts, st)) == with_status(ts, st),
        section(ts, st).len() > 0 ==> section(ts, st).last() == '\n',
{
    lemma_with_status_empty_iff(ts, st);
    if has_status(ts, st) {
        lemma_heading_parses_empty(st);
        lemma_lines_for_parse(ts, st);
        lemma_blank_line_parses_empty();
        let h = heading(st);
        let lf = lines_for(ts, st);
        lemma_parse_content_concat(h, lf);
        assert((h + lf).last() == '\n') by {
            if lf.len() > 0 {
                assert((h + lf).last() == lf.last());
            } else {
                assert(h + lf =~= h);
            }
        }
        lemma_parse_content_concat(h + lf, "\n"@);
        assert(section(ts, st) =~= (h + lf) + "\n"@);
        assert(parse_content(section(ts, st)) =~= with_status(ts, st));
    } else {
        assert(section(ts, st) == Seq::<char>::empty());
        assert(parse_content(Seq::<char>::empty()) == Seq::<TaskView>::empty());
        assert(with_status(ts, st) =~= Seq::<TaskView>::empty());
    }
}

/// Saving and loading round-trip: parsing the rendered text yields exactly
/// the original tasks regrouped by status — the Working tasks, then the
/// Pending ones, then the Done ones, each group keeping its original order
/// and every description and status preserved exactly.
pub proof fn lemma_save_load_round_trip(ts: Seq<TaskView>)
    requires
        forall|i: int| 0 <= i < ts.len() ==> storable(ts[i]),
    ensures
        parse_content(render_tasks(ts)) == grouped(ts),
{
    lemma_header_parses_empty();
    lemma_section_parse(ts, Status::Working);
    lemma_section_parse(ts, Status::Pending);
    lemma_section_parse(ts, Status::Done);
    let h = "# \u{1f4cb} Task List\n\n"@;
    let w = section(ts, Status::Working);
    let p = section(ts, Status::Pending);
    let d = section(ts, Status::Done);
    lemma_parse_content_concat(h, w);
    assert((h + w).len() > 0 && (h + w).last() == '\n') by {
        if w.len() > 0 {
            assert((h + w).last() == w.last());
        } else {
            assert(h + w =~= h);
        }
    }
    lemma_parse_content_concat(h + w, p);
    assert(((h + w) + p).len() > 0 && ((h + w) + p).last() == '\n') by {
        if p.len() > 0 {
            assert(((h + w) + p).last() == p.last());
        } else {
            assert((h + w) + p =~= h + w);
        }
    }
    lemma_parse_content_concat((h + w) + p, d);
    assert(render_tasks(ts) =~= ((h + w) + p) + d);
    assert(parse_content(render_tasks(ts)) =~= grouped(ts));
}


/// The regrouped list is a permutation: it holds the same multiset of tasks
/// as the original.
pub proof fn lemma_grouped_same_multiset(ts: Seq<TaskView>)
    ensures
        grouped(ts).to_multiset() == ts.to_multiset(),
    decreases ts.len(),
{
    broadcast use vstd::seq_lib::group_to_multiset_ensures;

    if ts.len() == 0 {
        assert(grouped(ts) =~= Seq::<TaskView>::empty());
    } else {
        let h = ts[0];
        let rest = ts.drop_first();
        lemma_grouped_same_multiset(rest);
        assert(ts =~= seq![h] + rest);
        vstd::seq_lib::lemma_multiset_commutative(seq![h], rest);
        assert(seq![h] =~= Seq::<TaskView>::empty().push(h));
        assert(seq![h].to_multiset() =~= Multiset::<TaskView>::empty().insert(h));
        let ww = with_status(rest, Status::Working);
        let wp = with_status(rest, Status::Pending);
        let wd = with_status(rest, Status::Done);
        vstd::seq_lib::lemma_multiset_commutative(ww + wp, wd);
        vstd::seq_lib::lemma_multiset_commutative(ww, wp);
        match h.status {
            Status::Working => {
                assert(with_status(ts, Status::Working) == seq![h] + ww);
                assert(with_status(ts, Status::Pending) =~= wp);
                assert(with_status(ts, Status::Done) =~= wd);
                vstd::seq_lib::lemma_multiset_commutative((seq![h] + ww) + wp, wd);
                vstd::seq_lib::lemma_multiset_commutative(seq![h] + ww, wp);
                vstd::seq_lib::lemma_multiset_commutative(seq![h], ww);
                assert(grouped(ts).to_multiset() =~= ts.to_multiset());
            },
            Status::Pending => {
                assert(with_status(ts, Status::Working) =~= ww);
                assert(with_status(ts, Status::Pending) == seq![h] + wp);
                assert(with_status(ts, Status::Done) =~= wd);
                vstd::seq_lib::lemma_multiset_commutative(ww + (seq![h] + wp), wd);
                vstd::seq_lib::lemma_multiset_commutative(ww, seq![h] + wp);
                vstd::seq_lib::lemma_multiset_commutative(seq![h], wp);
                assert(grouped(ts).to_multiset() =~= ts.to_multiset());
            },
            Status::Done => {
                assert(with_status(ts, Status::Working) =~= ww);
                assert(with_status(ts, Status::Pending) =~= wp);
                assert(with_status(ts, Status::Done) == seq![h] + wd);
                vstd::seq_lib::lemma_multiset_commutative(ww + wp, seq![h] + wd);
                vstd::seq_lib::lemma_multiset_commutative(seq![h], wd);
                assert(grouped(ts).to_multiset() =~= ts.to_multiset());
            },
        }
    }
}


// ---------- where a task stands in the saved text ----------

/// The checklist line of the `k`-th task stands whole somewhere in the lines
/// of its status group.
pub proof fn lemma_lines_for_contains(ts: Seq<TaskView>, st: Status, k: int)
    requires
        0 <= k < ts.len(),
        ts[k].status == st,
    ensures
        exists|i: int|
            0 <= i && i + task_line(ts[k]).len() <= lines_for(ts, st).len() && (#[trigger] lines_for(
                ts,
                st,
            ).subrange(i, i + task_line(ts[k]).len() as int)) == task_line(ts[k]),
    decreases ts.len(),
{
    let l = task_line(ts[k]);
    let first = if ts[0].status == st {
        task_line(ts[0])
    } else {
        Seq::<char>::empty()
    };
    let rest = ts.drop_first();
    if k == 0 {
        assert(lines_for(ts, st).subrange(0, 0 + l.len() as int) =~= l);
        assert(0 + l.len() <= lines_for(ts, st).len());
    } else {
        assert(rest[k - 1] == ts[k]);
        lemma_lines_for_contains(rest, st, k - 1);
        let i0 = choose|i: int|
            0 <= i && i + l.len() <= lines_for(rest, st).len() && (#[trigger] lines_for(
                rest,
                st,
            ).subrange(i, i + l.len() as int)) == l;
        let i1 = first.len() as int + i0;
        assert(lines_for(ts, st).subrange(i1, i1 + l.len() as int) =~= lines_for(
            rest,
            st,
        ).subrange(i0, i0 + l.len() as int));
        assert(i1 + l.len() <= lines_for(ts, st).len());
    }
}

/// The section of a task's status opens with that status's heading and holds
/// the task's checklist line whole, after the heading.
pub proof fn lemma_section_contains(ts: Seq<TaskView>, st: Status, k: int)
    requires
        0 <= k < ts.len(),
        ts[k].status == st,
    ensures
        section(ts, st).len() >= heading(st).len(),
        section(ts, st).take(heading(st).len() as int) == heading(st),
        exists|i: int|
            heading(st).len() <= i && i + task_line(ts[k]).len() <= section(ts, st).len()
                && (#[trigger] section(ts, st).subrange(i, i + task_line(ts[k]).len() as int))
                == task_line(ts[k]),
{
    assert(has_status(ts, st));
    lemma_lines_for_contains(ts, st, k);
    let l = task_line(ts[k]);
    let h = heading(st);
    let lf = lines_for(ts, st);
    let i0 = choose|i: int|
        0 <= i && i + l.len() <= lf.len() && (#[trigger] lf.subrange(i, i + l.len() as int)) == l;
    assert(section(ts, st).take(h.len() as int) =~= h);
    let i1 = h.len() as int + i0;
    assert(section(ts, st).subrange(i1, i1 + l.len() as int) =~= lf.subrange(
        i0,
        i0 + l.len() as int,
    ));
}

/// A status some task carries has its whole section standing in the saved
/// text.
pub proof fn lemma_render_contains_section(ts: Seq<TaskView>, st: Status)
    requires
        has_status(ts, st),
    ensures
        exists|a: int|
            0 <= a && a + section(ts, st).len() <= render_tasks(ts).len() && (#[trigger] render_tasks(
                ts,
            ).subrange(a, a + section(ts, st).len() as int)) == section(ts, st),
{
    let h = "# \u{1f4cb} Task List\n\n"@;
    let w = section(ts, Status::Working);
    let p = section(ts, Status::Pending);
    let d = section(ts, Status::Done);
    match st {
        Status::Working => {
            let a = h.len() as int;
            assert(render_tasks(ts).subrange(a, a + w.len() as int) =~= w);
        },
        Status::Pending => {
            let a = h.len() as int + w.len() as int;
            assert(render_tasks(ts).subrange(a, a + p.len() as int) =~= p);
        },
        Status::Done => {
            let a = h.len() as int + w.len() as int + p.len() as int;
            assert(render_tasks(ts).subrange(a, a + d.len() as int) =~= d);
        },
    }
}

} // verus!
