//! Plain exports of task lists: CSV, a markdown checklist, a one-line banner,
//! and the highest priority present.

use vstd::prelude::*;
use crate::seqs::{concat_map, count_where, lemma_concat_map_take_step, lemma_count_take_step, lemma_count_le_len};
use crate::task::{Task, Priority, is_done};
use crate::text::{decimal, push_decimal};

verus! {

/// How `{}` prints a boolean.
pub open spec fn bool_text(b: bool) -> Seq<char> {
    if b { "true"@ } else { "false"@ }
}

/// One CSV row: "id,title,Priority,done\n".
pub open spec fn csv_row(t: Task) -> Seq<char> {
    decimal(t.id as nat) + ","@ + t.title@ + ","@ + t.priority.debug_name() + ","@ + bool_text(t.done)
        + "\n"@
}

/// The CSV rendering of `s`: a header row, then one row per task.
pub open spec fn csv_text(s: Seq<Task>) -> Seq<char> {
    "id,title,priority,done\n"@ + concat_map(s, |t: Task| csv_row(t))
}

/// One checklist line: "- [x] title\n" for a done task, "- [ ] title\n" otherwise.
pub open spec fn checklist_line(t: Task) -> Seq<char> {
    "- ["@ + (if t.done { "x"@ } else { " "@ }) + "] "@ + t.title@ + "\n"@
}

/// The markdown checklist of `s`.
pub open spec fn checklist_text(s: Seq<Task>) -> Seq<char> {
    concat_map(s, |t: Task| checklist_line(t))
}

/// The highest priority among the tasks of `s`; `Low` when there is none.
pub open spec fn top_priority(s: Seq<Task>) -> Priority
    decreases s.len(),
{
    if s.len() == 0 {
        Priority::Low
    } else {
        let rest = top_priority(s.drop_last());
        if s.last().priority.rank() > rest.rank() {
            s.last().priority
        } else {
            rest
        }
    }
}

/// The top priority is at least as high as every task's, and is the priority
/// of some task unless it is the `Low` of an empty list.
pub proof fn lemma_top_priority_is_highest(s: Seq<Task>)
    ensures
        forall|i: int| 0 <= i < s.len() ==> #[trigger] s[i].priority.rank() <= top_priority(s).rank(),
        s.len() > 0 ==> exists|i: int| 0 <= i < s.len() && #[trigger] s[i].priority == top_priority(s),
    decreases s.len(),
{
    if s.len() > 0 {
        let prev = s.drop_last();
        lemma_top_priority_is_highest(prev);
        assert forall|i: int| 0 <= i < s.len() implies #[trigger] s[i].priority.rank() <= top_priority(s).rank() by {
            if i < s.len() - 1 {
                assert(prev[i] == s[i]);
            }
        }
        if s.last().priority.rank() > top_priority(prev).rank() {
            assert(s[s.len() - 1].priority == top_priority(s));
        } else if prev.len() > 0 {
            let i = choose|i: int| 0 <= i < prev.len() && #[trigger] prev[i].priority == top_priority(prev);
            assert(s[i].priority == top_priority(s));
        } else {
            assert(s[0].priority.rank() >= 1);
            assert(s[0].priority == Priority::Low);
        }
    }
}

/// The banner's percentage never exceeds 100.
pub proof fn lemma_banner_percent_at_most_100(s: Seq<Task>)
    requires
        s.len() > 0,
    ensures
        count_where(s, is_done()) * 100 / s.len() <= 100,
{
    lemma_count_le_len(s, is_done());
    let d = count_where(s, is_done());
    let n = s.len();
    assert(d * 100 <= n * 100) by (nonlinear_arith)
        requires
            d <= n,
    ;
    assert(d * 100 / n <= 100) by (nonlinear_arith)
        requires
            d * 100 <= n * 100,
            n > 0,
    ;
}

/// Appends "true" or "false".
fn push_bool(s: &mut String, b: bool)
    ensures
        final(s)@ == old(s)@ + bool_text(b),
{
    if b {
        s.append("true");
    } else {
        s.append("false");
    }
}

/// Renders tasks as CSV with the columns id, title, priority and done.
pub fn to_csv(tasks: &[Task]) -> (out: String)
    ensures
        out@ == csv_text(tasks@),
{
    let mut out = String::from_str("id,title,priority,done\n");
    let ghost f = |t: Task| csv_row(t);
    let mut i: usize = 0;
    while i < tasks.len()
        invariant
            f == (|t: Task| csv_row(t)),
            i <= tasks@.len(),
            out@ == "id,title,priority,done\n"@ + concat_map(tasks@.take(i as int), f),
        decreases tasks@.len() - i,
    {
        let task = &tasks[i];
        proof {
            lemma_concat_map_take_step(tasks@, i as int, f);
        }
        let ghost before = out@;
        push_decimal(&mut out, task.id);
        out.append(",");
        out.append(task.title.as_str());
        out.append(",");
        out.append(task.priority.name());
        out.append(",");
        push_bool(&mut out, task.done);
        out.append("\n");
        assert(out@ =~= before + csv_row(*task));
        i += 1;
    }
    assert(tasks@.take(i as int) =~= tasks@);
    out
}

/// Renders tasks as a markdown checklist.
pub fn to_markdown(tasks: &[Task]) -> (out: String)
    ensures
        out@ == checklist_text(tasks@),
{
    let mut out = String::new();
    let ghost f = |t: Task| checklist_line(t);
    let mut i: usize = 0;
    while i < tasks.len()
        invariant
            f == (|t: Task| checklist_line(t)),
            i <= tasks@.len(),
            out@ == concat_map(tasks@.take(i as int), f),
        decreases tasks@.len() - i,
    {
        let task = &tasks[i];
        proof {
            lemma_concat_map_take_step(tasks@, i as int, f);
        }
        let ghost before = out@;
        let check = if task.done { "x" } else { " " };
        out.append("- [");
        out.append(check);
        out.append("] ");
        out.append(task.title.as_str());
        out.append("\n");
        assert(out@ =~= before + checklist_line(*task));
        i += 1;
    }
    assert(tasks@.take(i as int) =~= tasks@);
    out
}

/// How many of `tasks` are done.
pub fn count_done(tasks: &[Task]) -> (n: usize)
    ensures
        n == count_where(tasks@, is_done()),
{
    let mut n: usize = 0;
    let mut i: usize = 0;
    while i < tasks.len()
        invariant
            i <= tasks@.len(),
            n == count_where(tasks@.take(i as int), is_done()),
            n <= i,
        decreases tasks@.len() - i,
    {
        proof {
            lemma_count_take_step(tasks@, i as int, is_done());
        }
        if tasks[i].done {
            n += 1;
        }
        i += 1;
    }
    assert(tasks@.take(i as int) =~= tasks@);
    n
}

/// "D/T done (P%)" where P is the whole percentage of done tasks, rounded down.
/// There must be at least one task.
pub fn summary_banner(tasks: &[Task]) -> (s: String)
    requires
        tasks@.len() > 0,
        count_where(tasks@, is_done()) * 100 <= usize::MAX,
    ensures
        s@ == decimal(count_where(tasks@, is_done())) + "/"@ + decimal(tasks@.len()) + " done ("@
            + decimal(count_where(tasks@, is_done()) * 100 / tasks@.len()) + "%)"@,
{
    let total = tasks.len();
    let done = count_done(tasks);
    let pct = (done * 100) / total;
    let mut s = String::new();
    push_decimal(&mut s, done as u64);
    s.append("/");
    push_decimal(&mut s, total as u64);
    s.append(" done (");
    push_decimal(&mut s, pct as u64);
    s.append("%)");
    s
}

/// The `{:?}` name of the highest priority among the tasks ("Low" when empty).
pub fn top_priority_label(tasks: &[Task]) -> (s: String)
    ensures
        s@ == top_priority(tasks@).debug_name(),
{
    let mut best = Priority::Low;
    let mut i: usize = 0;
    while i < tasks.len()
        invariant
            i <= tasks@.len(),
            best == top_priority(tasks@.take(i as int)),
        decreases tasks@.len() - i,
    {
        proof {
            assert(tasks@.take(i + 1).drop_last() =~= tasks@.take(i as int));
        }
        if tasks[i].priority.numeric_value() > best.numeric_value() {
            best = tasks[i].priority;
        }
        i += 1;
    }
    assert(tasks@.take(i as int) =~= tasks@);
    String::from_str(best.name())
}

} // verus!
