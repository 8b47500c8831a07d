//! The daily report, a time estimate for the remaining work, and the spread
//! of tasks over priorities.

use vstd::prelude::*;
use crate::seqs::{concat_map, count_where, lemma_concat_map_take_step};
use crate::task::{Task, Priority, has_priority, is_pending, tag_views};
use crate::text::{byte_length, joined};

verus! {

/// What a report shows.
pub struct ReportOptions {
    pub include_done: bool,
    pub yell_about_critical: bool,
    pub max_lines: usize,
}

impl ReportOptions {
    /// Pending tasks only, critical ones flagged, 25 lines.
    pub fn default() -> (o: ReportOptions)
        ensures
            !o.include_done,
            o.yell_about_critical,
            o.max_lines == 25,
    {
        ReportOptions { include_done: false, yell_about_critical: true, max_lines: 25 }
    }
}

/// A task that a report with these options shows.
pub open spec fn shown_in_report(include_done: bool) -> spec_fn(Task) -> bool {
    |t: Task| !t.done || include_done
}

/// The report line of one task: "- ", "!!! " for a critical task when asked
/// to, the title, and its tags in brackets when it has any.
pub open spec fn report_line(t: Task, yell: bool) -> Seq<char> {
    "- "@ + (if t.priority == Priority::Critical && yell { "!!! "@ } else { ""@ }) + t.title@ + (if t.tags@.len() > 0 {
        " ["@ + joined(tag_views(t.tags@), ", "@) + "]"@
    } else {
        ""@
    }) + "\n"@
}

/// The report of `s` with these options.
pub open spec fn report_text(s: Seq<Task>, include_done: bool, yell: bool) -> Seq<char> {
    let shown = s.filter(shown_in_report(include_done));
    "Tasks for today\n================\n"@ + concat_map(shown, |t: Task| report_line(t, yell)) + (if shown.len()
        == 0 {
        "Nothing to do, somehow\n"@
    } else {
        ""@
    })
}

/// The minutes a task is estimated to take: by priority 10, 25, 45 or 90, plus
/// 5 per tag (the tag count taken as a `u32`), plus 15 when it has a description;
/// nothing when it is done.
pub open spec fn task_minutes(t: Task) -> int {
    if t.done {
        0
    } else {
        (match t.priority {
            Priority::Low => 10int,
            Priority::Medium => 25int,
            Priority::High => 45int,
            Priority::Critical => 90int,
        }) + 5 * ((t.tags@.len() as u32) as int) + (if t.description@.len() > 0 { 15int } else { 0int })
    }
}

/// The estimated minutes of all tasks of `s`.
pub open spec fn minutes_left(s: Seq<Task>) -> int
    decreases s.len(),
{
    if s.len() == 0 {
        0
    } else {
        minutes_left(s.drop_last()) + task_minutes(s.last())
    }
}

/// The estimate of a prefix is no more than the estimate of the whole.
proof fn lemma_minutes_prefix(s: Seq<Task>, k: int)
    requires
        0 <= k <= s.len(),
    ensures
        0 <= minutes_left(s.take(k)) <= minutes_left(s.take(s.len() as int)),
    decreases s.len() - k,
{
    if k < s.len() {
        lemma_minutes_prefix(s, k + 1);
        assert(s.take(k + 1).drop_last() =~= s.take(k));
    }
    lemma_minutes_nonneg(s.take(k));
}

proof fn lemma_minutes_nonneg(s: Seq<Task>)
    ensures
        minutes_left(s) >= 0,
    decreases s.len(),
{
    if s.len() > 0 {
        lemma_minutes_nonneg(s.drop_last());
    }
}

/// Done tasks take no time: the estimate of a list is the estimate of its
/// pending tasks alone, a list of done tasks estimates 0, and no task adds a
/// negative amount.
pub proof fn lemma_done_tasks_take_no_time(s: Seq<Task>)
    ensures
        minutes_left(s) == minutes_left(s.filter(is_pending())),
        (forall|i: int| 0 <= i < s.len() ==> (#[trigger] s[i]).done) ==> minutes_left(s) == 0,
        forall|i: int| 0 <= i < s.len() ==> task_minutes(#[trigger] s[i]) >= 0,
    decreases s.len(),
{
    if s.len() > 0 {
        let p = s.drop_last();
        let x = s.last();
        lemma_done_tasks_take_no_time(p);
        assert(p.push(x) =~= s);
        p.lemma_filter_push(x, is_pending());
        let f = p.filter(is_pending());
        assert(f.push(x).drop_last() =~= f);
        if forall|i: int| 0 <= i < s.len() ==> (#[trigger] s[i]).done {
            assert forall|i: int| 0 <= i < p.len() implies (#[trigger] p[i]).done by {
                assert(p[i] == s[i]);
            }
            assert(s[s.len() - 1].done);
        }
        assert forall|i: int| 0 <= i < s.len() implies task_minutes(#[trigger] s[i]) >= 0 by {
            if i < p.len() {
                assert(p[i] == s[i]);
            }
        }
    } else {
        assert(s.filter(is_pending()) =~= s) by {
            reveal(Seq::filter);
        }
    }
}

/// The report says "Nothing to do, somehow" when it shows no task: for a list
/// of done tasks, with done tasks left out, the report is the heading and
/// that line alone, whatever the list holds.
pub proof fn lemma_nothing_to_do_when_all_done(s: Seq<Task>, yell: bool)
    requires
        forall|i: int| 0 <= i < s.len() ==> (#[trigger] s[i]).done,
    ensures
        report_text(s, false, yell) == "Tasks for today\n================\n"@ + "Nothing to do, somehow\n"@,
{
    assert forall|i: int| 0 <= i < s.len() implies !shown_in_report(false)(#[trigger] s[i]) by {
    }
    crate::seqs::lemma_count_none(s, shown_in_report(false));
    reveal_strlit("");
    assert(concat_map(Seq::<Task>::empty(), |t: Task| report_line(t, yell)) =~= Seq::<char>::empty());
    assert(report_text(s, false, yell) =~= "Tasks for today\n================\n"@ + "Nothing to do, somehow\n"@);
}

/// A report that shows some task lists it and does not say "Nothing to do":
/// it is the heading followed by the shown tasks' lines, and each shown task
/// is pending unless done tasks are included.
pub proof fn lemma_report_lists_shown_tasks(s: Seq<Task>, include_done: bool, yell: bool)
    requires
        exists|i: int| 0 <= i < s.len() && (include_done || !(#[trigger] s[i]).done),
    ensures
        report_text(s, include_done, yell) == "Tasks for today\n================\n"@ + concat_map(
            s.filter(shown_in_report(include_done)),
            |t: Task| report_line(t, yell),
        ),
        forall|k: int|
            0 <= k < s.filter(shown_in_report(include_done)).len() ==> include_done || !(
            #[trigger] s.filter(shown_in_report(include_done))[k]).done,
{
    broadcast use vstd::seq_lib::group_filter_ensures;
    let i = choose|i: int| 0 <= i < s.len() && (include_done || !(#[trigger] s[i]).done);
    assert(shown_in_report(include_done)(s[i]));
    assert(s.filter(shown_in_report(include_done)).contains(s[i]));
    reveal_strlit("");
    let f = s.filter(shown_in_report(include_done));
    assert forall|k: int| 0 <= k < f.len() implies include_done || !(#[trigger] f[k]).done by {
        assert(shown_in_report(include_done)(f[k]));
    }
    assert(report_text(s, include_done, yell) =~= "Tasks for today\n================\n"@ + concat_map(
        f,
        |t: Task| report_line(t, yell),
    ));
}

/// The report with the default options.
pub fn daily_report(tasks: &Vec<Task>) -> (s: String)
    ensures
        s@ == report_text(tasks@, false, true),
{
    build_report(tasks, ReportOptions::default())
}

fn push_tags(line: &mut String, tags: &Vec<String>)
    requires
        tags@.len() > 0,
    ensures
        final(line)@ == old(line)@ + " ["@ + joined(tag_views(tags@), ", "@) + "]"@,
{
    let ghost tv = tag_views(tags@);
    line.append(" [");
    let ghost head = line@;
    let mut i: usize = 0;
    while i < tags.len()
        invariant
            tv == tag_views(tags@),
            i <= tags@.len(),
            line@ == head + joined(tv.take(i as int), ", "@) + (if 0 < i < tags@.len() { ", "@ } else { Seq::<char>::empty() }),
        decreases tags@.len() - i,
    {
        let ghost before = line@;
        line.append(tags[i].as_str());
        if i + 1 < tags.len() {
            line.append(", ");
        }
        proof {
            assert(tv.take(i + 1).drop_last() =~= tv.take(i as int));
            assert(tv[i as int] == tags@[i as int]@);
            if i == 0 {
                assert(tv.take(1) =~= seq![tv[0]]);
            }
            assert(line@ =~= head + joined(tv.take(i + 1), ", "@) + (if 0 < i + 1 < tags@.len() { ", "@ } else { Seq::<char>::empty() }));
        }
        i += 1;
    }
    line.append("]");
    assert(tv.take(i as int) =~= tv);
    assert(line@ =~= old(line)@ + " ["@ + joined(tag_views(tags@), ", "@) + "]"@);
}

fn push_report_line(output: &mut String, task: &Task, yell: bool)
    ensures
        final(output)@ == old(output)@ + report_line(*task, yell),
{
    let mut line = String::new();
    line.append("- ");
    if task.priority == Priority::Critical && yell {
        line.append("!!! ");
    }
    line.append(task.title.as_str());
    if task.tags.len() > 0 {
        push_tags(&mut line, &task.tags);
    }
    output.append(line.as_str());
    output.append("\n");
    proof {
        reveal_strlit("");
        assert(output@ =~= old(output)@ + report_line(*task, yell));
    }
}

/// "Tasks for today", a rule, then one line per shown task (pending ones,
/// and done ones when `include_done`), or "Nothing to do, somehow" when no
/// task is shown.
pub fn build_report(tasks: &Vec<Task>, options: ReportOptions) -> (s: String)
    ensures
        s@ == report_text(tasks@, options.include_done, options.yell_about_critical),
{
    let ghost pred = shown_in_report(options.include_done);
    let ghost f = |t: Task| report_line(t, options.yell_about_critical);
    let mut output = String::from_str("Tasks for today\n================\n");
    let ghost head = output@;
    let mut shown: usize = 0;
    let mut i: usize = 0;
    while i < tasks.len()
        invariant
            pred == shown_in_report(options.include_done),
            f == (|t: Task| report_line(t, options.yell_about_critical)),
            i <= tasks@.len(),
            output@ == head + concat_map(tasks@.take(i as int).filter(pred), f),
            shown == tasks@.take(i as int).filter(pred).len(),
            shown <= i,
        decreases tasks@.len() - i,
    {
        let task = &tasks[i];
        let ghost prefix = tasks@.take(i as int).filter(pred);
        proof {
            assert(tasks@.take(i + 1) =~= tasks@.take(i as int).push(*task));
            tasks@.take(i as int).lemma_filter_push(*task, pred);
        }
        if task.done && !options.include_done {
            i += 1;
            continue;
        }
        proof {
            lemma_concat_map_take_step(prefix.push(*task), prefix.len() as int, f);
            assert(prefix.push(*task).take(prefix.len() as int) =~= prefix);
            assert(prefix.push(*task).take((prefix.len() + 1) as int) =~= prefix.push(*task));
        }
        push_report_line(&mut output, task, options.yell_about_critical);
        shown += 1;
        i += 1;
    }
    assert(tasks@.take(i as int) =~= tasks@);
    if shown == 0 {
        output.append("Nothing to do, somehow\n");
    }
    proof {
        reveal_strlit("");
        assert(output@ =~= report_text(tasks@, options.include_done, options.yell_about_critical));
    }
    output
}

/// The estimated minutes of work left on the pending tasks.
pub fn estimate_minutes_left(tasks: &Vec<Task>) -> (m: u32)
    requires
        minutes_left(tasks@) <= u32::MAX,
    ensures
        m == minutes_left(tasks@),
{
    proof {
        assert forall|k: int| 0 <= k <= tasks@.len() implies minutes_left(#[trigger] tasks@.take(k)) <= u32::MAX by {
            lemma_minutes_prefix(tasks@, k);
            assert(tasks@.take(tasks@.len() as int) =~= tasks@);
        }
    }
    let mut minutes: u32 = 0;
    let mut i: usize = 0;
    while i < tasks.len()
        invariant
            i <= tasks@.len(),
            minutes == minutes_left(tasks@.take(i as int)),
            forall|k: int| 0 <= k <= tasks@.len() ==> minutes_left(#[trigger] tasks@.take(k)) <= u32::MAX,
        decreases tasks@.len() - i,
    {
        let task = &tasks[i];
        proof {
            assert(tasks@.take(i + 1).drop_last() =~= tasks@.take(i as int));
            assert(minutes_left(tasks@.take(i + 1)) <= u32::MAX);
        }
        if task.done {
            i += 1;
            continue;
        }
        minutes += match task.priority {
            Priority::Low => 10,
            Priority::Medium => 25,
            Priority::High => 45,
            Priority::Critical => 90,
        };
        minutes += (task.tags.len() as u32) * 5;
        if byte_length(task.description.as_str()) > 0 {
            minutes += 15;
        }
        i += 1;
    }
    assert(tasks@.take(i as int) =~= tasks@);
    minutes
}

/// How many tasks have each priority, as ("low", n), ("medium", n),
/// ("high", n), ("critical", n).
pub fn priority_spread(tasks: &Vec<Task>) -> (r: Vec<(String, usize)>)
    ensures
        r@.len() == 4,
        r@[0].0@ == "low"@ && r@[0].1 == count_where(tasks@, has_priority(Priority::Low)),
        r@[1].0@ == "medium"@ && r@[1].1 == count_where(tasks@, has_priority(Priority::Medium)),
        r@[2].0@ == "high"@ && r@[2].1 == count_where(tasks@, has_priority(Priority::High)),
        r@[3].0@ == "critical"@ && r@[3].1 == count_where(tasks@, has_priority(Priority::Critical)),
{
    let (low, medium, high, critical) = crate::stats::priority_breakdown(tasks.as_slice());
    let mut counts: Vec<(String, usize)> = Vec::new();
    counts.push((String::from_str("low"), low));
    counts.push((String::from_str("medium"), medium));
    counts.push((String::from_str("high"), high));
    counts.push((String::from_str("critical"), critical));
    counts
}

} // verus!
