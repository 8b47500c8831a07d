//! Text reports over task lists: a per-priority summary, the most urgent
//! pending tasks, and the tag distribution.

use vstd::prelude::*;
use crate::seqs::{count_where, dedup, deref_all, lemma_dedup_props, lemma_dedup_take_step};
use crate::stats::{
    all_tags, counts_view, lemma_all_tags_prefix, lemma_tally_bounded, lemma_task_tag_sets_len, priority_breakdown,
    tally, tally_step, task_tag_sets,
};
use crate::task::{Task, Priority, has_priority, is_done, is_pending, tag_views};
use crate::text::{decimal, push_decimal, str_eq};
use crate::urgency::{sort_by_urgency, urgency_sorted};

verus! {

/// The report line for priority `p` when `n` tasks have it: "  Name: n\n", or
/// nothing when `n` is 0.
pub open spec fn priority_count_line(p: Priority, n: nat) -> Seq<char> {
    if n > 0 {
        "  "@ + p.debug_name() + ": "@ + decimal(n) + "\n"@
    } else {
        Seq::empty()
    }
}

/// The summary report of `s`: totals, then the count of each priority present,
/// from `Critical` down to `Low`.
pub open spec fn summary_report_text(s: Seq<Task>) -> Seq<char> {
    "Report: "@ + decimal(s.len()) + " tasks ("@ + decimal(count_where(s, is_done())) + " done)\n"@
        + priority_count_line(Priority::Critical, count_where(s, has_priority(Priority::Critical)))
        + priority_count_line(Priority::High, count_where(s, has_priority(Priority::High)))
        + priority_count_line(Priority::Medium, count_where(s, has_priority(Priority::Medium)))
        + priority_count_line(Priority::Low, count_where(s, has_priority(Priority::Low)))
}

fn push_priority_count(out: &mut String, p: Priority, n: usize)
    ensures
        final(out)@ == old(out)@ + priority_count_line(p, n as nat),
{
    if n > 0 {
        out.append("  ");
        out.append(p.name());
        out.append(": ");
        push_decimal(out, n as u64);
        out.append("\n");
    }
    assert(out@ =~= old(out)@ + priority_count_line(p, n as nat));
}

/// "Report: N tasks (D done)" followed by one line per priority present,
/// from `Critical` down to `Low`.
pub fn summary_report(tasks: &[Task]) -> (s: String)
    ensures
        s@ == summary_report_text(tasks@),
{
    let total = tasks.len();
    let done = crate::export::count_done(tasks);
    let (low, medium, high, critical) = priority_breakdown(tasks);
    let mut out = String::from_str("Report: ");
    push_decimal(&mut out, total as u64);
    out.append(" tasks (");
    push_decimal(&mut out, done as u64);
    out.append(" done)\n");
    push_priority_count(&mut out, Priority::Critical, critical);
    push_priority_count(&mut out, Priority::High, high);
    push_priority_count(&mut out, Priority::Medium, medium);
    push_priority_count(&mut out, Priority::Low, low);
    out
}

/// At most `n` pending tasks, most urgent first (a stable sort by urgency).
pub fn top_urgent(tasks: &[Task], n: usize) -> (r: Vec<&Task>)
    ensures
        exists|sorted: Seq<Task>|
            urgency_sorted(tasks@.filter(is_pending()), sorted) && deref_all(r@) == sorted.take(
                if n < sorted.len() { n as int } else { sorted.len() as int },
            ),
{
    let mut pending: Vec<&Task> = Vec::new();
    let mut i: usize = 0;
    while i < tasks.len()
        invariant
            i <= tasks@.len(),
            deref_all(pending@) == tasks@.take(i as int).filter(is_pending()),
        decreases tasks@.len() - i,
    {
        proof {
            assert(tasks@.take(i + 1) =~= tasks@.take(i as int).push(tasks@[i as int]));
            tasks@.take(i as int).lemma_filter_push(tasks@[i as int], is_pending());
        }
        let ghost before = pending@;
        if !tasks[i].done {
            pending.push(&tasks[i]);
            assert(deref_all(pending@) =~= deref_all(before).push(tasks@[i as int]));
        }
        i += 1;
    }
    assert(tasks@.take(i as int) =~= tasks@);
    let mut sorted = sort_by_urgency(&pending);
    let ghost full = deref_all(sorted@);
    sorted.truncate(n);
    proof {
        let k = if n < full.len() { n as int } else { full.len() as int };
        assert(deref_all(sorted@) =~= full.take(k));
    }
    sorted
}

/// Whether `tag` equals one of the first `j` tags.
fn tag_among_first(tags: &Vec<String>, j: usize, tag: &String) -> (r: bool)
    requires
        j <= tags@.len(),
    ensures
        r == tag_views(tags@).take(j as int).contains(tag@),
{
    let ghost tv = tag_views(tags@).take(j as int);
    let mut m: usize = 0;
    while m < j
        invariant
            j <= tags@.len(),
            tv == tag_views(tags@).take(j as int),
            m <= j,
            forall|q: int| 0 <= q < m ==> tv[q] != tag@,
        decreases j - m,
    {
        if str_eq(tags[m].as_str(), tag.as_str()) {
            assert(tv[m as int] == tag@);
            return true;
        }
        m += 1;
    }
    false
}

/// How many tasks carry each tag: each distinct tag once, in order of first
/// occurrence, with the number of tasks whose tags include it (a task that
/// carries a tag twice counts once).
pub fn tag_distribution(tasks: &[Task]) -> (r: Vec<(String, usize)>)
    requires
        all_tags(tasks@).len() <= usize::MAX,
    ensures
        counts_view(r@) == tally(task_tag_sets(tasks@)),
{
    let mut counts: Vec<(String, usize)> = Vec::new();
    let mut i: usize = 0;
    while i < tasks.len()
        invariant
            i <= tasks@.len(),
            all_tags(tasks@).len() <= usize::MAX,
            counts_view(counts@) == tally(task_tag_sets(tasks@.take(i as int))),
        decreases tasks@.len() - i,
    {
        let task = &tasks[i];
        let ghost prefix = task_tag_sets(tasks@.take(i as int));
        let ghost tv = tag_views(task.tags@);
        proof {
            assert(tasks@.take(i + 1).drop_last() =~= tasks@.take(i as int));
            assert(tasks@[i as int] == *task);
            lemma_all_tags_prefix(tasks@, i + 1);
            lemma_task_tag_sets_len(tasks@.take(i as int));
            assert(all_tags(tasks@.take(i + 1)) == all_tags(tasks@.take(i as int)) + tv);
        }
        let mut j: usize = 0;
        while j < task.tags.len()
            invariant
                tv == tag_views(task.tags@),
                j <= task.tags@.len(),
                prefix.len() + tv.len() <= usize::MAX,
                counts_view(counts@) == tally(prefix + dedup(tv.take(j as int))),
            decreases task.tags@.len() - j,
        {
            let tag = &task.tags[j];
            let ghost d = dedup(tv.take(j as int));
            proof {
                lemma_dedup_take_step(tv, j as int);
                lemma_dedup_props(tv.take(j as int));
                assert(tv[j as int] == tag@);
            }
            if !tag_among_first(&task.tags, j, tag) {
                proof {
                    let seen = prefix + d;
                    lemma_tally_bounded(seen);
                    assert forall|m: int| 0 <= m < counts@.len() implies #[trigger] counts_view(counts@)[m].1 < usize::MAX by {
                        assert(counts_view(counts@)[m] == tally(seen)[m]);
                    }
                    assert((prefix + d.push(tag@)).drop_last() =~= seen);
                    assert((prefix + d.push(tag@)).last() == tag@);
                }
                tally_step(&mut counts, tag);
                proof {
                    assert(prefix + dedup(tv.take(j + 1)) == prefix + d.push(tag@));
                }
            }
            j += 1;
        }
        proof {
            assert(tv.take(j as int) =~= tv);
            assert(task_tag_sets(tasks@.take(i + 1)) == prefix + dedup(tv));
        }
        i += 1;
    }
    assert(tasks@.take(i as int) =~= tasks@);
    counts
}

} // verus!
