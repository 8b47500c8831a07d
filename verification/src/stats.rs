//! Statistics over task lists: counts per priority, tag frequencies, and the
//! most urgent task.

use vstd::prelude::*;
use crate::seqs::{count_where, dedup, lemma_count_add, lemma_count_push, lemma_count_take_step, lemma_dedup_props};
use crate::task::{Task, Priority, has_priority, tag_views, urgency_halves};

verus! {

/// A tag with the number of times it occurs.
pub type TagCount = (Seq<char>, nat);

/// The tags of all tasks of `s`, task by task, each task's tags in order.
pub open spec fn all_tags(s: Seq<Task>) -> Seq<Seq<char>>
    decreases s.len(),
{
    if s.len() == 0 {
        Seq::empty()
    } else {
        all_tags(s.drop_last()) + tag_views(s.last().tags@)
    }
}

/// The table `t` after one more occurrence of `tag`: the entry for `tag` counts
/// one more, or a new entry `(tag, 1)` goes at the end.
pub open spec fn tally_add(t: Seq<TagCount>, tag: Seq<char>) -> Seq<TagCount> {
    if exists|k: int| 0 <= k < t.len() && #[trigger] t[k].0 == tag {
        Seq::new(t.len(), |k: int| if t[k].0 == tag { (t[k].0, t[k].1 + 1) } else { t[k] })
    } else {
        t.push((tag, 1nat))
    }
}

/// The frequency table of `tags`: each distinct tag once, in order of first
/// occurrence, with the number of its occurrences.
pub open spec fn tally(tags: Seq<Seq<char>>) -> Seq<TagCount>
    decreases tags.len(),
{
    if tags.len() == 0 {
        Seq::empty()
    } else {
        tally_add(tally(tags.drop_last()), tags.last())
    }
}

/// The table held by a vector of (tag, count) pairs.
pub open spec fn counts_view(r: Seq<(String, usize)>) -> Seq<TagCount> {
    Seq::new(r.len(), |i: int| (r[i].0@, r[i].1 as nat))
}

/// `i` is the first position of `s` holding a task with the highest urgency score.
pub open spec fn first_most_urgent(s: Seq<Task>, i: int) -> bool {
    &&& 0 <= i < s.len()
    &&& forall|j: int| 0 <= j < s.len() ==> urgency_halves(#[trigger] s[j]) <= urgency_halves(s[i])
    &&& forall|j: int| 0 <= j < i ==> urgency_halves(#[trigger] s[j]) < urgency_halves(s[i])
}

/// The distinct tags of each task of `s`, task by task, each task's tags in
/// order of first occurrence.
pub open spec fn task_tag_sets(s: Seq<Task>) -> Seq<Seq<char>>
    decreases s.len(),
{
    if s.len() == 0 {
        Seq::empty()
    } else {
        task_tag_sets(s.drop_last()) + dedup(tag_views(s.last().tags@))
    }
}

/// A task that carries the tag `tag`.
pub open spec fn carries_tag(tag: Seq<char>) -> spec_fn(Task) -> bool {
    |t: Task| tag_views(t.tags@).contains(tag)
}

/// The distinct tags of the tasks are no more than all their tags.
pub proof fn lemma_task_tag_sets_len(s: Seq<Task>)
    ensures
        task_tag_sets(s).len() <= all_tags(s).len(),
    decreases s.len(),
{
    if s.len() > 0 {
        lemma_task_tag_sets_len(s.drop_last());
        lemma_dedup_props(tag_views(s.last().tags@));
    }
}

/// In a sequence without repeats, a value occurs once if it is there at all.
proof fn lemma_count_distinct(d: Seq<Seq<char>>, key: Seq<char>)
    requires
        forall|i: int, j: int| 0 <= i < j < d.len() ==> #[trigger] d[i] != #[trigger] d[j],
    ensures
        count_where(d, is_tag(key)) == if d.contains(key) { 1nat } else { 0nat },
    decreases d.len(),
{
    if d.len() > 0 {
        let p = d.drop_last();
        assert forall|i: int, j: int| 0 <= i < j < p.len() implies #[trigger] p[i] != #[trigger] p[j] by {
            assert(p[i] == d[i] && p[j] == d[j]);
        }
        lemma_count_distinct(p, key);
        if d.last() == key {
            if p.contains(key) {
                let w = choose|w: int| 0 <= w < p.len() && p[w] == key;
                assert(d[w] == d[d.len() - 1]);
            }
            assert(d[d.len() - 1] == key);
        } else {
            if d.contains(key) {
                let w = choose|w: int| 0 <= w < d.len() && d[w] == key;
                assert(p[w] == key);
            }
            if p.contains(key) {
                let w = choose|w: int| 0 <= w < p.len() && p[w] == key;
                assert(d[w] == key);
            }
        }
    }
}

/// Each tag occurs in the distinct tags of the tasks as often as there are
/// tasks that carry it.
pub proof fn lemma_task_tag_sets_count(s: Seq<Task>, key: Seq<char>)
    ensures
        count_where(task_tag_sets(s), is_tag(key)) == count_where(s, carries_tag(key)),
    decreases s.len(),
{
    if s.len() > 0 {
        let tv = tag_views(s.last().tags@);
        lemma_task_tag_sets_count(s.drop_last(), key);
        lemma_count_add(task_tag_sets(s.drop_last()), dedup(tv), is_tag(key));
        lemma_dedup_props(tv);
        lemma_count_distinct(dedup(tv), key);
    }
}

/// Every tag of every task is among the distinct tags of the tasks.
pub proof fn lemma_task_tag_sets_contains(s: Seq<Task>)
    ensures
        forall|i: int, x: Seq<char>|
            0 <= i < s.len() && #[trigger] tag_views(s[i].tags@).contains(x) ==> #[trigger] task_tag_sets(s).contains(x),
    decreases s.len(),
{
    if s.len() > 0 {
        let p = s.drop_last();
        lemma_task_tag_sets_contains(p);
        let tv = tag_views(s.last().tags@);
        lemma_dedup_props(tv);
        let a = task_tag_sets(p);
        let b = dedup(tv);
        assert forall|i: int, x: Seq<char>|
            0 <= i < s.len() && #[trigger] tag_views(s[i].tags@).contains(x) implies #[trigger] task_tag_sets(s).contains(x) by {
            if i < s.len() - 1 {
                assert(p[i] == s[i]);
                assert(a.contains(x));
                let w = choose|w: int| 0 <= w < a.len() && a[w] == x;
                assert((a + b)[w] == x);
            } else {
                assert(b.contains(x));
                let w = choose|w: int| 0 <= w < b.len() && b[w] == x;
                assert((a + b)[a.len() + w] == x);
            }
        }
    }
}

/// The table of the distinct tags of the tasks lists each tag once, in order
/// of first occurrence, with the number of tasks that carry it; every tag of
/// every task is listed.
pub proof fn lemma_tag_distribution_counts_tasks(s: Seq<Task>)
    ensures
        forall|i: int, j: int|
            0 <= i < j < tally(task_tag_sets(s)).len() ==> #[trigger] tally(task_tag_sets(s))[i].0
                != #[trigger] tally(task_tag_sets(s))[j].0,
        forall|k: int|
            0 <= k < tally(task_tag_sets(s)).len() ==> #[trigger] tally(task_tag_sets(s))[k].1 == count_where(
                s,
                carries_tag(tally(task_tag_sets(s))[k].0),
            ),
        forall|i: int, x: Seq<char>|
            0 <= i < s.len() && #[trigger] tag_views(s[i].tags@).contains(x) ==> exists|k: int|
                0 <= k < tally(task_tag_sets(s)).len() && #[trigger] tally(task_tag_sets(s))[k].0 == x,
{
    let x_all = task_tag_sets(s);
    let t = tally(x_all);
    lemma_tally_counts_occurrences(x_all);
    lemma_task_tag_sets_contains(s);
    assert forall|k: int| 0 <= k < t.len() implies #[trigger] t[k].1 == count_where(s, carries_tag(t[k].0)) by {
        lemma_task_tag_sets_count(s, t[k].0);
    }
    assert forall|i: int, x: Seq<char>|
        0 <= i < s.len() && #[trigger] tag_views(s[i].tags@).contains(x) implies exists|k: int|
            0 <= k < t.len() && #[trigger] t[k].0 == x by {
        assert(x_all.contains(x));
        let w = choose|w: int| 0 <= w < x_all.len() && x_all[w] == x;
        assert(exists|k: int| 0 <= k < t.len() && #[trigger] t[k].0 == x_all[w]);
    }
}

/// A tag equal to `key`.
pub open spec fn is_tag(key: Seq<char>) -> spec_fn(Seq<char>) -> bool {
    |t: Seq<char>| t == key
}

/// The frequency table lists each tag that occurs exactly once, with the
/// number of its occurrences.
pub proof fn lemma_tally_counts_occurrences(tags: Seq<Seq<char>>)
    ensures
        forall|i: int, j: int|
            0 <= i < j < tally(tags).len() ==> #[trigger] tally(tags)[i].0 != #[trigger] tally(tags)[j].0,
        forall|k: int|
            0 <= k < tally(tags).len() ==> #[trigger] tally(tags)[k].1 == count_where(tags, is_tag(tally(tags)[k].0)),
        forall|i: int| 0 <= i < tags.len() ==> exists|k: int| 0 <= k < tally(tags).len() && #[trigger] tally(tags)[k].0 == #[trigger] tags[i],
    decreases tags.len(),
{
    if tags.len() > 0 {
        let prev = tags.drop_last();
        let last = tags.last();
        lemma_tally_counts_occurrences(prev);
        let t = tally(prev);
        let r = tally(tags);
        assert(prev.push(last) =~= tags);
        if exists|k: int| 0 <= k < t.len() && #[trigger] t[k].0 == last {
            assert forall|k: int| 0 <= k < r.len() implies #[trigger] r[k].1 == count_where(tags, is_tag(r[k].0)) by {
                crate::seqs::lemma_count_push(prev, last, is_tag(t[k].0));
            }
            assert forall|i: int| 0 <= i < tags.len() implies exists|k: int| 0 <= k < r.len() && #[trigger] r[k].0 == #[trigger] tags[i] by {
                if i < tags.len() - 1 {
                    assert(prev[i] == tags[i]);
                    let k = choose|k: int| 0 <= k < t.len() && #[trigger] t[k].0 == #[trigger] prev[i];
                    assert(r[k].0 == tags[i]);
                } else {
                    let k = choose|k: int| 0 <= k < t.len() && #[trigger] t[k].0 == last;
                    assert(r[k].0 == tags[i]);
                }
            }
        } else {
            assert forall|k: int| 0 <= k < r.len() implies #[trigger] r[k].1 == count_where(tags, is_tag(r[k].0)) by {
                if k < t.len() {
                    crate::seqs::lemma_count_push(prev, last, is_tag(t[k].0));
                } else {
                    crate::seqs::lemma_count_push(prev, last, is_tag(last));
                    lemma_absent_tag_uncounted(prev, last);
                }
            }
            assert forall|i: int| 0 <= i < tags.len() implies exists|k: int| 0 <= k < r.len() && #[trigger] r[k].0 == #[trigger] tags[i] by {
                if i < tags.len() - 1 {
                    assert(prev[i] == tags[i]);
                    let k = choose|k: int| 0 <= k < t.len() && #[trigger] t[k].0 == #[trigger] prev[i];
                    assert(r[k].0 == tags[i]);
                } else {
                    assert(r[t.len() as int].0 == tags[i]);
                }
            }
        }
    }
}

/// A tag that does not occur counts zero.
proof fn lemma_absent_tag_uncounted(tags: Seq<Seq<char>>, key: Seq<char>)
    requires
        forall|i: int| 0 <= i < tags.len() ==> #[trigger] tags[i] != key,
    ensures
        count_where(tags, is_tag(key)) == 0,
    decreases tags.len(),
{
    if tags.len() > 0 {
        lemma_absent_tag_uncounted(tags.drop_last(), key);
    }
}

/// No count in the table of `tags` exceeds the number of tags.
pub proof fn lemma_tally_bounded(tags: Seq<Seq<char>>)
    ensures
        forall|k: int| 0 <= k < tally(tags).len() ==> #[trigger] tally(tags)[k].1 <= tags.len(),
        tally(tags).len() <= tags.len(),
    decreases tags.len(),
{
    if tags.len() > 0 {
        lemma_tally_bounded(tags.drop_last());
    }
}

/// How many tasks have each priority: (low, medium, high, critical).
pub fn priority_breakdown(tasks: &[Task]) -> (r: (usize, usize, usize, usize))
    ensures
        r.0 == count_where(tasks@, has_priority(Priority::Low)),
        r.1 == count_where(tasks@, has_priority(Priority::Medium)),
        r.2 == count_where(tasks@, has_priority(Priority::High)),
        r.3 == count_where(tasks@, has_priority(Priority::Critical)),
{
    let mut low: usize = 0;
    let mut medium: usize = 0;
    let mut high: usize = 0;
    let mut critical: usize = 0;
    let mut i: usize = 0;
    while i < tasks.len()
        invariant
            i <= tasks@.len(),
            low == count_where(tasks@.take(i as int), has_priority(Priority::Low)),
            medium == count_where(tasks@.take(i as int), has_priority(Priority::Medium)),
            high == count_where(tasks@.take(i as int), has_priority(Priority::High)),
            critical == count_where(tasks@.take(i as int), has_priority(Priority::Critical)),
            low + medium + high + critical == i,
        decreases tasks@.len() - i,
    {
        proof {
            lemma_count_take_step(tasks@, i as int, has_priority(Priority::Low));
            lemma_count_take_step(tasks@, i as int, has_priority(Priority::Medium));
            lemma_count_take_step(tasks@, i as int, has_priority(Priority::High));
            lemma_count_take_step(tasks@, i as int, has_priority(Priority::Critical));
        }
        match tasks[i].priority {
            Priority::Low => low += 1,
            Priority::Medium => medium += 1,
            Priority::High => high += 1,
            Priority::Critical => critical += 1,
        }
        i += 1;
    }
    assert(tasks@.take(i as int) =~= tasks@);
    (low, medium, high, critical)
}

/// Counts one more occurrence of `tag` in the table `counts`.
pub(crate) fn tally_step(counts: &mut Vec<(String, usize)>, tag: &String)
    requires
        forall|m: int| 0 <= m < old(counts)@.len() ==> #[trigger] counts_view(old(counts)@)[m].1 < usize::MAX,
    ensures
        counts_view(final(counts)@) == tally_add(counts_view(old(counts)@), tag@),
{
    let ghost before = counts_view(counts@);
    let mut found = false;
    let mut k: usize = 0;
    while k < counts.len()
        invariant
            before == counts_view(old(counts)@),
            forall|m: int| 0 <= m < before.len() ==> #[trigger] before[m].1 < usize::MAX,
            counts@.len() == before.len(),
            k <= counts@.len(),
            forall|m: int| 0 <= m < k ==> #[trigger] counts_view(counts@)[m] == (if before[m].0 == tag@ {
                (before[m].0, before[m].1 + 1)
            } else {
                before[m]
            }),
            forall|m: int| k <= m < counts@.len() ==> #[trigger] counts_view(counts@)[m] == before[m],
            found == exists|m: int| 0 <= m < k && #[trigger] before[m].0 == tag@,
        decreases counts@.len() - k,
    {
        assert(counts_view(counts@)[k as int] == before[k as int]);
        assert(before[k as int].1 < usize::MAX);
        let ghost prev = counts@;
        let ghost was_found = found;
        let same = crate::text::str_eq(counts[k].0.as_str(), tag.as_str());
        assert(same == (before[k as int].0 == tag@));
        if same {
            let c = counts[k].1;
            counts[k].1 = c + 1;
            found = true;
            proof {
                assert(counts@ == prev.update(k as int, (prev[k as int].0, (c + 1) as usize)));
            }
        }
        proof {
            assert forall|m: int| 0 <= m < k + 1 implies #[trigger] counts_view(counts@)[m] == (if before[m].0 == tag@ {
                (before[m].0, before[m].1 + 1)
            } else {
                before[m]
            }) by {
                if m < k {
                    assert(counts_view(prev)[m] == counts_view(counts@)[m]);
                }
            }
            assert forall|m: int| k + 1 <= m < counts@.len() implies #[trigger] counts_view(counts@)[m] == before[m] by {
                assert(counts_view(prev)[m] == counts_view(counts@)[m]);
            }
            if same {
                assert(before[k as int].0 == tag@);
            }
            if found && !same {
                assert(was_found);
                let w = choose|m: int| 0 <= m < k && #[trigger] before[m].0 == tag@;
                assert(0 <= w < k + 1 && before[w].0 == tag@);
            }
            if !found {
                assert forall|m: int| 0 <= m < k + 1 implies #[trigger] before[m].0 != tag@ by {
                    if m < k {
                        if before[m].0 == tag@ {
                            assert(exists|m2: int| 0 <= m2 < k && #[trigger] before[m2].0 == tag@);
                        }
                    }
                }
            }
        }
        k += 1;
    }
    if !found {
        let ghost prev = counts@;
        proof {
            assert forall|m: int| 0 <= m < before.len() implies #[trigger] counts_view(prev)[m] == before[m] by {
                if before[m].0 == tag@ {
                    assert(exists|m2: int| 0 <= m2 < k && #[trigger] before[m2].0 == tag@);
                }
            }
        }
        counts.push((tag.clone(), 1));
        proof {
            assert forall|m: int| 0 <= m < before.len() implies #[trigger] counts_view(counts@)[m] == before[m] by {
                assert(counts_view(counts@)[m] == counts_view(prev)[m]);
            }
            assert(counts_view(counts@) =~= before.push((tag@, 1nat)));
        }
    } else {
        assert(counts_view(counts@) =~= tally_add(before, tag@));
    }
}

/// The frequency table of the tags of `tasks`: each distinct tag once, in order
/// of first occurrence, with how often it occurs.
pub fn count_tags(tasks: &[Task]) -> (r: Vec<(String, usize)>)
    requires
        all_tags(tasks@).len() <= usize::MAX,
    ensures
        counts_view(r@) == tally(all_tags(tasks@)),
{
    let mut counts: Vec<(String, usize)> = Vec::new();
    let mut i: usize = 0;
    while i < tasks.len()
        invariant
            i <= tasks@.len(),
            all_tags(tasks@).len() <= usize::MAX,
            counts_view(counts@) == tally(all_tags(tasks@.take(i as int))),
        decreases tasks@.len() - i,
    {
        let task = &tasks[i];
        let ghost prefix = all_tags(tasks@.take(i as int));
        let ghost tv = tag_views(task.tags@);
        proof {
            assert(tasks@.take(i + 1).drop_last() =~= tasks@.take(i as int));
            assert(tasks@[i as int] == *task);
            lemma_all_tags_prefix(tasks@, i + 1);
        }
        let mut j: usize = 0;
        while j < task.tags.len()
            invariant
                tv == tag_views(task.tags@),
                j <= task.tags@.len(),
                prefix.len() + tv.len() <= usize::MAX,
                counts_view(counts@) == tally(prefix + tv.take(j as int)),
            decreases task.tags@.len() - j,
        {
            let tag = &task.tags[j];
            let ghost before = counts_view(counts@);
            let ghost seen = prefix + tv.take(j as int);
            proof {
                assert((prefix + tv.take(j + 1)).drop_last() =~= seen);
                assert((prefix + tv.take(j + 1)).last() == tag@);
                lemma_tally_bounded(seen);
            }
            proof {
                assert forall|m: int| 0 <= m < counts@.len() implies #[trigger] counts_view(counts@)[m].1 < usize::MAX by {
                    assert(counts_view(counts@)[m] == before[m]);
                }
            }
            tally_step(&mut counts, tag);
            j += 1;
        }
        proof {
            assert(tv.take(j as int) =~= tv);
        }
        i += 1;
    }
    assert(tasks@.take(i as int) =~= tasks@);
    counts
}

/// The tags of a prefix are no more than all the tags.
pub proof fn lemma_all_tags_prefix(s: Seq<Task>, k: int)
    requires
        0 <= k <= s.len(),
    ensures
        all_tags(s.take(k)).len() <= all_tags(s).len(),
    decreases s.len() - k,
{
    if k < s.len() {
        lemma_all_tags_prefix(s, k + 1);
        assert(s.take(k + 1).drop_last() =~= s.take(k));
    } else {
        assert(s.take(k) =~= s);
    }
}

/// How often each tag occurs across the tasks, in order of first occurrence.
pub fn tag_frequency(tasks: &[Task]) -> (r: Vec<(String, usize)>)
    requires
        all_tags(tasks@).len() <= usize::MAX,
    ensures
        counts_view(r@) == tally(all_tags(tasks@)),
{
    count_tags(tasks)
}

/// The first task with the highest urgency score, or `None` for an empty list.
pub fn most_urgent(tasks: &[Task]) -> (r: Option<&Task>)
    ensures
        r is None <==> tasks@.len() == 0,
        r matches Some(t) ==> exists|i: int| first_most_urgent(tasks@, i) && *t == tasks@[i],
{
    if tasks.len() == 0 {
        return None;
    }
    let mut best: usize = 0;
    let mut best_score = tasks[0].urgency_in_halves();
    let mut i: usize = 0;
    while i < tasks.len()
        invariant
            0 < tasks@.len(),
            i <= tasks@.len(),
            best < tasks@.len(),
            best <= i || (i == 0 && best == 0),
            best_score == urgency_halves(tasks@[best as int]),
            forall|j: int| 0 <= j < i ==> urgency_halves(#[trigger] tasks@[j]) <= best_score,
            forall|j: int| 0 <= j < best ==> urgency_halves(#[trigger] tasks@[j]) < best_score,
        decreases tasks@.len() - i,
    {
        let score = tasks[i].urgency_in_halves();
        if score > best_score {
            best = i;
            best_score = score;
        }
        i += 1;
    }
    assert(first_most_urgent(tasks@, best as int));
    Some(&tasks[best])
}

} // verus!
