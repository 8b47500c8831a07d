//! The task store: an ordered collection of tasks with lookups, counts,
//! searches and bulk updates.

use vstd::prelude::*;
use crate::seqs::{count_where, deref_all, lemma_count_take_step, lemma_count_update, lemma_count_le_len};
use crate::text::{decimal, has_substring, lowercase, push_decimal, str_contains, to_lowercase};
use crate::urgency::{sort_by_urgency, urgency_sorted};
use crate::task::{
    Task, Priority, first_with_id, has_id, with_done, is_pending, is_done, has_priority,
    id_differs,
};

verus! {

/// A task whose title or description, lower-cased, contains `q`.
pub open spec fn matches_query(q: Seq<char>) -> spec_fn(Task) -> bool {
    |t: Task| has_substring(lowercase(t.title@), q) || has_substring(lowercase(t.description@), q)
}

/// `s` after marking done every task whose id is among `ids`.
pub open spec fn completed_by(s: Seq<Task>, ids: Seq<u64>) -> Seq<Task> {
    Seq::new(
        s.len(),
        |i: int|
            if ids.contains(s[i].id) {
                with_done(s[i], true)
            } else {
                s[i]
            },
    )
}

/// "Tasks: T total, D done, P pending, C critical (X% complete)".
pub open spec fn stats_line(total: nat, done: nat, pending: nat, critical: nat, percent: Seq<char>) -> Seq<char> {
    "Tasks: "@ + decimal(total) + " total, "@ + decimal(done) + " done, "@ + decimal(pending)
        + " pending, "@ + decimal(critical) + " critical ("@ + percent + "% complete)"@
}

/// The statistics line of a store, given its completion percentage as text.
pub open spec fn stats_text(s: Seq<Task>, percent: Seq<char>) -> Seq<char> {
    stats_line(
        s.len(),
        count_where(s, is_done()),
        count_where(s, is_pending()),
        s.filter(has_priority(Priority::Critical)).len(),
        percent,
    )
}

/// The statistics line counts every task once as done or pending, and its
/// critical count is the number of tasks of priority `Critical`, done or not:
/// marking a task done or reopening it leaves that count unchanged.
pub proof fn lemma_stats_counts(s: Seq<Task>, percent: Seq<char>, i: int, done: bool)
    requires
        0 <= i < s.len(),
    ensures
        stats_text(s, percent) == stats_line(
            s.len(),
            count_where(s, is_done()),
            count_where(s, is_pending()),
            count_where(s, |t: Task| t.priority == Priority::Critical),
            percent,
        ),
        count_where(s, is_done()) + count_where(s, is_pending()) == s.len(),
        count_where(s.update(i, with_done(s[i], done)), |t: Task| t.priority == Priority::Critical)
            == count_where(s, |t: Task| t.priority == Priority::Critical),
{
    crate::seqs::lemma_count_is_filter_len(s, has_priority(Priority::Critical));
    assert(has_priority(Priority::Critical) =~= (|t: Task| t.priority == Priority::Critical));
    lemma_pending_and_done_add_up(s);
    lemma_count_update(s, i, with_done(s[i], done), |t: Task| t.priority == Priority::Critical);
}

/// An ordered collection of tasks.
pub struct TaskStore {
    tasks: Vec<Task>,
    max_tasks: usize,
}

impl View for TaskStore {
    type V = Seq<Task>;

    /// The tasks in the order they were added.
    closed spec fn view(&self) -> Seq<Task> {
        self.tasks@
    }
}

/// Looks up the first task with id `id`.
fn position_of(tasks: &Vec<Task>, id: u64) -> (r: Option<usize>)
    ensures
        r matches Some(i) ==> first_with_id(tasks@, id, i as int),
        r is None <==> !has_id(tasks@, id),
{
    let mut i: usize = 0;
    while i < tasks.len()
        invariant
            i <= tasks@.len(),
            forall|j: int| 0 <= j < i ==> tasks@[j].id != id,
        decreases tasks@.len() - i,
    {
        if tasks[i].id == id {
            return Some(i);
        }
        i += 1;
    }
    None
}

/// A task added under an id no stored task has is what a lookup of that id
/// then finds.
pub proof fn lemma_added_task_is_found(s: Seq<Task>, t: Task)
    requires
        !has_id(s, t.id),
    ensures
        first_with_id(s.push(t), t.id, s.len() as int),
        s.push(t)[s.len() as int] == t,
{
    assert forall|j: int| 0 <= j < s.len() implies s.push(t)[j].id != t.id by {
        assert(s.push(t)[j] == s[j]);
    }
}

/// After deleting an id, no task with that id is left, and every other task stays.
pub proof fn lemma_deleted_id_is_gone(s: Seq<Task>, id: u64)
    ensures
        !has_id(s.filter(id_differs(id)), id),
        forall|i: int| 0 <= i < s.len() && s[i].id != id ==> s.filter(id_differs(id)).contains(#[trigger] s[i]),
{
    broadcast use vstd::seq_lib::group_filter_ensures;
    let r = s.filter(id_differs(id));
    assert forall|i: int| 0 <= i < r.len() implies r[i].id != id by {
        assert(id_differs(id)(r[i]));
    }
    assert forall|i: int| 0 <= i < s.len() && s[i].id != id implies r.contains(#[trigger] s[i]) by {
        assert(id_differs(id)(s[i]));
    }
}

/// Every task is either pending or done: the two counts add up to the total.
pub proof fn lemma_pending_and_done_add_up(s: Seq<Task>)
    ensures
        count_where(s, is_pending()) + count_where(s, is_done()) == s.len(),
{
    crate::seqs::lemma_count_complement(s, is_pending());
    assert(crate::seqs::negate(is_pending()) =~= is_done());
}

/// Marking a pending task done lowers the pending count by one; marking a
/// done task done changes nothing.
pub proof fn lemma_mark_done_counts(s: Seq<Task>, i: int)
    requires
        0 <= i < s.len(),
    ensures
        count_where(s.update(i, with_done(s[i], true)), is_pending()) + (if s[i].done { 0int } else { 1int })
            == count_where(s, is_pending()),
{
    lemma_count_update(s, i, with_done(s[i], true), is_pending());
}

impl TaskStore {
    /// An empty store.
    pub fn new() -> (s: TaskStore)
        ensures
            s@ == Seq::<Task>::empty(),
    {
        TaskStore { tasks: Vec::new(), max_tasks: 1000 }
    }

    /// Adds a task at the end.
    pub fn add_task(&mut self, task: Task)
        ensures
            final(self)@ == old(self)@.push(task),
    {
        self.tasks.push(task);
    }

    /// All tasks, in the order they were added.
    pub fn get_all_tasks(&self) -> (r: &Vec<Task>)
        ensures
            r@ == self@,
    {
        &self.tasks
    }

    /// The first task with id `id`, if there is one.
    pub fn get_task(&self, id: u64) -> (r: Option<&Task>)
        ensures
            r is None <==> !has_id(self@, id),
            r matches Some(t) ==> exists|i: int| first_with_id(self@, id, i) && *t == self@[i],
    {
        match position_of(&self.tasks, id) {
            Some(i) => {
                assert(first_with_id(self@, id, i as int));
                Some(&self.tasks[i])
            },
            None => None,
        }
    }

    /// The first task with id `id`, to be changed in place, if there is one.
    pub fn get_task_mut(&mut self, id: u64) -> (r: Option<&mut Task>)
        ensures
            r is None <==> !has_id(old(self)@, id),
            r is None ==> final(self)@ == old(self)@,
            r matches Some(t) ==> exists|i: int|
                first_with_id(old(self)@, id, i) && *t == old(self)@[i] && final(self)@ == old(
                    self,
                )@.update(i, *final(t)),
    {
        match position_of(&self.tasks, id) {
            Some(i) => {
                assert(first_with_id(self@, id, i as int));
                Some(&mut self.tasks[i])
            },
            None => None,
        }
    }

    /// Marks the first task with id `id` as done; such a task must exist.
    pub fn mark_done(&mut self, id: u64)
        requires
            has_id(old(self)@, id),
        ensures
            exists|i: int|
                first_with_id(old(self)@, id, i) && final(self)@ == old(self)@.update(
                    i,
                    with_done(old(self)@[i], true),
                ),
    {
        match self.get_task_mut(id) {
            Some(task) => {
                task.done = true;
            },
            None => {},
        }
    }

    /// Removes every task with id `id`; true when one was removed.
    pub fn delete_task(&mut self, id: u64) -> (removed: bool)
        ensures
            final(self)@ == old(self)@.filter(id_differs(id)),
            removed == has_id(old(self)@, id),
    {
        let ghost orig = self.tasks@;
        let ghost mut j: int = 0;
        let mut removed_any = false;
        let mut i: usize = 0;
        while i < self.tasks.len()
            invariant
                orig == old(self)@,
                0 <= i <= j <= orig.len(),
                self.tasks@.len() - i == orig.len() - j,
                self.tasks@.subrange(0, i as int) == orig.take(j).filter(id_differs(id)),
                self.tasks@.subrange(i as int, self.tasks@.len() as int) == orig.skip(j),
                removed_any == exists|k: int| 0 <= k < j && orig[k].id == id,
            decreases self.tasks@.len() - i,
        {
            let ghost before = self.tasks@;
            proof {
                assert(orig.take(j + 1) =~= orig.take(j).push(orig[j]));
                orig.take(j).lemma_filter_push(orig[j], id_differs(id));
                assert(before[i as int] == orig.skip(j)[0]);
            }
            let ghost rest = before.subrange(i as int, before.len() as int);
            assert(rest == orig.skip(j));
            assert(rest.skip(1) =~= orig.skip(j + 1));
            if self.tasks[i].id == id {
                self.tasks.remove(i);
                removed_any = true;
                proof {
                    assert(self.tasks@.subrange(0, i as int) =~= before.subrange(0, i as int));
                    assert(self.tasks@.subrange(i as int, self.tasks@.len() as int) =~= rest.skip(1));
                    j = j + 1;
                }
            } else {
                i += 1;
                proof {
                    assert(self.tasks@.subrange(0, i as int) =~= before.subrange(0, i - 1).push(
                        before[i - 1],
                    ));
                    assert(self.tasks@.subrange(i as int, self.tasks@.len() as int) =~= rest.skip(1));
                    j = j + 1;
                }
            }
        }
        proof {
            assert(orig.take(j) =~= orig);
            assert(self.tasks@ =~= self.tasks@.subrange(0, i as int));
        }
        removed_any
    }

    /// How many tasks are not done.
    pub fn pending_count(&self) -> (n: usize)
        ensures
            n == count_where(self@, is_pending()),
    {
        let mut count: usize = 0;
        let mut i: usize = 0;
        while i < self.tasks.len()
            invariant
                i <= self.tasks@.len(),
                count == count_where(self.tasks@.take(i as int), is_pending()),
                count <= i,
            decreases self.tasks@.len() - i,
        {
            proof {
                lemma_count_take_step(self.tasks@, i as int, is_pending());
            }
            if !self.tasks[i].done {
                count += 1;
            }
            i += 1;
        }
        assert(self.tasks@.take(i as int) =~= self.tasks@);
        count
    }

    /// How many tasks are done.
    pub fn done_count(&self) -> (n: usize)
        ensures
            n == count_where(self@, is_done()),
    {
        let pending = self.pending_count();
        proof {
            crate::seqs::lemma_count_complement(self@, is_pending());
            assert(crate::seqs::negate(is_pending()) =~= is_done());
        }
        self.tasks.len() - pending
    }

    /// The tasks of priority `priority`, in store order.
    pub fn get_by_priority(&self, priority: Priority) -> (r: Vec<&Task>)
        ensures
            deref_all(r@) == self@.filter(has_priority(priority)),
    {
        let mut result: Vec<&Task> = Vec::new();
        let mut i: usize = 0;
        while i < self.tasks.len()
            invariant
                i <= self.tasks@.len(),
                deref_all(result@) == self.tasks@.take(i as int).filter(has_priority(priority)),
            decreases self.tasks@.len() - i,
        {
            proof {
                assert(self.tasks@.take(i + 1) =~= self.tasks@.take(i as int).push(self.tasks@[i as int]));
                self.tasks@.take(i as int).lemma_filter_push(self.tasks@[i as int], has_priority(priority));
            }
            let ghost before = result@;
            if self.tasks[i].priority == priority {
                result.push(&self.tasks[i]);
                assert(deref_all(result@) =~= deref_all(before).push(self.tasks@[i as int]));
            }
            i += 1;
        }
        assert(self.tasks@.take(i as int) =~= self.tasks@);
        result
    }

    /// All tasks, most urgent first; equally urgent tasks keep their order.
    pub fn sorted_by_urgency(&self) -> (r: Vec<&Task>)
        ensures
            urgency_sorted(self@, deref_all(r@)),
    {
        let mut all: Vec<&Task> = Vec::new();
        let mut i: usize = 0;
        while i < self.tasks.len()
            invariant
                i <= self.tasks@.len(),
                deref_all(all@) == self.tasks@.take(i as int),
            decreases self.tasks@.len() - i,
        {
            let ghost before = all@;
            all.push(&self.tasks[i]);
            assert(deref_all(all@) =~= deref_all(before).push(self.tasks@[i as int]));
            assert(self.tasks@.take(i + 1) =~= self.tasks@.take(i as int).push(self.tasks@[i as int]));
            i += 1;
        }
        assert(self.tasks@.take(i as int) =~= self.tasks@);
        sort_by_urgency(&all)
    }

    /// The tasks whose title or description contains `query`, ignoring case.
    pub fn search(&self, query: &str) -> (r: Vec<&Task>)
        ensures
            deref_all(r@) == self@.filter(matches_query(lowercase(query@))),
    {
        let query_lower = to_lowercase(query);
        let ghost q = lowercase(query@);
        let mut results: Vec<&Task> = Vec::new();
        let mut i: usize = 0;
        while i < self.tasks.len()
            invariant
                i <= self.tasks@.len(),
                query_lower@ == q,
                deref_all(results@) == self.tasks@.take(i as int).filter(matches_query(q)),
            decreases self.tasks@.len() - i,
        {
            proof {
                assert(self.tasks@.take(i + 1) =~= self.tasks@.take(i as int).push(self.tasks@[i as int]));
                self.tasks@.take(i as int).lemma_filter_push(self.tasks@[i as int], matches_query(q));
            }
            let task = &self.tasks[i];
            let title_lower = to_lowercase(task.title.as_str());
            let hit = if str_contains(title_lower.as_str(), query_lower.as_str()) {
                true
            } else {
                let desc_lower = to_lowercase(task.description.as_str());
                str_contains(desc_lower.as_str(), query_lower.as_str())
            };
            let ghost before = results@;
            if hit {
                results.push(task);
                assert(deref_all(results@) =~= deref_all(before).push(self.tasks@[i as int]));
            }
            i += 1;
        }
        assert(self.tasks@.take(i as int) =~= self.tasks@);
        results
    }

    /// Adds already parsed tasks at the end, in order; returns how many.
    pub fn import_tasks(&mut self, tasks: Vec<Task>) -> (n: usize)
        ensures
            final(self)@ == old(self)@ + tasks@,
            n == tasks@.len(),
    {
        let mut tasks = tasks;
        let n = tasks.len();
        self.tasks.append(&mut tasks);
        n
    }

    /// "Tasks: N total, D done, P pending, C critical (X% complete)", where X is
    /// the completion percentage already rendered as text.
    pub fn stats_summary(&self, completion_percent: &str) -> (s: String)
        ensures
            s@ == stats_text(self@, completion_percent@),
    {
        let total = self.tasks.len();
        let done = self.done_count();
        let pending = self.pending_count();
        let critical = self.get_by_priority(Priority::Critical).len();
        let mut s = String::from_str("Tasks: ");
        push_decimal(&mut s, total as u64);
        s.append(" total, ");
        push_decimal(&mut s, done as u64);
        s.append(" done, ");
        push_decimal(&mut s, pending as u64);
        s.append(" pending, ");
        push_decimal(&mut s, critical as u64);
        s.append(" critical (");
        s.append(completion_percent);
        s.append("% complete)");
        s
    }

    /// Marks done every task whose id is in `ids`; returns how many tasks went
    /// from pending to done.
    pub fn bulk_complete(&mut self, ids: &[u64]) -> (completed: usize)
        ensures
            final(self)@ == completed_by(old(self)@, ids@),
            completed + count_where(final(self)@, is_pending()) == count_where(old(self)@, is_pending()),
    {
        let ghost orig = self.tasks@;
        let mut completed: usize = 0;
        let mut k: usize = 0;
        while k < ids.len()
            invariant
                orig == old(self)@,
                k <= ids@.len(),
                self.tasks@ == completed_by(orig, ids@.take(k as int)),
                completed + count_where(self.tasks@, is_pending()) == count_where(orig, is_pending()),
            decreases ids@.len() - k,
        {
            let id = ids[k];
            let ghost next = completed_by(orig, ids@.take(k + 1));
            proof {
                let pre_next = ids@.take(k + 1);
                let pre = ids@.take(k as int);
                assert(pre_next =~= pre.push(id));
                assert forall|x: u64| pre_next.contains(x) <==> (pre.contains(x) || x == id) by {
                    if pre_next.contains(x) {
                        let w = choose|w: int| 0 <= w < pre_next.len() && pre_next[w] == x;
                        if w < k {
                            assert(pre[w] == x);
                        }
                    }
                    if pre.contains(x) {
                        let w = choose|w: int| 0 <= w < pre.len() && pre[w] == x;
                        assert(pre_next[w] == x);
                    }
                    if x == id {
                        assert(pre_next[k as int] == x);
                    }
                }
            }
            let mut i: usize = 0;
            while i < self.tasks.len()
                invariant
                    orig == old(self)@,
                    k < ids@.len(),
                    id == ids@[k as int],
                    next == completed_by(orig, ids@.take(k + 1)),
                    self.tasks@.len() == orig.len(),
                    i <= self.tasks@.len(),
                    forall|m: int| 0 <= m < i ==> #[trigger] self.tasks@[m] == next[m],
                    forall|m: int| i <= m < orig.len() ==> #[trigger] self.tasks@[m] == completed_by(orig, ids@.take(k as int))[m],
                    forall|x: u64| ids@.take(k + 1).contains(x) <==> (ids@.take(k as int).contains(x) || x == id),
                    completed + count_where(self.tasks@, is_pending()) == count_where(orig, is_pending()),
                decreases self.tasks@.len() - i,
            {
                let ghost before = self.tasks@;
                if self.tasks[i].id == id && !self.tasks[i].done {
                    proof {
                        lemma_count_update(before, i as int, with_done(before[i as int], true), is_pending());
                        lemma_count_le_len(orig, is_pending());
                    }
                    self.tasks[i].done = true;
                    completed += 1;
                } else {
                    proof {
                        let t = before[i as int];
                        if t.id == id {
                            assert(with_done(t, true) == t);
                        }
                    }
                }
                i += 1;
            }
            proof {
                assert(self.tasks@ =~= next);
            }
            k += 1;
        }
        assert(ids@.take(k as int) =~= ids@);
        completed
    }

    /// Takes the done tasks out of the store, in order, leaving the pending
    /// ones in order.
    pub fn drain_done(&mut self) -> (done: Vec<Task>)
        ensures
            final(self)@ == old(self)@.filter(is_pending()),
            done@ == old(self)@.filter(is_done()),
    {
        let mut archive = crate::archive::Archive::new();
        archive.archive_done(&mut self.tasks);
        archive.into_tasks()
    }
}

} // verus!
