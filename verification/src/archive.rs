//! The archive: where finished tasks are kept, and from where they can be restored.

use vstd::prelude::*;
use crate::task::{Task, first_with_id, has_id, with_done, is_pending, is_done};
use crate::text::{decimal, push_decimal};

verus! {

/// The archive's report line for one task: "- title (id N)\n".
pub open spec fn archive_line(t: Task) -> Seq<char> {
    "- "@ + t.title@ + " (id "@ + decimal(t.id as nat) + ")\n"@
}

/// The report lines of the tasks of `s`, in order.
pub open spec fn archive_lines(s: Seq<Task>) -> Seq<char>
    decreases s.len(),
{
    if s.len() == 0 {
        Seq::empty()
    } else {
        archive_lines(s.drop_last()) + archive_line(s.last())
    }
}

/// Archiving loses no task: the tasks that stay and the tasks that move
/// together are as many as there were.
pub proof fn lemma_archiving_keeps_every_task(s: Seq<Task>)
    ensures
        s.filter(is_pending()).len() + s.filter(is_done()).len() == s.len(),
{
    crate::seqs::lemma_count_is_filter_len(s, is_pending());
    crate::seqs::lemma_count_is_filter_len(s, is_done());
    crate::seqs::lemma_count_complement(s, is_pending());
    assert(crate::seqs::negate(is_pending()) =~= is_done());
}

/// A restored task carries the requested id and is no longer done.
pub proof fn lemma_restored_task_is_pending(s: Seq<Task>, id: u64, i: int)
    requires
        first_with_id(s, id, i),
    ensures
        with_done(s[i], false).id == id,
        !with_done(s[i], false).done,
        s.remove(i).len() + 1 == s.len(),
{
}

/// Keeps finished tasks.
pub struct Archive {
    tasks: Vec<Task>,
}

impl View for Archive {
    type V = Seq<Task>;

    /// The archived tasks, oldest first.
    closed spec fn view(&self) -> Seq<Task> {
        self.tasks@
    }
}

impl Archive {
    /// An empty archive.
    pub fn new() -> (a: Archive)
        ensures
            a@ == Seq::<Task>::empty(),
    {
        Archive { tasks: Vec::new() }
    }

    /// Moves every done task out of `tasks` into the archive, in order; the
    /// pending ones stay in `tasks`, in order. Returns how many moved.
    pub fn archive_done(&mut self, tasks: &mut Vec<Task>) -> (moved: usize)
        ensures
            final(tasks)@ == old(tasks)@.filter(is_pending()),
            final(self)@ == old(self)@ + old(tasks)@.filter(is_done()),
            moved == old(tasks)@.filter(is_done()).len(),
    {
        let ghost orig = tasks@;
        let ghost start = self.tasks@;
        let ghost mut j: int = 0;
        let mut moved: usize = 0;
        let mut i: usize = 0;
        while i < tasks.len()
            invariant
                orig == old(tasks)@,
                start == old(self)@,
                0 <= i <= j <= orig.len(),
                tasks@.len() - i == orig.len() - j,
                tasks@.subrange(0, i as int) == orig.take(j).filter(is_pending()),
                tasks@.subrange(i as int, tasks@.len() as int) == orig.skip(j),
                self.tasks@ == start + orig.take(j).filter(is_done()),
                moved == orig.take(j).filter(is_done()).len(),
                self.tasks@.len() == start.len() + moved,
            decreases tasks@.len() - i,
        {
            let ghost before = tasks@;
            proof {
                assert(orig.take(j + 1) =~= orig.take(j).push(orig[j]));
                orig.take(j).lemma_filter_push(orig[j], is_pending());
                orig.take(j).lemma_filter_push(orig[j], is_done());
                assert(before[i as int] == orig.skip(j)[0]);
                orig.take(j).lemma_filter_len(is_done());
            }
            let ghost rest = before.subrange(i as int, before.len() as int);
            assert(rest == orig.skip(j));
            assert(rest.skip(1) =~= orig.skip(j + 1));
            if tasks[i].done {
                let t = tasks.remove(i);
                self.tasks.push(t);
                assert(self.tasks.len() == self.tasks@.len());
                moved += 1;
                proof {
                    assert(tasks@.subrange(0, i as int) =~= before.subrange(0, i as int));
                    assert(tasks@.subrange(i as int, tasks@.len() as int) =~= rest.skip(1));
                    assert(self.tasks@ =~= start + orig.take(j + 1).filter(is_done()));
                    j = j + 1;
                }
            } else {
                i += 1;
                proof {
                    assert(tasks@.subrange(0, i as int) =~= before.subrange(0, i - 1).push(
                        before[i - 1],
                    ));
                    assert(tasks@.subrange(i as int, tasks@.len() as int) =~= rest.skip(1));
                    j = j + 1;
                }
            }
        }
        proof {
            assert(orig.take(j) =~= orig);
            assert(tasks@ =~= tasks@.subrange(0, i as int));
        }
        moved
    }

    /// How many tasks are archived.
    pub fn count(&self) -> (n: usize)
        ensures
            n == self@.len(),
    {
        self.tasks.len()
    }

    /// All archived tasks, oldest first.
    pub fn all(&self) -> (r: &Vec<Task>)
        ensures
            r@ == self@,
    {
        &self.tasks
    }

    /// Takes the first archived task with id `id` back out, marked as not done.
    pub fn restore(&mut self, id: u64) -> (r: Option<Task>)
        ensures
            r is None <==> !has_id(old(self)@, id),
            r is None ==> final(self)@ == old(self)@,
            r matches Some(t) ==> exists|i: int|
                first_with_id(old(self)@, id, i) && t == with_done(old(self)@[i], false)
                    && final(self)@ == old(self)@.remove(i),
    {
        let mut idx: usize = 0;
        let mut found = false;
        let mut i: usize = 0;
        while i < self.tasks.len()
            invariant_except_break
                !found,
            invariant
                i <= self.tasks@.len(),
                forall|k: int| 0 <= k < i ==> self.tasks@[k].id != id,
            ensures
                found ==> first_with_id(self.tasks@, id, idx as int),
                !found ==> !has_id(self.tasks@, id),
            decreases self.tasks@.len() - i,
        {
            if self.tasks[i].id == id {
                idx = i;
                found = true;
                break;
            }
            i += 1;
        }
        if found {
            let mut t = self.tasks.remove(idx);
            t.done = false;
            assert(t == with_done(old(self)@[idx as int], false));
            Some(t)
        } else {
            None
        }
    }

    /// The archived tasks, oldest first, taking the archive apart.
    pub fn into_tasks(self) -> (r: Vec<Task>)
        ensures
            r@ == self@,
    {
        self.tasks
    }

    /// Drops every archived task.
    pub fn clear(&mut self)
        ensures
            final(self)@ == Seq::<Task>::empty(),
    {
        self.tasks = Vec::new();
    }

    /// "Archive (N tasks)\n" followed by one line "- title (id N)\n" per task.
    pub fn report(&self) -> (s: String)
        ensures
            s@ == "Archive ("@ + decimal(self@.len()) + " tasks)\n"@ + archive_lines(self@),
    {
        let mut out = String::from_str("Archive (");
        push_decimal(&mut out, self.tasks.len() as u64);
        out.append(" tasks)\n");
        let ghost head = out@;
        let mut i: usize = 0;
        while i < self.tasks.len()
            invariant
                i <= self.tasks@.len(),
                out@ == head + archive_lines(self.tasks@.take(i as int)),
            decreases self.tasks@.len() - i,
        {
            let t = &self.tasks[i];
            out.append("- ");
            out.append(t.title.as_str());
            out.append(" (id ");
            push_decimal(&mut out, t.id);
            out.append(")\n");
            proof {
                assert(self.tasks@.take(i + 1).drop_last() =~= self.tasks@.take(i as int));
                assert(out@ =~= head + archive_lines(self.tasks@.take(i + 1)));
            }
            i += 1;
        }
        assert(self.tasks@.take(i as int) =~= self.tasks@);
        out
    }
}

} // verus!
