//! Ordering tasks by urgency, most urgent first.

use vstd::prelude::*;
use crate::seqs::{comes_before, deref_all, order_desc_stable, stable_desc_order};
use crate::task::{Task, urgency_halves, urgency_keys};

verus! {

/// `r` holds the tasks of `s` sorted by urgency score, highest first, tasks
/// with equal scores in their order in `s` (a stable sort).
pub open spec fn urgency_sorted(s: Seq<Task>, r: Seq<Task>) -> bool {
    exists|ord: Seq<usize>|
        {
            &&& stable_desc_order(urgency_keys(s), ord)
            &&& r.len() == ord.len()
            &&& forall|i: int| 0 <= i < ord.len() ==> #[trigger] r[i] == s[ord[i] as int]
        }
}

/// A stable sort of `tasks` by urgency score, highest first.
pub fn sort_by_urgency<'a>(tasks: &Vec<&'a Task>) -> (r: Vec<&'a Task>)
    ensures
        urgency_sorted(deref_all(tasks@), deref_all(r@)),
{
    let ghost s = deref_all(tasks@);
    let mut keys: Vec<i32> = Vec::new();
    let mut i: usize = 0;
    while i < tasks.len()
        invariant
            s == deref_all(tasks@),
            i <= tasks@.len(),
            keys@ == urgency_keys(s).take(i as int),
        decreases tasks@.len() - i,
    {
        let k = tasks[i].urgency_in_halves();
        keys.push(k);
        i += 1;
        assert(keys@ =~= urgency_keys(s).take(i as int));
    }
    assert(keys@ =~= urgency_keys(s));
    let ord = order_desc_stable(&keys);
    let mut r: Vec<&'a Task> = Vec::new();
    let mut j: usize = 0;
    while j < ord.len()
        invariant
            s == deref_all(tasks@),
            stable_desc_order(urgency_keys(s), ord@),
            j <= ord@.len(),
            r@.len() == j,
            forall|m: int| 0 <= m < j ==> #[trigger] deref_all(r@)[m] == s[ord@[m] as int],
        decreases ord@.len() - j,
    {
        let t = tasks[ord[j]];
        let ghost old_r = r@;
        r.push(t);
        proof {
            assert forall|m: int| 0 <= m < j + 1 implies #[trigger] deref_all(r@)[m] == s[ord@[m] as int] by {
                if m < j {
                    assert(deref_all(r@)[m] == deref_all(old_r)[m]);
                }
            }
        }
        j += 1;
    }
    assert(urgency_sorted(s, deref_all(r@)));
    r
}

/// Sorting by urgency puts higher scores first and keeps exactly the same
/// tasks: each sorted task comes from the input, and each input position
/// appears once.
pub proof fn lemma_urgency_sorted_ordered(s: Seq<Task>, r: Seq<Task>)
    requires
        urgency_sorted(s, r),
    ensures
        r.len() == s.len(),
        forall|i: int, j: int|
            0 <= i < j < r.len() ==> urgency_halves(#[trigger] r[i]) >= urgency_halves(#[trigger] r[j]),
        forall|i: int| 0 <= i < r.len() ==> s.contains(#[trigger] r[i]),
        forall|k: int| 0 <= k < s.len() ==> r.contains(#[trigger] s[k]),
{
    let ord = choose|ord: Seq<usize>|
        {
            &&& stable_desc_order(urgency_keys(s), ord)
            &&& r.len() == ord.len()
            &&& forall|i: int| 0 <= i < ord.len() ==> #[trigger] r[i] == s[ord[i] as int]
        };
    assert forall|i: int, j: int| 0 <= i < j < r.len() implies urgency_halves(#[trigger] r[i])
        >= urgency_halves(#[trigger] r[j]) by {
        assert(comes_before(urgency_keys(s), ord[i] as int, ord[j] as int));
        assert(r[i] == s[ord[i] as int] && r[j] == s[ord[j] as int]);
        assert(-200 <= urgency_halves(r[i]) <= 81 && -200 <= urgency_halves(r[j]) <= 81);
    }
    assert forall|i: int| 0 <= i < r.len() implies s.contains(#[trigger] r[i]) by {
        assert(r[i] == s[ord[i] as int]);
    }
    assert forall|k: int| 0 <= k < s.len() implies r.contains(#[trigger] s[k]) by {
        assert(ord.contains(k as usize));
        let w = choose|w: int| 0 <= w < ord.len() && ord[w] == k as usize;
        assert(r[w] == s[ord[w] as int]);
        assert(r[w] == s[k]);
    }
}

} // verus!
