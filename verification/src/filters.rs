//! Composable task filters, and combinations of them.

use vstd::prelude::*;
use crate::seqs::{dedup, deref_all, lemma_dedup_props, negate};
use crate::task::{Task, Priority, tag_views, urgency_halves};
use crate::text::{has_substring, lowercase, str_contains, to_lowercase};

verus! {

/// What a filter tests; each `None` test passes every task.
pub struct FilterView {
    pub priority: Option<Priority>,
    pub done: Option<bool>,
    pub tag: Option<Seq<char>>,
    pub title_part: Option<Seq<char>>,
    pub min_urgency_halves: Option<i64>,
}

/// A task passes the filter when it has the priority, the status and the tag
/// asked for, its lower-cased title contains the (lower-cased) part asked
/// for, and its urgency score in halves is at least the minimum asked for.
pub open spec fn accepts(f: FilterView) -> spec_fn(Task) -> bool {
    |t: Task|
        {
            &&& (f.priority matches Some(p) ==> t.priority == p)
            &&& (f.done matches Some(d) ==> t.done == d)
            &&& (f.tag matches Some(tag) ==> tag_views(t.tags@).contains(tag))
            &&& (f.title_part matches Some(part) ==> has_substring(lowercase(t.title@), part))
            &&& (f.min_urgency_halves matches Some(m) ==> urgency_halves(t) >= m)
        }
}

/// The tests of a fresh builder: none.
pub open spec fn no_tests() -> FilterView {
    FilterView { priority: None, done: None, tag: None, title_part: None, min_urgency_halves: None }
}

/// A priority test passes only tasks of exactly that priority: a filter with
/// only that test set selects the same tasks, in the same order, as looking
/// the priority up (`TaskStore::get_by_priority`), and any filter with that
/// test set passes no task of another priority.
pub proof fn lemma_priority_test_is_exact(s: Seq<Task>, f: FilterView, p: Priority, t: Task)
    requires
        f.priority == Some(p),
    ensures
        accepts(f)(t) ==> t.priority == p,
        accepts(with_priority_view(no_tests(), Some(p)))(t) <==> t.priority == p,
        s.filter(accepts(with_priority_view(no_tests(), Some(p)))) == s.filter(
            crate::task::has_priority(p),
        ),
{
    assert(accepts(with_priority_view(no_tests(), Some(p))) =~= crate::task::has_priority(p));
}

/// A status test passes only tasks whose done flag is exactly that status.
pub proof fn lemma_status_test_is_exact(f: FilterView, d: bool, t: Task)
    requires
        f.done == Some(d),
    ensures
        accepts(f)(t) ==> t.done == d,
        accepts(with_done_view(no_tests(), Some(d)))(t) <==> t.done == d,
{
}

/// A tag test passes only tasks that carry that tag.
pub proof fn lemma_tag_test_is_exact(f: FilterView, g: Seq<char>, t: Task)
    requires
        f.tag == Some(g),
    ensures
        accepts(f)(t) ==> tag_views(t.tags@).contains(g),
        accepts(with_tag_view(no_tests(), Some(g)))(t) <==> tag_views(t.tags@).contains(g),
{
}

/// An urgency threshold passes exactly the tasks whose score in halves
/// reaches it, so raising the threshold never lets more tasks through.
pub proof fn lemma_urgency_test_is_threshold(f: FilterView, m: i64, m2: i64, t: Task)
    requires
        f.min_urgency_halves == Some(m),
    ensures
        accepts(f)(t) ==> urgency_halves(t) >= m,
        accepts(with_urgency_view(no_tests(), Some(m)))(t) <==> urgency_halves(t) >= m,
        m <= m2 && accepts(with_urgency_view(no_tests(), Some(m2)))(t) ==> accepts(
            with_urgency_view(no_tests(), Some(m)),
        )(t),
{
}

/// A title test passes only tasks whose lower-cased title contains the part,
/// and an empty part passes every task.
pub proof fn lemma_title_test_is_containment(f: FilterView, part: Seq<char>, t: Task)
    requires
        f.title_part == Some(part),
    ensures
        accepts(f)(t) ==> has_substring(lowercase(t.title@), part),
        accepts(with_title_view(no_tests(), Some(Seq::<char>::empty())))(t),
{
    assert(lowercase(t.title@).subrange(0, 0) =~= Seq::<char>::empty());
    assert(lowercase(t.title@).subrange(0int, 0int + Seq::<char>::empty().len()) =~= Seq::<char>::empty());
}

/// A filter with no tests passes every task, and adding a test never lets
/// more tasks through.
pub proof fn lemma_tests_only_narrow(f: FilterView, t: Task)
    ensures
        accepts(no_tests())(t),
        accepts(f)(t) ==> accepts(with_priority_view(f, None))(t),
        accepts(f)(t) ==> accepts(with_done_view(f, None))(t),
        accepts(f)(t) ==> accepts(with_tag_view(f, None))(t),
        accepts(f)(t) ==> accepts(with_title_view(f, None))(t),
        accepts(f)(t) ==> accepts(with_urgency_view(f, None))(t),
{
}

/// The urgent tasks are the pending ones among the critical tasks, in order.
pub proof fn lemma_urgent_are_pending_critical(s: Seq<Task>)
    ensures
        s.filter(is_urgent()) == s.filter(crate::task::has_priority(Priority::Critical)).filter(
            crate::task::is_pending(),
        ),
    decreases s.len(),
{
    if s.len() > 0 {
        let p = s.drop_last();
        let x = s.last();
        lemma_urgent_are_pending_critical(p);
        assert(p.push(x) =~= s);
        p.lemma_filter_push(x, is_urgent());
        p.lemma_filter_push(x, crate::task::has_priority(Priority::Critical));
        let c = p.filter(crate::task::has_priority(Priority::Critical));
        c.lemma_filter_push(x, crate::task::is_pending());
    } else {
        assert(s.filter(is_urgent()) =~= Seq::<Task>::empty()) by {
            reveal(Seq::filter);
        }
        assert(s.filter(crate::task::has_priority(Priority::Critical)) =~= Seq::<Task>::empty()) by {
            reveal(Seq::filter);
        }
        assert(Seq::<Task>::empty().filter(crate::task::is_pending()) =~= Seq::<Task>::empty()) by {
            reveal(Seq::filter);
        }
    }
}

/// A task passes every filter set on a builder.
pub struct FilterBuilder {
    priority_filter: Option<Priority>,
    done_filter: Option<bool>,
    tag_filter: Option<String>,
    title_contains: Option<String>,
    min_urgency: Option<i64>,
}

impl View for FilterBuilder {
    type V = FilterView;

    closed spec fn view(&self) -> FilterView {
        FilterView {
            priority: self.priority_filter,
            done: self.done_filter,
            tag: match self.tag_filter {
                Some(t) => Some(t@),
                None => None,
            },
            title_part: match self.title_contains {
                Some(t) => Some(t@),
                None => None,
            },
            min_urgency_halves: self.min_urgency,
        }
    }
}

/// `f` with its priority test replaced.
pub open spec fn with_priority_view(f: FilterView, p: Option<Priority>) -> FilterView {
    FilterView { priority: p, ..f }
}

/// `f` with its status test replaced.
pub open spec fn with_done_view(f: FilterView, d: Option<bool>) -> FilterView {
    FilterView { done: d, ..f }
}

/// `f` with its tag test replaced.
pub open spec fn with_tag_view(f: FilterView, t: Option<Seq<char>>) -> FilterView {
    FilterView { tag: t, ..f }
}

/// `f` with its title test replaced.
pub open spec fn with_title_view(f: FilterView, t: Option<Seq<char>>) -> FilterView {
    FilterView { title_part: t, ..f }
}

/// `f` with its urgency test replaced.
pub open spec fn with_urgency_view(f: FilterView, m: Option<i64>) -> FilterView {
    FilterView { min_urgency_halves: m, ..f }
}

/// A task that is pending and critical.
pub open spec fn is_urgent() -> spec_fn(Task) -> bool {
    |t: Task| !t.done && t.priority == Priority::Critical
}

/// The positions, among the first `n`, of the tasks of `s` that pass `f`, in order.
pub open spec fn passing_positions(s: Seq<Task>, f: FilterView, n: int) -> Seq<int>
    decreases n,
{
    if n <= 0 {
        Seq::empty()
    } else {
        let p = passing_positions(s, f, n - 1);
        if accepts(f)(s[n - 1]) {
            p.push(n - 1)
        } else {
            p
        }
    }
}

/// The positions of the tasks that pass each filter in turn, one list after another.
pub open spec fn positions_in_turn(s: Seq<Task>, filters: Seq<FilterBuilder>) -> Seq<int>
    decreases filters.len(),
{
    if filters.len() == 0 {
        Seq::empty()
    } else {
        positions_in_turn(s, filters.drop_last()) + passing_positions(s, filters.last()@, s.len() as int)
    }
}

/// The tasks of `s` at the positions `ps`.
pub open spec fn tasks_at(s: Seq<Task>, ps: Seq<int>) -> Seq<Task> {
    Seq::new(ps.len(), |k: int| s[ps[k]])
}

proof fn lemma_passing_positions(s: Seq<Task>, f: FilterView, n: int)
    requires
        0 <= n <= s.len(),
    ensures
        forall|i: int| #[trigger] passing_positions(s, f, n).contains(i) <==> (0 <= i < n && accepts(f)(s[i])),
    decreases n,
{
    if n > 0 {
        lemma_passing_positions(s, f, n - 1);
        let p = passing_positions(s, f, n - 1);
        assert forall|i: int| #[trigger] passing_positions(s, f, n).contains(i) <==> (0 <= i < n && accepts(f)(s[i])) by {
            if accepts(f)(s[n - 1]) {
                let q = p.push(n - 1);
                if q.contains(i) && i != n - 1 {
                    let w = choose|w: int| 0 <= w < q.len() && q[w] == i;
                    assert(p[w] == i);
                }
                if p.contains(i) {
                    let w = choose|w: int| 0 <= w < p.len() && p[w] == i;
                    assert(q[w] == i);
                }
                if i == n - 1 {
                    assert(q[p.len() as int] == i);
                }
            }
        }
    }
}

proof fn lemma_positions_in_turn(s: Seq<Task>, filters: Seq<FilterBuilder>)
    ensures
        forall|i: int| #[trigger] positions_in_turn(s, filters).contains(i) <==> (0 <= i < s.len() && exists|k: int|
            0 <= k < filters.len() && accepts(#[trigger] filters[k]@)(s[i])),
    decreases filters.len(),
{
    if filters.len() > 0 {
        let fs = filters.drop_last();
        lemma_positions_in_turn(s, fs);
        lemma_passing_positions(s, filters.last()@, s.len() as int);
        let a = positions_in_turn(s, fs);
        let b = passing_positions(s, filters.last()@, s.len() as int);
        assert forall|i: int| #[trigger] positions_in_turn(s, filters).contains(i) <==> (0 <= i < s.len()
            && exists|k: int| 0 <= k < filters.len() && accepts(#[trigger] filters[k]@)(s[i])) by {
            if (a + b).contains(i) {
                let w = choose|w: int| 0 <= w < (a + b).len() && (a + b)[w] == i;
                if w < a.len() {
                    assert(a.contains(i));
                    let k = choose|k: int| 0 <= k < fs.len() && accepts(#[trigger] fs[k]@)(s[i]);
                    assert(filters[k] == fs[k]);
                } else {
                    assert(b[w - a.len()] == i);
                    assert(b.contains(i));
                    assert(accepts(filters[filters.len() - 1]@)(s[i]));
                }
            }
            if 0 <= i < s.len() && exists|k: int| 0 <= k < filters.len() && accepts(#[trigger] filters[k]@)(s[i]) {
                let k = choose|k: int| 0 <= k < filters.len() && accepts(#[trigger] filters[k]@)(s[i]);
                if k < fs.len() {
                    assert(fs[k] == filters[k]);
                    assert(a.contains(i));
                    let w = choose|w: int| 0 <= w < a.len() && a[w] == i;
                    assert((a + b)[w] == i);
                } else {
                    assert(b.contains(i));
                    let w = choose|w: int| 0 <= w < b.len() && b[w] == i;
                    assert((a + b)[a.len() + w] == i);
                }
            }
        }
    }
}

/// Combining filters lists each task that passes at least one filter once,
/// and no other: the positions listed are distinct, and a position is listed
/// exactly when its task passes some filter.
pub proof fn lemma_combined_is_union(s: Seq<Task>, filters: Seq<FilterBuilder>)
    ensures
        forall|i: int, j: int|
            0 <= i < j < dedup(positions_in_turn(s, filters)).len() ==> #[trigger] dedup(positions_in_turn(s, filters))[i]
                != #[trigger] dedup(positions_in_turn(s, filters))[j],
        forall|i: int| #[trigger] dedup(positions_in_turn(s, filters)).contains(i) <==> (0 <= i < s.len() && exists|k: int|
            0 <= k < filters.len() && accepts(#[trigger] filters[k]@)(s[i])),
{
    lemma_dedup_props(positions_in_turn(s, filters));
    lemma_positions_in_turn(s, filters);
}

impl FilterBuilder {
    /// A filter that passes every task.
    pub fn new() -> (f: FilterBuilder)
        ensures
            f@ == (FilterView {
                priority: None,
                done: None,
                tag: None,
                title_part: None,
                min_urgency_halves: None,
            }),
    {
        FilterBuilder {
            priority_filter: None,
            done_filter: None,
            tag_filter: None,
            title_contains: None,
            min_urgency: None,
        }
    }

    /// Only tasks of priority `priority`.
    pub fn with_priority(self, priority: Priority) -> (f: FilterBuilder)
        ensures
            f@ == with_priority_view(self@, Some(priority)),
    {
        let mut f = self;
        f.priority_filter = Some(priority);
        f
    }

    /// Only tasks whose done flag is `done`.
    pub fn with_status(self, done: bool) -> (f: FilterBuilder)
        ensures
            f@ == with_done_view(self@, Some(done)),
    {
        let mut f = self;
        f.done_filter = Some(done);
        f
    }

    /// Only tasks that have the tag `tag`.
    pub fn with_tag(self, tag: &str) -> (f: FilterBuilder)
        ensures
            f@ == with_tag_view(self@, Some(tag@)),
    {
        let mut f = self;
        f.tag_filter = Some(String::from_str(tag));
        f
    }

    /// Only tasks whose title contains `substring`, ignoring case.
    pub fn title_contains(self, substring: &str) -> (f: FilterBuilder)
        ensures
            f@ == with_title_view(self@, Some(lowercase(substring@))),
    {
        let mut f = self;
        f.title_contains = Some(to_lowercase(substring));
        f
    }

    /// Only tasks whose urgency score, counted in halves, is at least
    /// `min_halves` (a score threshold of 12.5 is 25 halves).
    pub fn min_urgency(self, min_halves: i64) -> (f: FilterBuilder)
        ensures
            f@ == with_urgency_view(self@, Some(min_halves)),
    {
        let mut f = self;
        f.min_urgency = Some(min_halves);
        f
    }

    /// Whether `task` passes every test of this filter.
    pub fn passes(&self, task: &Task) -> (r: bool)
        ensures
            r == accepts(self@)(*task),
    {
        if let Some(p) = self.priority_filter {
            if task.priority != p {
                return false;
            }
        }
        if let Some(d) = self.done_filter {
            if task.done != d {
                return false;
            }
        }
        if let Some(tag) = &self.tag_filter {
            if !task.has_tag(tag.as_str()) {
                return false;
            }
        }
        if let Some(part) = &self.title_contains {
            let title = to_lowercase(task.title.as_str());
            if !str_contains(title.as_str(), part.as_str()) {
                return false;
            }
        }
        if let Some(m) = self.min_urgency {
            if (task.urgency_in_halves() as i64) < m {
                return false;
            }
        }
        true
    }

    /// The tasks that pass the filter, in order.
    pub fn apply<'a>(&self, tasks: &'a [Task]) -> (r: Vec<&'a Task>)
        ensures
            deref_all(r@) == tasks@.filter(accepts(self@)),
    {
        let mut results: Vec<&'a Task> = Vec::new();
        let mut i: usize = 0;
        while i < tasks.len()
            invariant
                i <= tasks@.len(),
                deref_all(results@) == tasks@.take(i as int).filter(accepts(self@)),
            decreases tasks@.len() - i,
        {
            proof {
                assert(tasks@.take(i + 1) =~= tasks@.take(i as int).push(tasks@[i as int]));
                tasks@.take(i as int).lemma_filter_push(tasks@[i as int], accepts(self@));
            }
            let ghost before = results@;
            if self.passes(&tasks[i]) {
                results.push(&tasks[i]);
                assert(deref_all(results@) =~= deref_all(before).push(tasks@[i as int]));
            }
            i += 1;
        }
        assert(tasks@.take(i as int) =~= tasks@);
        results
    }

    /// How many tasks pass the filter.
    pub fn count(&self, tasks: &[Task]) -> (n: usize)
        ensures
            n == tasks@.filter(accepts(self@)).len(),
    {
        self.apply(tasks).len()
    }

    /// Whether some task passes the filter.
    pub fn any_match(&self, tasks: &[Task]) -> (r: bool)
        ensures
            r == (tasks@.filter(accepts(self@)).len() > 0),
    {
        self.apply(tasks).len() > 0
    }

    /// The first task that passes the filter, if any.
    pub fn first_match<'a>(&self, tasks: &'a [Task]) -> (r: Option<&'a Task>)
        ensures
            r is None <==> tasks@.filter(accepts(self@)).len() == 0,
            r matches Some(t) ==> *t == tasks@.filter(accepts(self@))[0],
    {
        let results = self.apply(tasks);
        if results.len() > 0 {
            Some(results[0])
        } else {
            None
        }
    }
}

/// The tasks that pass any of the filters (OR), each once: the tasks that
/// pass the first filter in order, then those that pass the second and are
/// not listed yet, and so on.
pub fn combine_filters<'a>(tasks: &'a [Task], filters: &[FilterBuilder]) -> (r: Vec<&'a Task>)
    ensures
        deref_all(r@) == tasks_at(tasks@, dedup(positions_in_turn(tasks@, filters@))),
{
    let n = tasks.len();
    let mut seen: Vec<bool> = Vec::new();
    let mut q: usize = 0;
    while q < n
        invariant
            n == tasks@.len(),
            q <= n,
            seen@.len() == q,
            forall|m: int| 0 <= m < q ==> !#[trigger] seen@[m],
        decreases n - q,
    {
        seen.push(false);
        q += 1;
    }
    let mut combined: Vec<&'a Task> = Vec::new();
    let mut k: usize = 0;
    while k < filters.len()
        invariant
            n == tasks@.len(),
            seen@.len() == n,
            k <= filters@.len(),
            deref_all(combined@) == tasks_at(tasks@, dedup(positions_in_turn(tasks@, filters@.take(k as int)))),
            forall|m: int| 0 <= m < n ==> #[trigger] seen@[m] == positions_in_turn(tasks@, filters@.take(k as int)).contains(m),
        decreases filters@.len() - k,
    {
        let filter = &filters[k];
        let ghost before = positions_in_turn(tasks@, filters@.take(k as int));
        proof {
            assert(filters@.take(k + 1).drop_last() =~= filters@.take(k as int));
            assert(filters@.take(k + 1).last() == *filter);
            assert(before + passing_positions(tasks@, filter@, 0) =~= before);
        }
        let mut i: usize = 0;
        while i < n
            invariant
                n == tasks@.len(),
                seen@.len() == n,
                i <= n,
                deref_all(combined@) == tasks_at(tasks@, dedup(before + passing_positions(tasks@, filter@, i as int))),
                forall|m: int| 0 <= m < n ==> #[trigger] seen@[m] == (before + passing_positions(tasks@, filter@, i as int)).contains(m),
            decreases n - i,
        {
            let ghost p = before + passing_positions(tasks@, filter@, i as int);
            let pass = filter.passes(&tasks[i]);
            proof {
                lemma_dedup_props(p);
                if pass {
                    assert(before + passing_positions(tasks@, filter@, i + 1) =~= p.push(i as int));
                    assert(p.push(i as int).drop_last() =~= p);
                    assert forall|m: int| 0 <= m < n implies #[trigger] p.push(i as int).contains(m) == (p.contains(m) || m == i) by {
                        if p.push(i as int).contains(m) && m != i {
                            let w = choose|w: int| 0 <= w < p.push(i as int).len() && p.push(i as int)[w] == m;
                            assert(p[w] == m);
                        }
                        if p.contains(m) {
                            let w = choose|w: int| 0 <= w < p.len() && p[w] == m;
                            assert(p.push(i as int)[w] == m);
                        }
                        if m == i {
                            assert(p.push(i as int)[p.len() as int] == m);
                        }
                    }
                } else {
                    assert(before + passing_positions(tasks@, filter@, i + 1) =~= p);
                }
            }
            if pass && !seen[i] {
                let ghost old_combined = combined@;
                seen.set(i, true);
                combined.push(&tasks[i]);
                proof {
                    assert(deref_all(combined@) =~= deref_all(old_combined).push(tasks@[i as int]));
                    assert(tasks_at(tasks@, dedup(p).push(i as int)) =~= tasks_at(tasks@, dedup(p)).push(tasks@[i as int]));
                }
            }
            i += 1;
        }
        proof {
            assert(positions_in_turn(tasks@, filters@.take(k + 1)) == before + passing_positions(tasks@, filter@, n as int));
        }
        k += 1;
    }
    assert(filters@.take(k as int) =~= filters@);
    combined
}

/// The pending critical tasks, in order.
pub fn find_urgent(tasks: &[Task]) -> (r: Vec<&Task>)
    ensures
        deref_all(r@) == tasks@.filter(is_urgent()),
{
    let mut results: Vec<&Task> = Vec::new();
    let mut i: usize = 0;
    while i < tasks.len()
        invariant
            i <= tasks@.len(),
            deref_all(results@) == tasks@.take(i as int).filter(is_urgent()),
        decreases tasks@.len() - i,
    {
        proof {
            assert(tasks@.take(i + 1) =~= tasks@.take(i as int).push(tasks@[i as int]));
            tasks@.take(i as int).lemma_filter_push(tasks@[i as int], is_urgent());
        }
        let ghost before = results@;
        if !tasks[i].done && tasks[i].priority == Priority::Critical {
            results.push(&tasks[i]);
            assert(deref_all(results@) =~= deref_all(before).push(tasks@[i as int]));
        }
        i += 1;
    }
    assert(tasks@.take(i as int) =~= tasks@);
    results
}

/// Splits the tasks into those that pass the filter and those that do not,
/// each in order.
pub fn partition_by_filter<'a>(tasks: &'a [Task], filter: &FilterBuilder) -> (r: (Vec<&'a Task>, Vec<&'a Task>))
    ensures
        deref_all(r.0@) == tasks@.filter(accepts(filter@)),
        deref_all(r.1@) == tasks@.filter(negate(accepts(filter@))),
{
    let matching = filter.apply(tasks);
    let mut not_matching: Vec<&'a Task> = Vec::new();
    let mut i: usize = 0;
    while i < tasks.len()
        invariant
            i <= tasks@.len(),
            deref_all(not_matching@) == tasks@.take(i as int).filter(negate(accepts(filter@))),
        decreases tasks@.len() - i,
    {
        proof {
            assert(tasks@.take(i + 1) =~= tasks@.take(i as int).push(tasks@[i as int]));
            tasks@.take(i as int).lemma_filter_push(tasks@[i as int], negate(accepts(filter@)));
        }
        let ghost before = not_matching@;
        if !filter.passes(&tasks[i]) {
            not_matching.push(&tasks[i]);
            assert(deref_all(not_matching@) =~= deref_all(before).push(tasks@[i as int]));
        }
        i += 1;
    }
    assert(tasks@.take(i as int) =~= tasks@);
    (matching, not_matching)
}

} // verus!
