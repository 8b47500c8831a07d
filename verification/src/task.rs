//! Tasks, their priorities, and the counter that hands out task ids.

use vstd::prelude::*;
use crate::text::{byte_len, byte_length, byte_prefix, is_boundary_at, lowercase, prefix_bytes, str_eq, to_lowercase};

verus! {

/// How urgent a task is, from `Low` to `Critical`.
#[derive(Debug, Clone, Copy, PartialEq, Eq, Structural)]
pub enum Priority {
    Low,
    Medium,
    High,
    Critical,
}

impl Priority {
    /// The rank of a priority: 1 for `Low` up to 4 for `Critical`.
    pub open spec fn rank(self) -> int {
        match self {
            Priority::Low => 1,
            Priority::Medium => 2,
            Priority::High => 3,
            Priority::Critical => 4,
        }
    }

    /// The rank of this priority (1 to 4).
    pub fn numeric_value(&self) -> (v: i32)
        ensures
            v == self.rank(),
    {
        match self {
            Priority::Low => 1,
            Priority::Medium => 2,
            Priority::High => 3,
            Priority::Critical => 4,
        }
    }

    /// The priority that an already lower-cased name stands for; unknown
    /// names mean `Medium`.
    pub open spec fn from_lowered(s: Seq<char>) -> Priority {
        if s == "low"@ {
            Priority::Low
        } else if s == "medium"@ || s == "med"@ {
            Priority::Medium
        } else if s == "high"@ {
            Priority::High
        } else if s == "critical"@ || s == "crit"@ {
            Priority::Critical
        } else {
            Priority::Medium
        }
    }

    /// Reads a priority from a name that is already in lower case.
    pub fn from_lowercase_name(s: &str) -> (p: Priority)
        ensures
            p == Priority::from_lowered(s@),
    {
        if str_eq(s, "low") {
            Priority::Low
        } else if str_eq(s, "medium") || str_eq(s, "med") {
            Priority::Medium
        } else if str_eq(s, "high") {
            Priority::High
        } else if str_eq(s, "critical") || str_eq(s, "crit") {
            Priority::Critical
        } else {
            Priority::Medium
        }
    }

    /// Reads a priority from its name in any case ("low", "HIGH", "crit", ...);
    /// anything unknown means `Medium`.
    pub fn from_str(s: &str) -> (p: Priority)
        ensures
            p == Priority::from_lowered(lowercase(s@)),
    {
        let lowered = to_lowercase(s);
        Priority::from_lowercase_name(lowered.as_str())
    }

    /// The name that `{:?}` prints for this priority.
    pub open spec fn debug_name(self) -> Seq<char> {
        match self {
            Priority::Low => "Low"@,
            Priority::Medium => "Medium"@,
            Priority::High => "High"@,
            Priority::Critical => "Critical"@,
        }
    }

    /// The name that `{:?}` prints for this priority ("Low", ..., "Critical").
    pub fn name(&self) -> (r: &'static str)
        ensures
            r@ == self.debug_name(),
    {
        match self {
            Priority::Low => "Low",
            Priority::Medium => "Medium",
            Priority::High => "High",
            Priority::Critical => "Critical",
        }
    }
}

/// The source of task ids: ids are handed out in increasing order from 1.
pub struct TaskIds {
    next: u64,
}

impl View for TaskIds {
    type V = u64;

    /// The id that the next task will receive.
    closed spec fn view(&self) -> u64 {
        self.next
    }
}

impl TaskIds {
    /// A fresh counter whose first id is 1.
    pub fn new() -> (ids: TaskIds)
        ensures
            ids@ == 1,
    {
        TaskIds { next: 1 }
    }

    /// Hands out the current id and moves to the next one.
    pub fn next_id(&mut self) -> (id: u64)
        requires
            old(self)@ < u64::MAX,
        ensures
            id == old(self)@,
            final(self)@ == old(self)@ + 1,
    {
        let current = self.next;
        self.next = self.next + 1;
        current
    }
}

/// The lower-case name of a priority ("low", "medium", "high", "critical").
pub open spec fn lower_name(p: Priority) -> Seq<char> {
    match p {
        Priority::Low => "low"@,
        Priority::Medium => "medium"@,
        Priority::High => "high"@,
        Priority::Critical => "critical"@,
    }
}

/// Reading back the lower-case name of a priority gives that priority.
pub proof fn lemma_lower_name_round_trip(p: Priority)
    ensures
        Priority::from_lowered(lower_name(p)) == p,
{
    reveal_strlit("low");
    reveal_strlit("medium");
    reveal_strlit("med");
    reveal_strlit("high");
    reveal_strlit("critical");
    reveal_strlit("crit");
    assert("low"@[0] == 'l' && "medium"@[0] == 'm' && "med"@[0] == 'm');
    assert("high"@[0] == 'h' && "critical"@[0] == 'c' && "crit"@[0] == 'c');
}

/// The characters of each tag, in order.
pub open spec fn tag_views(tags: Seq<String>) -> Seq<Seq<char>> {
    tags.map_values(|t: String| t@)
}

/// A tag whose text differs from `tag`.
pub open spec fn tag_differs(tag: Seq<char>) -> spec_fn(String) -> bool {
    |t: String| t@ != tag
}

/// After a tag is added, the task has it.
pub proof fn lemma_added_tag_is_present(tags: Seq<String>, added: String)
    ensures
        tag_views(tags.push(added)).contains(added@),
{
    assert(tag_views(tags.push(added))[tags.len() as int] == added@);
}

/// After a tag is removed, the task no longer has it, and keeps every other tag.
pub proof fn lemma_removed_tag_is_absent(tags: Seq<String>, tag: Seq<char>)
    ensures
        !tag_views(tags.filter(tag_differs(tag))).contains(tag),
        forall|i: int| 0 <= i < tags.len() && tags[i]@ != tag ==> tags.filter(tag_differs(tag)).contains(
            #[trigger] tags[i],
        ),
{
    broadcast use vstd::seq_lib::group_filter_ensures;
    let r = tags.filter(tag_differs(tag));
    if tag_views(r).contains(tag) {
        let k = choose|k: int| 0 <= k < tag_views(r).len() && tag_views(r)[k] == tag;
        assert(tag_differs(tag)(r[k]));
    }
    assert forall|i: int| 0 <= i < tags.len() && tags[i]@ != tag implies r.contains(#[trigger] tags[i]) by {
        assert(tag_differs(tag)(tags[i]));
    }
}

/// A task that is not done yet.
pub open spec fn is_pending() -> spec_fn(Task) -> bool {
    |t: Task| !t.done
}

/// A task that is done.
pub open spec fn is_done() -> spec_fn(Task) -> bool {
    |t: Task| t.done
}

/// A task of priority `p`.
pub open spec fn has_priority(p: Priority) -> spec_fn(Task) -> bool {
    |t: Task| t.priority == p
}

/// A task whose id is not `id`.
pub open spec fn id_differs(id: u64) -> spec_fn(Task) -> bool {
    |t: Task| t.id != id
}

/// The urgency keys (scores in halves) of a sequence of tasks.
pub open spec fn urgency_keys(s: Seq<Task>) -> Seq<i32> {
    Seq::new(s.len(), |i: int| urgency_halves(s[i]) as i32)
}

/// `t` with its done flag set to `done`.
pub open spec fn with_done(t: Task, done: bool) -> Task {
    Task { done: done, ..t }
}

/// `i` is the first position of `s` that holds a task with id `id`.
pub open spec fn first_with_id(s: Seq<Task>, id: u64, i: int) -> bool {
    &&& 0 <= i < s.len()
    &&& s[i].id == id
    &&& forall|j: int| 0 <= j < i ==> s[j].id != id
}

/// Some task in `s` has id `id`.
pub open spec fn has_id(s: Seq<Task>, id: u64) -> bool {
    exists|i: int| 0 <= i < s.len() && s[i].id == id
}

/// A task: an id, a title, a description, a priority, whether it is done, and tags.
#[derive(Debug, Clone)]
pub struct Task {
    pub id: u64,
    pub title: String,
    pub description: String,
    pub priority: Priority,
    pub done: bool,
    pub tags: Vec<String>,
}

/// The urgency score of a task counted in halves: ten points per priority rank,
/// half a point when it has tags, and a hundred points off when it is done.
pub open spec fn urgency_halves(t: Task) -> int {
    20 * t.priority.rank() + (if t.tags@.len() > 0 { 1int } else { 0int }) - (if t.done {
        200int
    } else {
        0int
    })
}

/// `t` is a task that is not done and has at least `High` priority.
pub open spec fn actionable(t: Task) -> bool {
    !t.done && t.priority.rank() >= 3
}

/// The marker that `formatted_title` puts before the title.
pub open spec fn title_marker(p: Priority) -> Seq<char> {
    match p {
        Priority::Critical => "🔥 "@,
        Priority::High => "⚠️  "@,
        Priority::Medium => ""@,
        Priority::Low => ""@,
    }
}

/// "DONE" for a finished task, "TODO" otherwise.
pub open spec fn status_word(done: bool) -> Seq<char> {
    if done { "DONE"@ } else { "TODO"@ }
}

/// The description as `summary` shows it: cut to its first 50 bytes, followed
/// by "...", when it is longer than that.
pub open spec fn description_preview(d: Seq<char>) -> Seq<char> {
    if byte_len(d) > 50 {
        byte_prefix(d, 50) + "..."@
    } else {
        d
    }
}

/// The one-line summary of a task.
pub open spec fn summary_text(t: Task) -> Seq<char> {
    let preview = description_preview(t.description@);
    let head = "["@ + status_word(t.done) + "] "@ + t.title@;
    if preview.len() > 0 {
        head + " - "@ + preview
    } else {
        head
    }
}

/// The fields of `a` and `b` other than the tags are the same.
pub open spec fn same_but_tags(a: Task, b: Task) -> bool {
    &&& a.id == b.id
    &&& a.title == b.title
    &&& a.description == b.description
    &&& a.priority == b.priority
    &&& a.done == b.done
}

impl Task {
    /// A new task with the next id of `ids`, the given title and priority, an
    /// empty description, no tags, not done.
    pub fn new(ids: &mut TaskIds, title: &str, priority: Priority) -> (t: Task)
        requires
            old(ids)@ < u64::MAX,
        ensures
            t.id == old(ids)@,
            final(ids)@ == old(ids)@ + 1,
            t.title@ == title@,
            t.description@ == Seq::<char>::empty(),
            t.priority == priority,
            !t.done,
            t.tags@.len() == 0,
    {
        let id = ids.next_id();
        Task {
            id,
            title: String::from_str(title),
            description: String::new(),
            priority,
            done: false,
            tags: Vec::new(),
        }
    }

    /// The same task with its description replaced.
    pub fn with_description(self, desc: &str) -> (t: Task)
        ensures
            t.id == self.id,
            t.title == self.title,
            t.description@ == desc@,
            t.priority == self.priority,
            t.done == self.done,
            t.tags == self.tags,
    {
        let mut t = self;
        t.description = String::from_str(desc);
        t
    }

    /// Adds a tag at the end, even when the task already has it.
    pub fn add_tag(&mut self, tag: &str)
        ensures
            same_but_tags(*final(self), *old(self)),
            tag_views(final(self).tags@) == tag_views(old(self).tags@).push(tag@),
            final(self).tags@.drop_last() == old(self).tags@,
    {
        self.tags.push(String::from_str(tag));
        proof {
            assert(tag_views(self.tags@) =~= tag_views(old(self).tags@).push(tag@));
            assert(self.tags@.drop_last() =~= old(self).tags@);
        }
    }

    /// Removes every tag equal to `tag`, keeping the others in order.
    pub fn remove_tag(&mut self, tag: &str)
        ensures
            same_but_tags(*final(self), *old(self)),
            final(self).tags@ == old(self).tags@.filter(tag_differs(tag@)),
    {
        let ghost orig = self.tags@;
        let ghost mut j: int = 0;
        let mut i: usize = 0;
        while i < self.tags.len()
            invariant
                same_but_tags(*self, *old(self)),
                orig == old(self).tags@,
                0 <= i <= j <= orig.len(),
                self.tags@.len() - i == orig.len() - j,
                self.tags@.subrange(0, i as int) == orig.take(j).filter(tag_differs(tag@)),
                self.tags@.subrange(i as int, self.tags@.len() as int) == orig.skip(j),
            decreases self.tags@.len() - i,
        {
            let ghost before = self.tags@;
            proof {
                assert(orig.take(j + 1) =~= orig.take(j).push(orig[j]));
                orig.take(j).lemma_filter_push(orig[j], tag_differs(tag@));
                assert(before[i as int] == orig.skip(j)[0]);
            }
            let ghost rest = before.subrange(i as int, before.len() as int);
            assert(rest == orig.skip(j));
            assert(rest.skip(1) =~= orig.skip(j + 1));
            if str_eq(self.tags[i].as_str(), tag) {
                self.tags.remove(i);
                proof {
                    assert(self.tags@.subrange(0, i as int) =~= before.subrange(0, i as int));
                    assert(self.tags@.subrange(i as int, self.tags@.len() as int)
                        =~= rest.skip(1));
                    j = j + 1;
                }
            } else {
                i += 1;
                proof {
                    assert(self.tags@.subrange(0, i as int)
                        =~= before.subrange(0, i - 1).push(before[i - 1]));
                    assert(self.tags@.subrange(i as int, self.tags@.len() as int)
                        =~= rest.skip(1));
                    j = j + 1;
                }
            }
        }
        proof {
            assert(orig.take(j) =~= orig);
            assert(self.tags@ =~= self.tags@.subrange(0, i as int));
        }
    }

    /// Whether one of the tags equals `tag`.
    pub fn has_tag(&self, tag: &str) -> (r: bool)
        ensures
            r == tag_views(self.tags@).contains(tag@),
    {
        let mut i: usize = 0;
        while i < self.tags.len()
            invariant
                i <= self.tags@.len(),
                forall|k: int| 0 <= k < i ==> self.tags@[k]@ != tag@,
            decreases self.tags@.len() - i,
        {
            if str_eq(self.tags[i].as_str(), tag) {
                assert(tag_views(self.tags@)[i as int] == tag@);
                return true;
            }
            i += 1;
        }
        proof {
            if tag_views(self.tags@).contains(tag@) {
                let k = choose|k: int| 0 <= k < tag_views(self.tags@).len() && tag_views(self.tags@)[k] == tag@;
                assert(self.tags@[k]@ == tag@);
            }
        }
        false
    }

    /// The title's length in bytes.
    pub fn title_length(&self) -> (n: usize)
        ensures
            n == byte_len(self.title@),
    {
        byte_length(self.title.as_str())
    }

    /// A task is actionable when it is not done and has at least `High` priority.
    pub fn is_actionable(&self) -> (r: bool)
        ensures
            r == actionable(*self),
    {
        !self.done && self.priority.numeric_value() >= Priority::High.numeric_value()
    }

    /// The urgency score counted in halves (the score is always a multiple of
    /// one half): higher is more urgent.
    pub fn urgency_in_halves(&self) -> (u: i32)
        ensures
            u == urgency_halves(*self),
    {
        let base = self.priority.numeric_value() * 20;
        let tag_bonus: i32 = if self.tags.len() > 0 { 1 } else { 0 };
        let done_penalty: i32 = if self.done { -200 } else { 0 };
        base + tag_bonus + done_penalty
    }

    /// The title behind a marker for `Critical` and `High` tasks.
    pub fn formatted_title(&self) -> (s: String)
        ensures
            s@ == title_marker(self.priority) + self.title@,
    {
        let prefix = match self.priority {
            Priority::Critical => "🔥 ",
            Priority::High => "⚠️  ",
            Priority::Medium => "",
            Priority::Low => "",
        };
        let mut s = String::from_str(prefix);
        s.append(self.title.as_str());
        s
    }

    /// "[DONE] title - description" (or "[TODO] ..."); a description longer than
    /// 50 bytes is cut to 50 bytes and followed by "...", an empty one is left out.
    pub fn summary(&self) -> (s: String)
        requires
            byte_len(self.description@) > 50 ==> is_boundary_at(self.description@, 50),
        ensures
            s@ == summary_text(*self),
    {
        let status = if self.done { "DONE" } else { "TODO" };
        let desc = self.description.as_str();
        let mut preview = String::new();
        if byte_length(desc) > 50 {
            preview.append(prefix_bytes(desc, 50));
            preview.append("...");
        } else {
            preview.append(desc);
        }
        let mut s = String::from_str("[");
        s.append(status);
        s.append("] ");
        s.append(self.title.as_str());
        if !preview.as_str().is_empty() {
            s.append(" - ");
            s.append(preview.as_str());
        }
        proof {
            let head = "["@ + status_word(self.done) + "] "@ + self.title@;
            assert(preview@ == description_preview(self.description@));
            if preview@.len() > 0 {
                assert(s@ =~= head + " - "@ + preview@);
            } else {
                assert(s@ =~= head);
            }
        }
        s
    }
}

} // verus!
