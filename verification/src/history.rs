//! The change history of tasks: a bounded log of timestamped events.

use vstd::prelude::*;
use crate::seqs::{count_where, deref_all, lemma_count_take_step};
use crate::task::Task;
use crate::text::{decimal, push_decimal};

verus! {

/// Something that happened to a task.
#[derive(Debug, Clone)]
pub enum HistoryEvent {
    Created { task_id: u64, title: String },
    Completed { task_id: u64 },
    Reopened { task_id: u64 },
    TagAdded { task_id: u64, tag: String },
    TagRemoved { task_id: u64, tag: String },
    PriorityChanged { task_id: u64, old_priority: String, new_priority: String },
    Deleted { task_id: u64, title: String },
}

/// An event with the time (seconds since the Unix epoch) it was recorded at.
#[derive(Debug, Clone)]
pub struct HistoryEntry {
    pub timestamp: u64,
    pub event: HistoryEvent,
}

/// The task that an event is about.
pub open spec fn event_task(e: HistoryEvent) -> u64 {
    match e {
        HistoryEvent::Created { task_id, .. } => task_id,
        HistoryEvent::Completed { task_id } => task_id,
        HistoryEvent::Reopened { task_id } => task_id,
        HistoryEvent::TagAdded { task_id, .. } => task_id,
        HistoryEvent::TagRemoved { task_id, .. } => task_id,
        HistoryEvent::PriorityChanged { task_id, .. } => task_id,
        HistoryEvent::Deleted { task_id, .. } => task_id,
    }
}

/// An entry about task `task_id`.
pub open spec fn entry_about(task_id: u64) -> spec_fn(HistoryEntry) -> bool {
    |e: HistoryEntry| event_task(e.event) == task_id
}

/// An entry recorded at `timestamp` or later.
pub open spec fn recorded_since(timestamp: u64) -> spec_fn(HistoryEntry) -> bool {
    |e: HistoryEntry| e.timestamp >= timestamp
}

/// An entry of a creation.
pub open spec fn is_creation() -> spec_fn(HistoryEntry) -> bool {
    |e: HistoryEntry| e.event is Created
}

/// An entry of a completion.
pub open spec fn is_completion() -> spec_fn(HistoryEntry) -> bool {
    |e: HistoryEntry| e.event is Completed
}

/// An entry of a deletion.
pub open spec fn is_deletion() -> spec_fn(HistoryEntry) -> bool {
    |e: HistoryEntry| e.event is Deleted
}

/// The kinds of event that the summary counts.
#[derive(Clone, Copy, PartialEq, Eq, Structural)]
enum EventKind {
    Creation,
    Completion,
    Deletion,
}

/// The test for an entry of kind `k`.
spec fn kind_test(k: EventKind) -> spec_fn(HistoryEntry) -> bool {
    match k {
        EventKind::Creation => is_creation(),
        EventKind::Completion => is_completion(),
        EventKind::Deletion => is_deletion(),
    }
}

/// The entries kept before a new one is added: when the log already holds
/// `max` entries or more, the oldest `max / 10` are dropped.
pub open spec fn trimmed(s: Seq<HistoryEntry>, max: usize) -> Seq<HistoryEntry> {
    if s.len() >= max {
        s.skip((max / 10) as int)
    } else {
        s
    }
}

/// `after` is `before` with one entry recorded: trimmed, then one entry added.
pub open spec fn one_recorded(before: Seq<HistoryEntry>, after: Seq<HistoryEntry>, max: usize) -> bool {
    &&& after.len() > 0
    &&& after.drop_last() == trimmed(before, max)
}

/// The history's one-line summary.
pub open spec fn history_summary_text(s: Seq<HistoryEntry>) -> Seq<char> {
    "History: "@ + decimal(s.len()) + " events ("@ + decimal(count_where(s, is_creation()))
        + " created, "@ + decimal(count_where(s, is_completion())) + " completed, "@ + decimal(
        count_where(s, is_deletion()),
    ) + " deleted)"@
}

/// The current time in whole seconds since the Unix epoch, from
/// `SystemTime::now().duration_since(UNIX_EPOCH)` and `Duration::as_secs`;
/// `None` when the clock reads before the epoch (the error of
/// `duration_since`). Nothing is stated of the reading, which depends on the clock.
#[verifier::external_body]
fn unix_seconds_now() -> Option<u64> {
    match std::time::SystemTime::now().duration_since(std::time::UNIX_EPOCH) {
        Ok(elapsed) => Some(elapsed.as_secs()),
        Err(_) => None,
    }
}

/// With a capacity of at least 10, recording keeps a log that is within its
/// capacity within it. (Below 10 the tenth to drop is empty and the log grows.)
pub proof fn lemma_record_keeps_capacity(s: Seq<HistoryEntry>, max: usize, e: HistoryEntry)
    requires
        s.len() <= max,
        max >= 10,
    ensures
        trimmed(s, max).push(e).len() <= max,
{
}

/// A log of task events that keeps at most about `max_entries` of them.
pub struct TaskHistory {
    entries: Vec<HistoryEntry>,
    max_entries: usize,
}

impl View for TaskHistory {
    type V = Seq<HistoryEntry>;

    /// The entries, oldest first.
    closed spec fn view(&self) -> Seq<HistoryEntry> {
        self.entries@
    }
}

impl TaskHistory {
    /// The entry count at which the oldest entries are dropped.
    pub closed spec fn capacity(&self) -> usize {
        self.max_entries
    }

    /// An empty history with room for 10000 entries.
    pub fn new() -> (h: TaskHistory)
        ensures
            h@ == Seq::<HistoryEntry>::empty(),
            h.capacity() == 10000,
    {
        TaskHistory { entries: Vec::new(), max_entries: 10000 }
    }

    /// An empty history with room for `max` entries.
    pub fn with_max_entries(max: usize) -> (h: TaskHistory)
        ensures
            h@ == Seq::<HistoryEntry>::empty(),
            h.capacity() == max,
    {
        TaskHistory { entries: Vec::new(), max_entries: max }
    }

    /// Records `event` at time `timestamp`: when the log already holds its
    /// capacity or more, the oldest tenth of the capacity is dropped first.
    pub fn record_at(&mut self, event: HistoryEvent, timestamp: u64)
        ensures
            final(self).capacity() == old(self).capacity(),
            final(self)@ == trimmed(old(self)@, old(self).capacity()).push(
                HistoryEntry { timestamp, event },
            ),
            old(self).capacity() >= 10 && old(self)@.len() <= old(self).capacity() ==> final(self)@.len()
                <= final(self).capacity(),
    {
        if self.entries.len() >= self.max_entries {
            let kept = self.entries.split_off(self.max_entries / 10);
            self.entries = kept;
        }
        self.entries.push(HistoryEntry { timestamp, event });
        proof {
            if old(self)@.len() >= old(self).capacity() {
                assert(old(self)@.subrange((old(self).capacity() / 10) as int, old(self)@.len() as int)
                    =~= old(self)@.skip((old(self).capacity() / 10) as int));
            }
        }
    }

    /// Records `event` at the current time (time 0 when the clock reads before
    /// the Unix epoch).
    pub fn record(&mut self, event: HistoryEvent)
        ensures
            final(self).capacity() == old(self).capacity(),
            one_recorded(old(self)@, final(self)@, old(self).capacity()),
            old(self).capacity() >= 10 && old(self)@.len() <= old(self).capacity() ==> final(self)@.len()
                <= final(self).capacity(),
            final(self)@.last().event == event,
    {
        let now = match unix_seconds_now() {
            Some(secs) => secs,
            None => 0,
        };
        self.record_at(event, now);
        assert(self@.drop_last() =~= trimmed(old(self)@, old(self).capacity()));
    }

    /// Records that `task` was created.
    pub fn record_creation(&mut self, task: &Task)
        ensures
            final(self).capacity() == old(self).capacity(),
            one_recorded(old(self)@, final(self)@, old(self).capacity()),
            old(self).capacity() >= 10 && old(self)@.len() <= old(self).capacity() ==> final(self)@.len()
                <= final(self).capacity(),
            final(self)@.last().event == (HistoryEvent::Created { task_id: task.id, title: task.title }),
    {
        self.record(HistoryEvent::Created { task_id: task.id, title: task.title.clone() });
    }

    /// Records that task `task_id` was completed.
    pub fn record_completion(&mut self, task_id: u64)
        ensures
            final(self).capacity() == old(self).capacity(),
            one_recorded(old(self)@, final(self)@, old(self).capacity()),
            old(self).capacity() >= 10 && old(self)@.len() <= old(self).capacity() ==> final(self)@.len()
                <= final(self).capacity(),
            final(self)@.last().event == (HistoryEvent::Completed { task_id }),
    {
        self.record(HistoryEvent::Completed { task_id });
    }

    /// Records that task `task_id` was reopened.
    pub fn record_reopen(&mut self, task_id: u64)
        ensures
            final(self).capacity() == old(self).capacity(),
            one_recorded(old(self)@, final(self)@, old(self).capacity()),
            old(self).capacity() >= 10 && old(self)@.len() <= old(self).capacity() ==> final(self)@.len()
                <= final(self).capacity(),
            final(self)@.last().event == (HistoryEvent::Reopened { task_id }),
    {
        self.record(HistoryEvent::Reopened { task_id });
    }

    /// Records that `tag` was added to task `task_id`.
    pub fn record_tag_added(&mut self, task_id: u64, tag: &str)
        ensures
            final(self).capacity() == old(self).capacity(),
            one_recorded(old(self)@, final(self)@, old(self).capacity()),
            old(self).capacity() >= 10 && old(self)@.len() <= old(self).capacity() ==> final(self)@.len()
                <= final(self).capacity(),
            final(self)@.last().event matches HistoryEvent::TagAdded { task_id: id, tag: t }
                && id == task_id && t@ == tag@,
    {
        self.record(HistoryEvent::TagAdded { task_id, tag: String::from_str(tag) });
    }

    /// Records that `tag` was removed from task `task_id`.
    pub fn record_tag_removed(&mut self, task_id: u64, tag: &str)
        ensures
            final(self).capacity() == old(self).capacity(),
            one_recorded(old(self)@, final(self)@, old(self).capacity()),
            old(self).capacity() >= 10 && old(self)@.len() <= old(self).capacity() ==> final(self)@.len()
                <= final(self).capacity(),
            final(self)@.last().event matches HistoryEvent::TagRemoved { task_id: id, tag: t }
                && id == task_id && t@ == tag@,
    {
        self.record(HistoryEvent::TagRemoved { task_id, tag: String::from_str(tag) });
    }

    /// Records that the priority of task `task_id` went from `from` to `to`.
    pub fn record_priority_change(&mut self, task_id: u64, from: &str, to: &str)
        ensures
            final(self).capacity() == old(self).capacity(),
            one_recorded(old(self)@, final(self)@, old(self).capacity()),
            old(self).capacity() >= 10 && old(self)@.len() <= old(self).capacity() ==> final(self)@.len()
                <= final(self).capacity(),
            final(self)@.last().event matches HistoryEvent::PriorityChanged {
                task_id: id,
                old_priority: a,
                new_priority: b,
            } && id == task_id && a@ == from@ && b@ == to@,
    {
        self.record(
            HistoryEvent::PriorityChanged {
                task_id,
                old_priority: String::from_str(from),
                new_priority: String::from_str(to),
            },
        );
    }

    /// Records that task `task_id`, titled `title`, was deleted.
    pub fn record_deletion(&mut self, task_id: u64, title: &str)
        ensures
            final(self).capacity() == old(self).capacity(),
            one_recorded(old(self)@, final(self)@, old(self).capacity()),
            old(self).capacity() >= 10 && old(self)@.len() <= old(self).capacity() ==> final(self)@.len()
                <= final(self).capacity(),
            final(self)@.last().event matches HistoryEvent::Deleted { task_id: id, title: t }
                && id == task_id && t@ == title@,
    {
        self.record(HistoryEvent::Deleted { task_id, title: String::from_str(title) });
    }

    /// All entries, oldest first.
    pub fn all_entries(&self) -> (r: &[HistoryEntry])
        ensures
            r@ == self@,
    {
        self.entries.as_slice()
    }

    /// The task that an event is about.
    fn event_task_id(&self, event: &HistoryEvent) -> (r: Option<u64>)
        ensures
            r == Some(event_task(*event)),
    {
        match event {
            HistoryEvent::Created { task_id, .. } => Some(*task_id),
            HistoryEvent::Completed { task_id } => Some(*task_id),
            HistoryEvent::Reopened { task_id } => Some(*task_id),
            HistoryEvent::TagAdded { task_id, .. } => Some(*task_id),
            HistoryEvent::TagRemoved { task_id, .. } => Some(*task_id),
            HistoryEvent::PriorityChanged { task_id, .. } => Some(*task_id),
            HistoryEvent::Deleted { task_id, .. } => Some(*task_id),
        }
    }

    /// The entries about task `task_id`, oldest first.
    pub fn entries_for_task(&self, task_id: u64) -> (r: Vec<&HistoryEntry>)
        ensures
            deref_all(r@) == self@.filter(entry_about(task_id)),
    {
        let mut result: Vec<&HistoryEntry> = Vec::new();
        let mut i: usize = 0;
        while i < self.entries.len()
            invariant
                i <= self.entries@.len(),
                deref_all(result@) == self.entries@.take(i as int).filter(entry_about(task_id)),
            decreases self.entries@.len() - i,
        {
            proof {
                assert(self.entries@.take(i + 1) =~= self.entries@.take(i as int).push(self.entries@[i as int]));
                self.entries@.take(i as int).lemma_filter_push(self.entries@[i as int], entry_about(task_id));
            }
            let ghost before = result@;
            if self.event_task_id(&self.entries[i].event) == Some(task_id) {
                result.push(&self.entries[i]);
                assert(deref_all(result@) =~= deref_all(before).push(self.entries@[i as int]));
            }
            i += 1;
        }
        assert(self.entries@.take(i as int) =~= self.entries@);
        result
    }

    /// How many entries the log holds.
    pub fn entry_count(&self) -> (n: usize)
        ensures
            n == self@.len(),
    {
        self.entries.len()
    }

    /// The entries recorded at `timestamp` or later, oldest first.
    pub fn entries_since(&self, timestamp: u64) -> (r: Vec<&HistoryEntry>)
        ensures
            deref_all(r@) == self@.filter(recorded_since(timestamp)),
    {
        let mut result: Vec<&HistoryEntry> = Vec::new();
        let mut i: usize = 0;
        while i < self.entries.len()
            invariant
                i <= self.entries@.len(),
                deref_all(result@) == self.entries@.take(i as int).filter(recorded_since(timestamp)),
            decreases self.entries@.len() - i,
        {
            proof {
                assert(self.entries@.take(i + 1) =~= self.entries@.take(i as int).push(self.entries@[i as int]));
                self.entries@.take(i as int).lemma_filter_push(self.entries@[i as int], recorded_since(timestamp));
            }
            let ghost before = result@;
            if self.entries[i].timestamp >= timestamp {
                result.push(&self.entries[i]);
                assert(deref_all(result@) =~= deref_all(before).push(self.entries@[i as int]));
            }
            i += 1;
        }
        assert(self.entries@.take(i as int) =~= self.entries@);
        result
    }

    /// How many entries of `s` record an event of kind `kind`.
    fn count_kind(s: &Vec<HistoryEntry>, kind: EventKind) -> (n: usize)
        ensures
            n == count_where(s@, kind_test(kind)),
    {
        let mut n: usize = 0;
        let mut i: usize = 0;
        while i < s.len()
            invariant
                i <= s@.len(),
                n == count_where(s@.take(i as int), kind_test(kind)),
                n <= i,
            decreases s@.len() - i,
        {
            proof {
                lemma_count_take_step(s@, i as int, kind_test(kind));
            }
            let hit = match (&s[i].event, kind) {
                (HistoryEvent::Created { .. }, EventKind::Creation) => true,
                (HistoryEvent::Completed { .. }, EventKind::Completion) => true,
                (HistoryEvent::Deleted { .. }, EventKind::Deletion) => true,
                _ => false,
            };
            if hit {
                n += 1;
            }
            i += 1;
        }
        assert(s@.take(i as int) =~= s@);
        n
    }

    /// How many completions were recorded.
    pub fn completions_count(&self) -> (n: usize)
        ensures
            n == count_where(self@, is_completion()),
    {
        Self::count_kind(&self.entries, EventKind::Completion)
    }

    /// The newest `n` entries (all of them when there are no more than `n`).
    pub fn last_n_entries(&self, n: usize) -> (r: &[HistoryEntry])
        ensures
            r@ == if n >= self@.len() {
                self@
            } else {
                self@.subrange(self@.len() - n, self@.len() as int)
            },
    {
        let len = self.entries.len();
        if n >= len {
            self.entries.as_slice()
        } else {
            let (_older, newest) = self.entries.as_slice().split_at(len - n);
            newest
        }
    }

    /// Drops every entry.
    pub fn clear(&mut self)
        ensures
            final(self).capacity() == old(self).capacity(),
            final(self)@ == Seq::<HistoryEntry>::empty(),
    {
        self.entries.clear();
    }

    /// "History: N events (C created, D completed, X deleted)".
    pub fn summary(&self) -> (s: String)
        ensures
            s@ == history_summary_text(self@),
    {
        let total = self.entries.len();
        let creates = Self::count_kind(&self.entries, EventKind::Creation);
        let completes = self.completions_count();
        let deletes = Self::count_kind(&self.entries, EventKind::Deletion);
        let mut s = String::from_str("History: ");
        push_decimal(&mut s, total as u64);
        s.append(" events (");
        push_decimal(&mut s, creates as u64);
        s.append(" created, ");
        push_decimal(&mut s, completes as u64);
        s.append(" completed, ");
        push_decimal(&mut s, deletes as u64);
        s.append(" deleted)");
        s
    }
}

} // verus!
