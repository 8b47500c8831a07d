//! Notifications about tasks, a bounded queue of them, and the rules that
//! raise notifications from the state of a task list.

use vstd::prelude::*;
use crate::seqs::{count_where, deref_all, lemma_count_take_step};
use crate::task::{Task, Priority, is_pending};
use crate::text::{byte_len, byte_prefix, byte_length, decimal, is_boundary_at, prefix_bytes, push_decimal};

verus! {

/// How serious a notification is.
#[derive(Debug, Clone, Copy, PartialEq, Eq, Structural)]
pub enum NotificationLevel {
    Info,
    Warning,
    Error,
    Critical,
}

/// A message, its level, the task it is about (if any), and whether it was read.
#[derive(Debug, Clone)]
pub struct Notification {
    pub message: String,
    pub level: NotificationLevel,
    pub task_id: Option<u64>,
    pub read: bool,
    pub timestamp: u64,
}

/// The tag that `display_text` puts before the message.
pub open spec fn level_tag(level: NotificationLevel) -> Seq<char> {
    match level {
        NotificationLevel::Info => "[INFO]"@,
        NotificationLevel::Warning => "[WARN]"@,
        NotificationLevel::Error => "[ERROR]"@,
        NotificationLevel::Critical => "[CRIT]"@,
    }
}

/// The message as `short_display` shows it: cut to its first 30 bytes and
/// followed by "..." when it is longer than that.
pub open spec fn short_text(m: Seq<char>) -> Seq<char> {
    if byte_len(m) > 30 {
        byte_prefix(m, 30) + "..."@
    } else {
        m
    }
}

/// `n` is a fresh, unread notification with this message, level and task.
pub open spec fn is_fresh(n: Notification, message: Seq<char>, level: NotificationLevel, task_id: Option<u64>) -> bool {
    &&& n.message@ == message
    &&& n.level == level
    &&& n.task_id == task_id
    &&& !n.read
    &&& n.timestamp == 0
}

/// An unread notification.
pub open spec fn is_unread() -> spec_fn(Notification) -> bool {
    |n: Notification| !n.read
}

/// A notification that was read.
pub open spec fn is_read() -> spec_fn(Notification) -> bool {
    |n: Notification| n.read
}

/// A notification of level `level`.
pub open spec fn has_level(level: NotificationLevel) -> spec_fn(Notification) -> bool {
    |n: Notification| n.level == level
}

/// A notification about task `task_id`.
pub open spec fn about_task(task_id: u64) -> spec_fn(Notification) -> bool {
    |n: Notification| n.task_id == Some(task_id)
}

/// `n` marked as read.
pub open spec fn as_read(n: Notification) -> Notification {
    Notification { read: true, ..n }
}

impl Notification {
    /// A new unread notification that is about no task.
    pub fn new(message: &str, level: NotificationLevel) -> (n: Notification)
        ensures
            is_fresh(n, message@, level, None),
    {
        Notification {
            message: String::from_str(message),
            level,
            task_id: None,
            read: false,
            timestamp: 0,
        }
    }

    /// A new unread notification about task `task_id`.
    pub fn for_task(message: &str, level: NotificationLevel, task_id: u64) -> (n: Notification)
        ensures
            is_fresh(n, message@, level, Some(task_id)),
    {
        Notification {
            message: String::from_str(message),
            level,
            task_id: Some(task_id),
            read: false,
            timestamp: 0,
        }
    }

    /// Marks the notification as read.
    pub fn mark_read(&mut self)
        ensures
            *final(self) == as_read(*old(self)),
    {
        self.read = true;
    }

    /// Whether the level is `Critical`.
    pub fn is_critical(&self) -> (r: bool)
        ensures
            r == (self.level == NotificationLevel::Critical),
    {
        self.level == NotificationLevel::Critical
    }

    /// "[INFO] message", "[WARN] message", "[ERROR] message" or "[CRIT] message".
    pub fn display_text(&self) -> (s: String)
        ensures
            s@ == level_tag(self.level) + " "@ + self.message@,
    {
        let prefix = match self.level {
            NotificationLevel::Info => "[INFO]",
            NotificationLevel::Warning => "[WARN]",
            NotificationLevel::Error => "[ERROR]",
            NotificationLevel::Critical => "[CRIT]",
        };
        let mut s = String::from_str(prefix);
        s.append(" ");
        s.append(self.message.as_str());
        s
    }

    /// The message, cut to 30 bytes and followed by "..." when longer.
    pub fn short_display(&self) -> (s: String)
        requires
            byte_len(self.message@) > 30 ==> is_boundary_at(self.message@, 30),
        ensures
            s@ == short_text(self.message@),
    {
        let m = self.message.as_str();
        if byte_length(m) > 30 {
            let mut s = String::from_str(prefix_bytes(m, 30));
            s.append("...");
            s
        } else {
            self.message.clone()
        }
    }
}


/// A bounded queue of notifications; when it is full, a push drops the oldest.
pub struct NotificationQueue {
    notifications: Vec<Notification>,
    max_size: usize,
}

impl View for NotificationQueue {
    type V = Seq<Notification>;

    /// The notifications, oldest first.
    closed spec fn view(&self) -> Seq<Notification> {
        self.notifications@
    }
}

/// The queue's one-line summary.
pub open spec fn queue_summary_text(s: Seq<Notification>) -> Seq<char> {
    decimal(s.len()) + " notifications ("@ + decimal(count_where(s, is_unread())) + " unread, "@
        + decimal(s.filter(has_level(NotificationLevel::Critical)).len()) + " critical, "@ + decimal(
        s.filter(has_level(NotificationLevel::Error)).len(),
    ) + " errors)"@
}

/// `i` is the first position of `s` that holds an unread notification.
pub open spec fn first_unread(s: Seq<Notification>, i: int) -> bool {
    &&& 0 <= i < s.len()
    &&& !s[i].read
    &&& forall|j: int| 0 <= j < i ==> s[j].read
}

/// A push never takes a queue past its capacity.
pub proof fn lemma_push_keeps_capacity(s: Seq<Notification>, capacity: usize, n: Notification)
    requires
        s.len() <= capacity,
        capacity > 0,
    ensures
        (if s.len() >= capacity { s.drop_first() } else { s }).push(n).len() <= capacity,
{
}

/// The queue after pushing `n` onto `s` with capacity `capacity`.
pub open spec fn pushed(s: Seq<Notification>, capacity: usize, n: Notification) -> Seq<Notification> {
    (if s.len() >= capacity { s.drop_first() } else { s }).push(n)
}

/// The queue after pushing each of `ns` in turn onto an empty queue.
pub open spec fn pushed_all(capacity: usize, ns: Seq<Notification>) -> Seq<Notification>
    decreases ns.len(),
{
    if ns.len() == 0 {
        Seq::empty()
    } else {
        pushed(pushed_all(capacity, ns.drop_last()), capacity, ns.last())
    }
}

/// A queue of capacity at least 1 that received the pushes `ns` holds the last
/// `min(ns.len(), capacity)` of them, oldest first, and so never more than its
/// capacity.
pub proof fn lemma_pushes_keep_latest(capacity: usize, ns: Seq<Notification>)
    requires
        capacity >= 1,
    ensures
        pushed_all(capacity, ns) == ns.skip(
            if ns.len() > capacity { ns.len() - capacity } else { 0int },
        ),
        pushed_all(capacity, ns).len() <= capacity,
    decreases ns.len(),
{
    if ns.len() > 0 {
        let p = ns.drop_last();
        lemma_pushes_keep_latest(capacity, p);
        let q = pushed_all(capacity, p);
        let skip_p = if p.len() > capacity { p.len() - capacity } else { 0int };
        let skip_n = if ns.len() > capacity { ns.len() - capacity } else { 0int };
        if q.len() >= capacity {
            assert(q.drop_first().push(ns.last()) =~= ns.skip(skip_n));
        } else {
            assert(q.push(ns.last()) =~= ns.skip(skip_n));
        }
    }
}

/// After marking everything read, nothing is unread.
pub proof fn lemma_all_read_leaves_none_unread(s: Seq<Notification>)
    ensures
        count_where(s.map_values(|n: Notification| as_read(n)), is_unread()) == 0,
    decreases s.len(),
{
    if s.len() > 0 {
        lemma_all_read_leaves_none_unread(s.drop_last());
        assert(s.map_values(|n: Notification| as_read(n)).drop_last() =~= s.drop_last().map_values(
            |n: Notification| as_read(n),
        ));
    }
}

/// Dismissing the read notifications keeps exactly the unread ones: what is
/// dropped and what stays add up to what there was.
pub proof fn lemma_dismissed_and_kept_add_up(s: Seq<Notification>)
    ensures
        count_where(s, is_read()) + s.filter(is_unread()).len() == s.len(),
        count_where(s.filter(is_unread()), is_read()) == 0,
{
    crate::seqs::lemma_count_is_filter_len(s, is_unread());
    crate::seqs::lemma_count_complement(s, is_unread());
    assert(crate::seqs::negate(is_unread()) =~= is_read());
    lemma_no_read_left(s);
}

proof fn lemma_no_read_left(s: Seq<Notification>)
    ensures
        count_where(s.filter(is_unread()), is_read()) == 0,
    decreases s.len(),
{
    if s.len() > 0 {
        lemma_no_read_left(s.drop_last());
        assert(s.drop_last().push(s.last()) =~= s);
        s.drop_last().lemma_filter_push(s.last(), is_unread());
        if !s.last().read {
            crate::seqs::lemma_count_push(s.drop_last().filter(is_unread()), s.last(), is_read());
        }
    }
}

impl NotificationQueue {
    /// The capacity of the queue.
    pub closed spec fn capacity(&self) -> usize {
        self.max_size
    }

    /// An empty queue that holds up to 100 notifications.
    pub fn new() -> (q: NotificationQueue)
        ensures
            q@ == Seq::<Notification>::empty(),
            q.capacity() == 100,
    {
        NotificationQueue { notifications: Vec::new(), max_size: 100 }
    }

    /// An empty queue that holds up to `max` notifications.
    pub fn with_capacity(max: usize) -> (q: NotificationQueue)
        ensures
            q@ == Seq::<Notification>::empty(),
            q.capacity() == max,
    {
        NotificationQueue { notifications: Vec::new(), max_size: max }
    }

    /// Adds a notification at the end; when the queue already holds its capacity
    /// or more, the oldest one is dropped first. A queue of capacity 0 that is
    /// empty cannot take a notification.
    pub fn push(&mut self, notification: Notification)
        requires
            old(self)@.len() > 0 || old(self).capacity() > 0,
        ensures
            final(self).capacity() == old(self).capacity(),
            final(self)@ == (if old(self)@.len() >= old(self).capacity() {
                old(self)@.drop_first()
            } else {
                old(self)@
            }).push(notification),
            old(self)@.len() <= old(self).capacity() ==> final(self)@.len() <= final(self).capacity(),
    {
        if self.notifications.len() >= self.max_size {
            self.notifications.remove(0);
        }
        self.notifications.push(notification);
        proof {
            if old(self)@.len() >= old(self).capacity() {
                assert(old(self)@.remove(0) =~= old(self)@.drop_first());
            }
        }
    }

    /// How many notifications are unread.
    pub fn unread_count(&self) -> (n: usize)
        ensures
            n == count_where(self@, is_unread()),
    {
        let mut count: usize = 0;
        let mut i: usize = 0;
        while i < self.notifications.len()
            invariant
                i <= self.notifications@.len(),
                count == count_where(self.notifications@.take(i as int), is_unread()),
                count <= i,
            decreases self.notifications@.len() - i,
        {
            proof {
                lemma_count_take_step(self.notifications@, i as int, is_unread());
            }
            if !self.notifications[i].read {
                count += 1;
            }
            i += 1;
        }
        assert(self.notifications@.take(i as int) =~= self.notifications@);
        count
    }

    /// How many notifications the queue holds.
    pub fn total_count(&self) -> (n: usize)
        ensures
            n == self@.len(),
    {
        self.notifications.len()
    }

    /// The unread notifications, oldest first.
    pub fn get_unread(&self) -> (r: Vec<&Notification>)
        ensures
            deref_all(r@) == self@.filter(is_unread()),
    {
        let mut result: Vec<&Notification> = Vec::new();
        let mut i: usize = 0;
        while i < self.notifications.len()
            invariant
                i <= self.notifications@.len(),
                deref_all(result@) == self.notifications@.take(i as int).filter(is_unread()),
            decreases self.notifications@.len() - i,
        {
            proof {
                assert(self.notifications@.take(i + 1) =~= self.notifications@.take(i as int).push(self.notifications@[i as int]));
                self.notifications@.take(i as int).lemma_filter_push(self.notifications@[i as int], is_unread());
            }
            let ghost before = result@;
            if !self.notifications[i].read {
                result.push(&self.notifications[i]);
                assert(deref_all(result@) =~= deref_all(before).push(self.notifications@[i as int]));
            }
            i += 1;
        }
        assert(self.notifications@.take(i as int) =~= self.notifications@);
        result
    }

    /// The notifications of level `level`, oldest first.
    pub fn get_by_level(&self, level: NotificationLevel) -> (r: Vec<&Notification>)
        ensures
            deref_all(r@) == self@.filter(has_level(level)),
    {
        let mut result: Vec<&Notification> = Vec::new();
        let mut i: usize = 0;
        while i < self.notifications.len()
            invariant
                i <= self.notifications@.len(),
                deref_all(result@) == self.notifications@.take(i as int).filter(has_level(level)),
            decreases self.notifications@.len() - i,
        {
            proof {
                assert(self.notifications@.take(i + 1) =~= self.notifications@.take(i as int).push(self.notifications@[i as int]));
                self.notifications@.take(i as int).lemma_filter_push(self.notifications@[i as int], has_level(level));
            }
            let ghost before = result@;
            if self.notifications[i].level == level {
                result.push(&self.notifications[i]);
                assert(deref_all(result@) =~= deref_all(before).push(self.notifications@[i as int]));
            }
            i += 1;
        }
        assert(self.notifications@.take(i as int) =~= self.notifications@);
        result
    }

    /// Marks every notification as read.
    pub fn mark_all_read(&mut self)
        ensures
            final(self).capacity() == old(self).capacity(),
            final(self)@ == old(self)@.map_values(|n: Notification| as_read(n)),
            final(self)@.len() == old(self)@.len(),
    {
        let mut i: usize = 0;
        while i < self.notifications.len()
            invariant
                self.max_size == old(self).max_size,
                self.notifications@.len() == old(self)@.len(),
                i <= self.notifications@.len(),
                forall|k: int| 0 <= k < i ==> #[trigger] self.notifications@[k] == as_read(old(self)@[k]),
                forall|k: int| i <= k < self.notifications@.len() ==> #[trigger] self.notifications@[k] == old(self)@[k],
            decreases self.notifications@.len() - i,
        {
            self.notifications[i].read = true;
            i += 1;
        }
        assert(self.notifications@ =~= old(self)@.map_values(|n: Notification| as_read(n)));
    }

    /// Drops the read notifications, keeping the unread ones in order; returns
    /// how many were dropped.
    fn drop_read(&mut self) -> (dropped: usize)
        ensures
            final(self).capacity() == old(self).capacity(),
            final(self)@ == old(self)@.filter(is_unread()),
            final(self)@.len() <= old(self)@.len(),
            dropped == count_where(old(self)@, is_read()),
    {
        let ghost orig = self.notifications@;
        assert(self.notifications.len() == orig.len());
        let ghost mut j: int = 0;
        let mut dropped: usize = 0;
        let mut i: usize = 0;
        while i < self.notifications.len()
            invariant
                self.max_size == old(self).max_size,
                orig == old(self)@,
                0 <= i <= j <= orig.len(),
                self.notifications@.len() - i == orig.len() - j,
                self.notifications@.subrange(0, i as int) == orig.take(j).filter(is_unread()),
                self.notifications@.subrange(i as int, self.notifications@.len() as int) == orig.skip(j),
                dropped == count_where(orig.take(j), is_read()),
                dropped <= j,
                orig.len() <= usize::MAX,
            decreases self.notifications@.len() - i,
        {
            let ghost before = self.notifications@;
            proof {
                assert(orig.take(j + 1) =~= orig.take(j).push(orig[j]));
                orig.take(j).lemma_filter_push(orig[j], is_unread());
                lemma_count_take_step(orig, j, is_read());
                assert(before[i as int] == orig.skip(j)[0]);
            }
            let ghost rest = before.subrange(i as int, before.len() as int);
            assert(rest == orig.skip(j));
            assert(rest.skip(1) =~= orig.skip(j + 1));
            if self.notifications[i].read {
                self.notifications.remove(i);
                dropped += 1;
                proof {
                    assert(self.notifications@.subrange(0, i as int) =~= before.subrange(0, i as int));
                    assert(self.notifications@.subrange(i as int, self.notifications@.len() as int) =~= rest.skip(1));
                    j = j + 1;
                }
            } else {
                i += 1;
                proof {
                    assert(self.notifications@.subrange(0, i as int) =~= before.subrange(0, i - 1).push(
                        before[i - 1],
                    ));
                    assert(self.notifications@.subrange(i as int, self.notifications@.len() as int) =~= rest.skip(1));
                    j = j + 1;
                }
            }
        }
        proof {
            assert(orig.take(j) =~= orig);
            assert(self.notifications@ =~= self.notifications@.subrange(0, i as int));
            orig.lemma_filter_len(is_unread());
        }
        dropped
    }

    /// Drops the read notifications, keeping the unread ones in order.
    pub fn clear_read(&mut self)
        ensures
            final(self).capacity() == old(self).capacity(),
            final(self)@ == old(self)@.filter(is_unread()),
            final(self)@.len() <= old(self)@.len(),
    {
        self.drop_read();
    }

    /// The notifications about task `task_id`, oldest first.
    pub fn get_for_task(&self, task_id: u64) -> (r: Vec<&Notification>)
        ensures
            deref_all(r@) == self@.filter(about_task(task_id)),
    {
        let mut result: Vec<&Notification> = Vec::new();
        let mut i: usize = 0;
        while i < self.notifications.len()
            invariant
                i <= self.notifications@.len(),
                deref_all(result@) == self.notifications@.take(i as int).filter(about_task(task_id)),
            decreases self.notifications@.len() - i,
        {
            proof {
                assert(self.notifications@.take(i + 1) =~= self.notifications@.take(i as int).push(self.notifications@[i as int]));
                self.notifications@.take(i as int).lemma_filter_push(self.notifications@[i as int], about_task(task_id));
            }
            let ghost before = result@;
            let matches = match self.notifications[i].task_id {
                Some(t) => t == task_id,
                None => false,
            };
            if matches {
                result.push(&self.notifications[i]);
                assert(deref_all(result@) =~= deref_all(before).push(self.notifications@[i as int]));
            }
            i += 1;
        }
        assert(self.notifications@.take(i as int) =~= self.notifications@);
        result
    }

    /// Whether some unread notification is critical.
    pub fn has_critical(&self) -> (r: bool)
        ensures
            r == exists|i: int|
                0 <= i < self@.len() && self@[i].level == NotificationLevel::Critical && !self@[i].read,
    {
        let mut i: usize = 0;
        while i < self.notifications.len()
            invariant
                i <= self.notifications@.len(),
                forall|k: int| 0 <= k < i ==> !(self.notifications@[k].level == NotificationLevel::Critical && !self.notifications@[k].read),
            decreases self.notifications@.len() - i,
        {
            if self.notifications[i].level == NotificationLevel::Critical && !self.notifications[i].read {
                return true;
            }
            i += 1;
        }
        false
    }

    /// "T notifications (U unread, C critical, E errors)".
    pub fn summary(&self) -> (s: String)
        ensures
            s@ == queue_summary_text(self@),
    {
        let total = self.total_count();
        let unread = self.unread_count();
        let critical = self.get_by_level(NotificationLevel::Critical).len();
        let errors = self.get_by_level(NotificationLevel::Error).len();
        let mut s = String::new();
        push_decimal(&mut s, total as u64);
        s.append(" notifications (");
        push_decimal(&mut s, unread as u64);
        s.append(" unread, ");
        push_decimal(&mut s, critical as u64);
        s.append(" critical, ");
        push_decimal(&mut s, errors as u64);
        s.append(" errors)");
        s
    }

    /// The newest notification, if any.
    pub fn latest(&self) -> (r: Option<&Notification>)
        ensures
            r is None <==> self@.len() == 0,
            r matches Some(n) ==> *n == self@.last(),
    {
        let n = self.notifications.len();
        if n == 0 {
            None
        } else {
            Some(&self.notifications[n - 1])
        }
    }

    /// The oldest unread notification, if any.
    pub fn oldest_unread(&self) -> (r: Option<&Notification>)
        ensures
            r is None <==> forall|i: int| 0 <= i < self@.len() ==> self@[i].read,
            r matches Some(n) ==> exists|i: int| first_unread(self@, i) && *n == self@[i],
    {
        let mut i: usize = 0;
        while i < self.notifications.len()
            invariant
                i <= self.notifications@.len(),
                forall|k: int| 0 <= k < i ==> self.notifications@[k].read,
            decreases self.notifications@.len() - i,
        {
            if !self.notifications[i].read {
                assert(first_unread(self@, i as int));
                return Some(&self.notifications[i]);
            }
            i += 1;
        }
        None
    }

    /// Removes the notification at position `index`; false, with nothing
    /// removed, when there is no such position.
    pub fn dismiss(&mut self, index: usize) -> (r: bool)
        ensures
            final(self).capacity() == old(self).capacity(),
            r == (index < old(self)@.len()),
            r ==> final(self)@ == old(self)@.remove(index as int),
            !r ==> final(self)@ == old(self)@,
            final(self)@.len() <= old(self)@.len(),
    {
        if index < self.notifications.len() {
            self.notifications.remove(index);
            true
        } else {
            false
        }
    }

    /// Drops the read notifications and returns how many were dropped.
    pub fn bulk_dismiss_read(&mut self) -> (dropped: usize)
        ensures
            final(self).capacity() == old(self).capacity(),
            final(self)@ == old(self)@.filter(is_unread()),
            final(self)@.len() <= old(self)@.len(),
            dropped == count_where(old(self)@, is_read()),
    {
        self.drop_read()
    }
}


/// What a generated notification holds: its message, level and task.
pub type Alert = (Seq<char>, NotificationLevel, Option<u64>);

/// The notifications that one task raises: one when it is critical and not
/// done, one when it has more than five tags, one when its title is longer
/// than 100 bytes.
pub open spec fn task_alerts(t: Task) -> Seq<Alert> {
    (if t.priority == Priority::Critical && !t.done {
        seq![("Critical task pending: "@ + t.title@, NotificationLevel::Critical, Some(t.id))]
    } else {
        Seq::empty()
    }) + (if t.tags@.len() > 5 {
        seq![("Task has too many tags: "@ + t.title@, NotificationLevel::Warning, Some(t.id))]
    } else {
        Seq::empty()
    }) + (if byte_len(t.title@) > 100 {
        seq![
            ("Task title is very long: "@ + byte_prefix(t.title@, 50) + "..."@, NotificationLevel::Info, Some(t.id)),
        ]
    } else {
        Seq::empty()
    })
}

/// The notifications that the tasks of `s` raise, task by task.
pub open spec fn alerts_for(s: Seq<Task>) -> Seq<Alert>
    decreases s.len(),
{
    if s.len() == 0 {
        Seq::empty()
    } else {
        alerts_for(s.drop_last()) + task_alerts(s.last())
    }
}

/// Everything `generate_task_notifications` raises: the tasks' notifications,
/// then a warning when more than twenty tasks are pending.
pub open spec fn generated_alerts(s: Seq<Task>) -> Seq<Alert> {
    alerts_for(s) + if count_where(s, is_pending()) > 20 {
        seq![
            ("You have "@ + decimal(count_where(s, is_pending())) + " pending tasks!"@, NotificationLevel::Warning, None),
        ]
    } else {
        Seq::empty()
    }
}

/// A task raises a critical notification exactly when it is critical and not
/// done; it raises a warning exactly when it has more than five tags, and an
/// informational notification exactly when its title is longer than 100 bytes.
/// Every notification it raises is about it.
pub proof fn lemma_task_alert_conditions(t: Task)
    ensures
        (exists|k: int| 0 <= k < task_alerts(t).len() && #[trigger] task_alerts(t)[k].1 == NotificationLevel::Critical)
            <==> (t.priority == Priority::Critical && !t.done),
        (exists|k: int| 0 <= k < task_alerts(t).len() && #[trigger] task_alerts(t)[k].1 == NotificationLevel::Warning)
            <==> t.tags@.len() > 5,
        (exists|k: int| 0 <= k < task_alerts(t).len() && #[trigger] task_alerts(t)[k].1 == NotificationLevel::Info)
            <==> byte_len(t.title@) > 100,
        forall|k: int| 0 <= k < task_alerts(t).len() ==> #[trigger] task_alerts(t)[k].2 == Some(t.id),
        task_alerts(t).len() <= 3,
{
    let a: Seq<Alert> = if t.priority == Priority::Critical && !t.done {
        seq![("Critical task pending: "@ + t.title@, NotificationLevel::Critical, Some(t.id))]
    } else {
        Seq::empty()
    };
    let b: Seq<Alert> = if t.tags@.len() > 5 {
        seq![("Task has too many tags: "@ + t.title@, NotificationLevel::Warning, Some(t.id))]
    } else {
        Seq::empty()
    };
    let c: Seq<Alert> = if byte_len(t.title@) > 100 {
        seq![("Task title is very long: "@ + byte_prefix(t.title@, 50) + "..."@, NotificationLevel::Info, Some(t.id))]
    } else {
        Seq::empty()
    };
    let r = task_alerts(t);
    assert(r == a + b + c);
    if t.priority == Priority::Critical && !t.done {
        assert(r[0].1 == NotificationLevel::Critical);
    }
    if t.tags@.len() > 5 {
        assert(r[a.len() as int].1 == NotificationLevel::Warning);
    }
    if byte_len(t.title@) > 100 {
        assert(r[(a.len() + b.len()) as int].1 == NotificationLevel::Info);
    }
    assert forall|k: int| 0 <= k < r.len() implies #[trigger] r[k].2 == Some(t.id) by {
        if k < a.len() {
            assert(r[k] == a[k]);
        } else if k < a.len() + b.len() {
            assert(r[k] == b[k - a.len()]);
        } else {
            assert(r[k] == c[k - a.len() - b.len()]);
        }
    }
    assert forall|k: int| 0 <= k < r.len() implies (#[trigger] r[k].1 == NotificationLevel::Critical ==> (
        t.priority == Priority::Critical && !t.done)) && (r[k].1 == NotificationLevel::Warning ==> t.tags@.len() > 5)
        && (r[k].1 == NotificationLevel::Info ==> byte_len(t.title@) > 100) by {
        if k < a.len() {
            assert(r[k] == a[k]);
        } else if k < a.len() + b.len() {
            assert(r[k] == b[k - a.len()]);
        } else {
            assert(r[k] == c[k - a.len() - b.len()]);
        }
    }
}

/// Tasks that are all done, with at most five tags and titles of at most 100
/// bytes, raise no notification at all.
pub proof fn lemma_quiet_tasks_raise_nothing(s: Seq<Task>)
    requires
        forall|i: int|
            0 <= i < s.len() ==> (#[trigger] s[i]).done && s[i].tags@.len() <= 5 && byte_len(s[i].title@) <= 100,
    ensures
        generated_alerts(s).len() == 0,
{
    lemma_quiet_alerts_empty(s);
    crate::seqs::lemma_count_none(s, is_pending());
}

proof fn lemma_quiet_alerts_empty(s: Seq<Task>)
    requires
        forall|i: int|
            0 <= i < s.len() ==> (#[trigger] s[i]).done && s[i].tags@.len() <= 5 && byte_len(s[i].title@) <= 100,
    ensures
        alerts_for(s).len() == 0,
    decreases s.len(),
{
    if s.len() > 0 {
        let p = s.drop_last();
        assert forall|i: int| 0 <= i < p.len() implies (#[trigger] p[i]).done && p[i].tags@.len() <= 5 && byte_len(
            p[i].title@,
        ) <= 100 by {
            assert(p[i] == s[i]);
        }
        lemma_quiet_alerts_empty(p);
        let t = s[s.len() - 1];
        lemma_task_alert_conditions(t);
        if task_alerts(t).len() > 0 {
            let k = 0int;
            assert(task_alerts(t)[k].1 == NotificationLevel::Critical || task_alerts(t)[k].1 == NotificationLevel::Warning
                || task_alerts(t)[k].1 == NotificationLevel::Info || task_alerts(t)[k].1 == NotificationLevel::Error);
        }
    }
}

/// The notifications of `r` are fresh and say, one for one, what `a` lists.
pub open spec fn realizes(r: Seq<Notification>, a: Seq<Alert>) -> bool {
    &&& r.len() == a.len()
    &&& forall|i: int| 0 <= i < r.len() ==> is_fresh(#[trigger] r[i], a[i].0, a[i].1, a[i].2)
}

/// Every task whose title is longer than 100 bytes has a character boundary at byte 50.
pub open spec fn long_titles_cut_cleanly(s: Seq<Task>) -> bool {
    forall|i: int| 0 <= i < s.len() && byte_len(#[trigger] s[i].title@) > 100 ==> is_boundary_at(s[i].title@, 50)
}

fn push_alert(out: &mut Vec<Notification>, message: String, level: NotificationLevel, task_id: u64, Ghost(a): Ghost<Seq<Alert>>)
    requires
        realizes(old(out)@, a),
    ensures
        realizes(final(out)@, a.push((message@, level, Some(task_id)))),
{
    let n = Notification::for_task(message.as_str(), level, task_id);
    out.push(n);
    proof {
        let b = a.push((message@, level, Some(task_id)));
        assert forall|i: int| 0 <= i < out@.len() implies is_fresh(#[trigger] out@[i], b[i].0, b[i].1, b[i].2) by {
            if i < a.len() {
                assert(out@[i] == old(out)@[i]);
            }
        }
    }
}

/// Raises notifications from the state of the tasks: for each task, one if it
/// is critical and pending, one if it has more than five tags, one if its
/// title is longer than 100 bytes (showing its first 50 bytes); then one if
/// more than twenty tasks are pending.
pub fn generate_task_notifications(tasks: &[Task]) -> (r: Vec<Notification>)
    requires
        long_titles_cut_cleanly(tasks@),
    ensures
        realizes(r@, generated_alerts(tasks@)),
{
    let mut notifications: Vec<Notification> = Vec::new();
    let mut i: usize = 0;
    while i < tasks.len()
        invariant
            long_titles_cut_cleanly(tasks@),
            i <= tasks@.len(),
            realizes(notifications@, alerts_for(tasks@.take(i as int))),
        decreases tasks@.len() - i,
    {
        let task = &tasks[i];
        let ghost base = alerts_for(tasks@.take(i as int));
        proof {
            assert(tasks@.take(i + 1).drop_last() =~= tasks@.take(i as int));
            assert(tasks@[i as int] == *task);
        }
        let ghost mut acc: Seq<Alert> = base;
        if task.priority == Priority::Critical && !task.done {
            let mut m = String::from_str("Critical task pending: ");
            m.append(task.title.as_str());
            push_alert(&mut notifications, m, NotificationLevel::Critical, task.id, Ghost(acc));
            proof {
                acc = acc.push(("Critical task pending: "@ + task.title@, NotificationLevel::Critical, Some(task.id)));
            }
        }
        let ghost after_a = acc;
        if task.tags.len() > 5 {
            let mut m = String::from_str("Task has too many tags: ");
            m.append(task.title.as_str());
            push_alert(&mut notifications, m, NotificationLevel::Warning, task.id, Ghost(acc));
            proof {
                acc = acc.push(("Task has too many tags: "@ + task.title@, NotificationLevel::Warning, Some(task.id)));
            }
        }
        let ghost after_b = acc;
        let title = task.title.as_str();
        if byte_length(title) > 100 {
            let mut m = String::from_str("Task title is very long: ");
            m.append(prefix_bytes(title, 50));
            m.append("...");
            push_alert(&mut notifications, m, NotificationLevel::Info, task.id, Ghost(acc));
            proof {
                acc = acc.push(("Task title is very long: "@ + byte_prefix(task.title@, 50) + "..."@, NotificationLevel::Info, Some(task.id)));
            }
        }
        proof {
            assert(acc =~= base + task_alerts(*task));
        }
        i += 1;
    }
    assert(tasks@.take(i as int) =~= tasks@);
    let pending_count = count_pending(tasks);
    if pending_count > 20 {
        let mut m = String::from_str("You have ");
        push_decimal(&mut m, pending_count as u64);
        m.append(" pending tasks!");
        let n = Notification::new(m.as_str(), NotificationLevel::Warning);
        let ghost before = notifications@;
        notifications.push(n);
        proof {
            let a = alerts_for(tasks@);
            let b = generated_alerts(tasks@);
            assert(b =~= a.push(("You have "@ + decimal(count_where(tasks@, is_pending())) + " pending tasks!"@, NotificationLevel::Warning, None)));
            assert forall|k: int| 0 <= k < notifications@.len() implies is_fresh(#[trigger] notifications@[k], b[k].0, b[k].1, b[k].2) by {
                if k < a.len() {
                    assert(notifications@[k] == before[k]);
                }
            }
        }
    } else {
        assert(generated_alerts(tasks@) =~= alerts_for(tasks@));
    }
    notifications
}

/// How many of `tasks` are not done.
pub fn count_pending(tasks: &[Task]) -> (n: usize)
    ensures
        n == count_where(tasks@, is_pending()),
{
    let mut n: usize = 0;
    let mut i: usize = 0;
    while i < tasks.len()
        invariant
            i <= tasks@.len(),
            n == count_where(tasks@.take(i as int), is_pending()),
            n <= i,
        decreases tasks@.len() - i,
    {
        proof {
            lemma_count_take_step(tasks@, i as int, is_pending());
        }
        if !tasks[i].done {
            n += 1;
        }
        i += 1;
    }
    assert(tasks@.take(i as int) =~= tasks@);
    n
}

/// The digest lines of `s`: "k. [LEVEL] message\n" for the k-th notification.
pub open spec fn digest_lines(s: Seq<Notification>) -> Seq<char>
    decreases s.len(),
{
    if s.len() == 0 {
        Seq::empty()
    } else {
        digest_lines(s.drop_last()) + decimal(s.len()) + ". "@ + level_tag(s.last().level) + " "@
            + s.last().message@ + "\n"@
    }
}

/// The digest of a queue: "No new notifications." for an empty queue;
/// otherwise a header with the number of unread notifications, then every
/// notification, read or not, on a numbered line.
pub open spec fn digest_text(s: Seq<Notification>) -> Seq<char> {
    if s.len() == 0 {
        "No new notifications."@
    } else {
        "--- "@ + decimal(count_where(s, is_unread())) + " Unread Notifications ---\n"@ + digest_lines(s)
    }
}

/// All notifications of the queue as one string: "No new notifications." when
/// the queue is empty; otherwise a header with the number of unread
/// notifications and one numbered line per notification, oldest first.
pub fn format_notification_digest(queue: &NotificationQueue) -> (s: String)
    ensures
        s@ == digest_text(queue@),
{
    let all = &queue.notifications;
    if all.len() == 0 {
        return String::from_str("No new notifications.");
    }
    let unread = queue.unread_count();
    let mut digest = String::from_str("--- ");
    push_decimal(&mut digest, unread as u64);
    digest.append(" Unread Notifications ---\n");
    let ghost head = digest@;
    let mut i: usize = 0;
    while i < all.len()
        invariant
            all@ == queue@,
            i <= all@.len(),
            digest@ == head + digest_lines(all@.take(i as int)),
        decreases all@.len() - i,
    {
        let n = &all[i];
        push_decimal(&mut digest, (i + 1) as u64);
        digest.append(". ");
        let text = n.display_text();
        digest.append(text.as_str());
        digest.append("\n");
        proof {
            assert(all@.take(i + 1).drop_last() =~= all@.take(i as int));
            assert(all@[i as int] == *n);
            assert(digest@ =~= head + digest_lines(all@.take(i + 1)));
        }
        i += 1;
    }
    assert(all@.take(i as int) =~= all@);
    digest
}

} // verus!
