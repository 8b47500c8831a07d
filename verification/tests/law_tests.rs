use task_manager::archive::Archive;
use task_manager::export::summary_banner;
use task_manager::history::{HistoryEvent, TaskHistory};
use task_manager::notifications::{Notification, NotificationLevel, NotificationQueue};
use task_manager::store::TaskStore;
use task_manager::task::{Priority, Task, TaskIds};

#[test]
fn lower_case_names_read_back() {
    for p in [Priority::Low, Priority::Medium, Priority::High, Priority::Critical] {
        let name = format!("{:?}", p).to_lowercase();
        assert_eq!(Priority::from_lowercase_name(&name), p);
    }
}

#[test]
fn added_task_is_found_and_deleted_task_is_gone() {
    let mut ids = TaskIds::new();
    let mut store = TaskStore::new();
    store.add_task(Task::new(&mut ids, "a", Priority::Low));
    let t = Task::new(&mut ids, "b", Priority::High);
    let id = t.id;
    store.add_task(t);
    assert_eq!(store.get_task(id).unwrap().title, "b");
    assert!(store.delete_task(id));
    assert!(store.get_task(id).is_none());
    assert_eq!(store.get_all_tasks().len(), 1);
}

#[test]
fn archiving_keeps_every_task_and_restore_reopens() {
    let mut ids = TaskIds::new();
    let mut tasks: Vec<Task> = (0..5).map(|i| Task::new(&mut ids, &format!("t{}", i), Priority::Low)).collect();
    tasks[1].done = true;
    tasks[4].done = true;
    let mut archive = Archive::new();
    let moved = archive.archive_done(&mut tasks);
    assert_eq!(moved + tasks.len(), 5);
    let restored = archive.restore(5).unwrap();
    assert_eq!(restored.id, 5);
    assert!(!restored.done);
    assert_eq!(archive.count(), 1);
}

#[test]
fn tags_added_and_removed() {
    let mut ids = TaskIds::new();
    let mut t = Task::new(&mut ids, "t", Priority::Low);
    t.add_tag("x");
    assert!(t.has_tag("x"));
    t.add_tag("y");
    t.remove_tag("x");
    assert!(!t.has_tag("x"));
    assert!(t.has_tag("y"));
}

#[test]
fn queue_stays_within_capacity() {
    let mut q = NotificationQueue::with_capacity(3);
    for i in 0..10 {
        q.push(Notification::new(&format!("n{}", i), NotificationLevel::Info));
        assert!(q.total_count() <= 3);
    }
    assert_eq!(q.get_unread()[0].message, "n7");
}

#[test]
fn history_stays_within_capacity_from_ten() {
    let mut h = TaskHistory::with_max_entries(10);
    for i in 0..50u64 {
        h.record_at(HistoryEvent::Completed { task_id: i }, i);
        assert!(h.entry_count() <= 10);
    }
    let mut small = TaskHistory::with_max_entries(5);
    for i in 0..7u64 {
        small.record_at(HistoryEvent::Completed { task_id: i }, i);
    }
    assert_eq!(small.entry_count(), 7);
}

#[test]
fn banner_percent_at_most_100() {
    let mut ids = TaskIds::new();
    let mut tasks = vec![Task::new(&mut ids, "a", Priority::Low), Task::new(&mut ids, "b", Priority::Low)];
    tasks[0].done = true;
    tasks[1].done = true;
    assert_eq!(summary_banner(&tasks), "2/2 done (100%)");
}

#[test]
fn drain_done_splits_store() {
    let mut ids = TaskIds::new();
    let mut store = TaskStore::new();
    for i in 0..4 {
        store.add_task(Task::new(&mut ids, &format!("t{}", i), Priority::Low));
    }
    store.mark_done(2);
    store.mark_done(4);
    let done = store.drain_done();
    let done_titles: Vec<&str> = done.iter().map(|t| t.title.as_str()).collect();
    assert_eq!(done_titles, vec!["t1", "t3"]);
    assert_eq!(store.pending_count(), 2);
    assert_eq!(store.done_count(), 0);
}
