use task_manager::store::TaskStore;
use task_manager::task::{Priority, Task, TaskIds};

#[test]
fn test_add_and_get() {
    let mut ids = TaskIds::new();
    let mut store = TaskStore::new();
    let task = Task::new(&mut ids, "Test", Priority::Medium);
    let id = task.id;
    store.add_task(task);
    assert!(store.get_task(id).is_some());
}

#[test]
fn test_pending_count() {
    let mut ids = TaskIds::new();
    let mut store = TaskStore::new();
    store.add_task(Task::new(&mut ids, "One", Priority::Low));
    store.add_task(Task::new(&mut ids, "Two", Priority::High));
    assert_eq!(store.pending_count(), 2);
}

#[test]
fn test_delete() {
    let mut ids = TaskIds::new();
    let mut store = TaskStore::new();
    let task = Task::new(&mut ids, "Delete me", Priority::Low);
    let id = task.id;
    store.add_task(task);
    assert!(store.delete_task(id));
    assert!(store.get_task(id).is_none());
}

#[test]
fn test_search() {
    let mut ids = TaskIds::new();
    let mut store = TaskStore::new();
    store.add_task(Task::new(&mut ids, "Fix the bug", Priority::High));
    store.add_task(Task::new(&mut ids, "Write tests", Priority::Medium));
    let results = store.search("bug");
    assert_eq!(results.len(), 1);
}

fn sample() -> TaskStore {
    let mut ids = TaskIds::new();
    let mut store = TaskStore::new();
    store.add_task(Task::new(&mut ids, "Buy groceries", Priority::Low));
    store.add_task(Task::new(&mut ids, "Fix production bug", Priority::Critical));
    store.add_task(Task::new(&mut ids, "Write docs", Priority::Medium));
    store.add_task(Task::new(&mut ids, "Refactor auth module", Priority::High));
    store
}

#[test]
fn mark_done_and_counts() {
    let mut store = sample();
    store.mark_done(1);
    assert!(store.get_task(1).unwrap().done);
    assert_eq!(store.pending_count(), 3);
    assert_eq!(store.done_count(), 1);
    assert_eq!(store.pending_count() + store.done_count(), store.get_all_tasks().len());
}

#[test]
fn delete_missing_returns_false() {
    let mut store = sample();
    assert!(!store.delete_task(42));
    assert_eq!(store.get_all_tasks().len(), 4);
}

#[test]
fn get_task_mut_changes_in_place() {
    let mut store = sample();
    store.get_task_mut(3).unwrap().title = "Write more docs".to_string();
    assert_eq!(store.get_task(3).unwrap().title, "Write more docs");
    assert!(store.get_task_mut(99).is_none());
}

#[test]
fn sorted_by_urgency_is_stable_and_descending() {
    let mut ids = TaskIds::new();
    let mut store = TaskStore::new();
    store.add_task(Task::new(&mut ids, "a", Priority::Low));
    store.add_task(Task::new(&mut ids, "b", Priority::High));
    store.add_task(Task::new(&mut ids, "c", Priority::Low));
    store.add_task(Task::new(&mut ids, "d", Priority::High));
    let mut done = Task::new(&mut ids, "e", Priority::Critical);
    done.done = true;
    store.add_task(done);
    let titles: Vec<&str> = store.sorted_by_urgency().iter().map(|t| t.title.as_str()).collect();
    assert_eq!(titles, vec!["b", "d", "a", "c", "e"]);
}

#[test]
fn search_ignores_case_and_checks_description() {
    let mut ids = TaskIds::new();
    let mut store = TaskStore::new();
    store.add_task(Task::new(&mut ids, "Deploy", Priority::High).with_description("Needs the BUG fix"));
    store.add_task(Task::new(&mut ids, "BUGS everywhere", Priority::Low));
    store.add_task(Task::new(&mut ids, "Nothing", Priority::Low));
    assert_eq!(store.search("bug").len(), 2);
    assert_eq!(store.search("").len(), 3);
}

#[test]
fn bulk_complete_counts_each_task_once() {
    let mut store = sample();
    let n = store.bulk_complete(&[2, 2, 4, 77]);
    assert_eq!(n, 2);
    assert_eq!(store.done_count(), 2);
    assert_eq!(store.bulk_complete(&[2]), 0);
}

#[test]
fn get_by_priority_keeps_order() {
    let store = sample();
    let lows = store.get_by_priority(Priority::Low);
    assert_eq!(lows.len(), 1);
    assert_eq!(lows[0].title, "Buy groceries");
}

#[test]
fn stats_summary_text() {
    let mut store = sample();
    store.mark_done(1);
    assert_eq!(
        store.stats_summary("25"),
        "Tasks: 4 total, 1 done, 3 pending, 1 critical (25% complete)"
    );
}

#[test]
fn import_tasks_appends() {
    let mut store = sample();
    let mut ids = TaskIds::new();
    let n = store.import_tasks(vec![Task::new(&mut ids, "x", Priority::Low), Task::new(&mut ids, "y", Priority::Low)]);
    assert_eq!(n, 2);
    assert_eq!(store.get_all_tasks().len(), 6);
    assert_eq!(store.get_all_tasks()[5].title, "y");
}
