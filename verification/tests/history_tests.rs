use task_manager::history::{HistoryEvent, TaskHistory};
use task_manager::task::{Priority, Task, TaskIds};

#[test]
fn test_record_creation() {
    let mut ids = TaskIds::new();
    let mut history = TaskHistory::new();
    let task = Task::new(&mut ids, "Test task", Priority::High);
    history.record_creation(&task);
    assert_eq!(history.entry_count(), 1);
}

#[test]
fn test_record_completion() {
    let mut history = TaskHistory::new();
    history.record_completion(1);
    assert_eq!(history.completions_count(), 1);
}

#[test]
fn test_entries_for_task() {
    let mut ids = TaskIds::new();
    let mut history = TaskHistory::new();
    let task = Task::new(&mut ids, "Tracked", Priority::Medium);
    let id = task.id;
    history.record_creation(&task);
    history.record_completion(id);
    history.record_completion(999); // different task
    assert_eq!(history.entries_for_task(id).len(), 2);
}

#[test]
fn test_clear() {
    let mut history = TaskHistory::new();
    history.record_completion(1);
    history.record_completion(2);
    history.clear();
    assert_eq!(history.entry_count(), 0);
}

#[test]
fn full_log_drops_oldest_tenth() {
    let mut history = TaskHistory::with_max_entries(20);
    for i in 0..20u64 {
        history.record_at(HistoryEvent::Completed { task_id: i }, i);
    }
    assert_eq!(history.entry_count(), 20);
    history.record_at(HistoryEvent::Reopened { task_id: 99 }, 100);
    assert_eq!(history.entry_count(), 19);
    match &history.all_entries()[0].event {
        HistoryEvent::Completed { task_id } => assert_eq!(*task_id, 2),
        _ => panic!("unexpected event"),
    }
}

#[test]
fn since_last_n_and_summary() {
    let mut history = TaskHistory::new();
    history.record_at(HistoryEvent::Created { task_id: 1, title: "a".to_string() }, 10);
    history.record_at(HistoryEvent::Completed { task_id: 1 }, 20);
    history.record_at(HistoryEvent::Deleted { task_id: 1, title: "a".to_string() }, 30);
    assert_eq!(history.entries_since(20).len(), 2);
    assert_eq!(history.last_n_entries(1).len(), 1);
    assert_eq!(history.last_n_entries(1)[0].timestamp, 30);
    assert_eq!(history.last_n_entries(10).len(), 3);
    assert_eq!(history.summary(), "History: 3 events (1 created, 1 completed, 1 deleted)");
    history.record_tag_added(2, "x");
    history.record_priority_change(2, "low", "high");
    assert_eq!(history.entries_for_task(2).len(), 2);
}
