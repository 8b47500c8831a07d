use task_manager::archive::Archive;
use task_manager::task::{Priority, Task, TaskIds};

#[test]
fn test_archive_done() {
    let mut ids = TaskIds::new();
    let mut tasks = vec![
        Task::new(&mut ids, "a", Priority::Low),
        Task::new(&mut ids, "b", Priority::High),
    ];
    tasks[0].done = true;
    let mut archive = Archive::new();
    let moved = archive.archive_done(&mut tasks);
    assert_eq!(moved, 1);
    assert_eq!(archive.count(), 1);
}

#[test]
fn test_restore_uncompletes_and_removes_from_archive() {
    let mut ids = TaskIds::new();
    let mut tasks = vec![
        Task::new(&mut ids, "done task", Priority::Low),
        Task::new(&mut ids, "still pending", Priority::High),
    ];
    let archived_id = tasks[0].id;
    tasks[0].done = true;

    let mut archive = Archive::new();
    archive.archive_done(&mut tasks);

    let restored = archive.restore(archived_id).expect("task should restore");
    assert!(!restored.done);
    assert_eq!(restored.id, archived_id);
    assert_eq!(archive.count(), 0);
}

#[test]
fn test_restore_missing_id_returns_none() {
    let mut archive = Archive::new();
    assert!(archive.restore(999_999).is_none());
}

#[test]
fn archive_done_keeps_pending_in_order() {
    let mut ids = TaskIds::new();
    let mut tasks = vec![
        Task::new(&mut ids, "a", Priority::Low),
        Task::new(&mut ids, "b", Priority::Low),
        Task::new(&mut ids, "c", Priority::Low),
        Task::new(&mut ids, "d", Priority::Low),
    ];
    tasks[0].done = true;
    tasks[2].done = true;
    let mut archive = Archive::new();
    assert_eq!(archive.archive_done(&mut tasks), 2);
    let left: Vec<&str> = tasks.iter().map(|t| t.title.as_str()).collect();
    assert_eq!(left, vec!["b", "d"]);
    let kept: Vec<&str> = archive.all().iter().map(|t| t.title.as_str()).collect();
    assert_eq!(kept, vec!["a", "c"]);
    assert_eq!(archive.report(), "Archive (2 tasks)\n- a (id 1)\n- c (id 3)\n");
    archive.clear();
    assert_eq!(archive.count(), 0);
    assert_eq!(archive.report(), "Archive (0 tasks)\n");
}
