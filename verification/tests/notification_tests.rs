use task_manager::notifications::{
    format_notification_digest, generate_task_notifications, Notification, NotificationLevel, NotificationQueue,
};
use task_manager::task::{Priority, Task, TaskIds};

#[test]
fn test_create_notification() {
    let n = Notification::new("hello", NotificationLevel::Info);
    assert_eq!(n.message, "hello");
    assert!(!n.read);
}

#[test]
fn test_queue_push() {
    let mut q = NotificationQueue::new();
    q.push(Notification::new("test", NotificationLevel::Info));
    assert_eq!(q.total_count(), 1);
}

#[test]
fn full_queue_drops_oldest() {
    let mut q = NotificationQueue::with_capacity(2);
    q.push(Notification::new("a", NotificationLevel::Info));
    q.push(Notification::new("b", NotificationLevel::Error));
    q.push(Notification::for_task("c", NotificationLevel::Critical, 7));
    assert_eq!(q.total_count(), 2);
    assert_eq!(q.latest().unwrap().message, "c");
    assert_eq!(q.oldest_unread().unwrap().message, "b");
    assert!(q.has_critical());
    assert_eq!(q.get_for_task(7).len(), 1);
    assert_eq!(q.summary(), "2 notifications (2 unread, 1 critical, 1 errors)");
}

#[test]
fn read_handling() {
    let mut q = NotificationQueue::new();
    q.push(Notification::new("a", NotificationLevel::Critical));
    q.push(Notification::new("b", NotificationLevel::Warning));
    assert_eq!(
        format_notification_digest(&q),
        "--- 2 Unread Notifications ---\n1. [CRIT] a\n2. [WARN] b\n"
    );
    q.mark_all_read();
    assert_eq!(q.unread_count(), 0);
    assert!(!q.has_critical());
    assert_eq!(
        format_notification_digest(&q),
        "--- 0 Unread Notifications ---\n1. [CRIT] a\n2. [WARN] b\n"
    );
    assert_eq!(format_notification_digest(&NotificationQueue::new()), "No new notifications.");
    q.push(Notification::new("c", NotificationLevel::Info));
    assert_eq!(q.bulk_dismiss_read(), 2);
    assert_eq!(q.total_count(), 1);
    assert!(q.dismiss(0));
    assert!(!q.dismiss(0));
}

#[test]
fn display_forms() {
    let mut n = Notification::new("0123456789012345678901234567890123456789", NotificationLevel::Error);
    assert_eq!(n.display_text(), "[ERROR] 0123456789012345678901234567890123456789");
    assert_eq!(n.short_display(), "012345678901234567890123456789...");
    assert!(!n.is_critical());
    n.mark_read();
    assert!(n.read);
}

#[test]
fn generated_notifications() {
    let mut ids = TaskIds::new();
    let mut busy = Task::new(&mut ids, "Busy", Priority::Critical);
    for t in ["a", "b", "c", "d", "e", "f"] {
        busy.add_tag(t);
    }
    let long_title = "L".repeat(120);
    let long = Task::new(&mut ids, &long_title, Priority::Low);
    let ns = generate_task_notifications(&[busy, long]);
    let msgs: Vec<String> = ns.iter().map(|n| n.message.clone()).collect();
    assert_eq!(
        msgs,
        vec![
            "Critical task pending: Busy".to_string(),
            "Task has too many tags: Busy".to_string(),
            format!("Task title is very long: {}...", "L".repeat(50)),
        ]
    );
    assert_eq!(ns[0].task_id, Some(1));
    let many: Vec<Task> = (0..21).map(|i| Task::new(&mut ids, &format!("t{}", i), Priority::Low)).collect();
    let ns = generate_task_notifications(&many);
    assert_eq!(ns.len(), 1);
    assert_eq!(ns[0].message, "You have 21 pending tasks!");
    assert_eq!(ns[0].task_id, None);
}
