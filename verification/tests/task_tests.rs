use task_manager::task::{Priority, Task, TaskIds};

#[test]
fn test_new_task() {
    let mut ids = TaskIds::new();
    let task = Task::new(&mut ids, "Test task", Priority::High);
    assert_eq!(task.title, "Test task");
    assert_eq!(task.priority, Priority::High);
    assert!(!task.done);
}

#[test]
fn test_priority_numeric() {
    assert_eq!(Priority::Low.numeric_value(), 1);
    assert_eq!(Priority::Critical.numeric_value(), 4);
}

#[test]
fn test_add_tag() {
    let mut ids = TaskIds::new();
    let mut task = Task::new(&mut ids, "Tagged", Priority::Low);
    task.add_tag("urgent");
    assert!(task.has_tag("urgent"));
}

#[test]
fn test_from_str() {
    assert_eq!(Priority::from_str("low"), Priority::Low);
    assert_eq!(Priority::from_str("HIGH"), Priority::High);
}

#[test]
fn test_is_actionable() {
    let mut ids = TaskIds::new();
    let high = Task::new(&mut ids, "ship it", Priority::High);
    assert!(high.is_actionable());

    let low = Task::new(&mut ids, "someday", Priority::Low);
    assert!(!low.is_actionable());
}

#[test]
fn ids_start_at_one_and_increase() {
    let mut ids = TaskIds::new();
    let a = Task::new(&mut ids, "a", Priority::Low);
    let b = Task::new(&mut ids, "b", Priority::Low);
    assert_eq!(a.id, 1);
    assert_eq!(b.id, 2);
    assert_eq!(ids.next_id(), 3);
}

#[test]
fn from_str_aliases_and_default() {
    assert_eq!(Priority::from_str("Med"), Priority::Medium);
    assert_eq!(Priority::from_str("CRIT"), Priority::Critical);
    assert_eq!(Priority::from_str("critical"), Priority::Critical);
    assert_eq!(Priority::from_str("whatever"), Priority::Medium);
    assert_eq!(Priority::from_lowercase_name("HIGH"), Priority::Medium);
}

#[test]
fn remove_tag_removes_every_copy() {
    let mut ids = TaskIds::new();
    let mut task = Task::new(&mut ids, "t", Priority::Low);
    task.add_tag("a");
    task.add_tag("b");
    task.add_tag("a");
    task.remove_tag("a");
    assert_eq!(task.tags, vec!["b".to_string()]);
    assert!(!task.has_tag("a"));
    assert!(task.has_tag("b"));
}

#[test]
fn urgency_in_halves_values() {
    let mut ids = TaskIds::new();
    let mut t = Task::new(&mut ids, "x", Priority::High);
    assert_eq!(t.urgency_in_halves(), 60);
    t.add_tag("tag");
    assert_eq!(t.urgency_in_halves(), 61);
    t.done = true;
    assert_eq!(t.urgency_in_halves(), -139);
}

#[test]
fn formatted_title_marks_urgent_tasks() {
    let mut ids = TaskIds::new();
    let c = Task::new(&mut ids, "fire", Priority::Critical);
    let h = Task::new(&mut ids, "warn", Priority::High);
    let l = Task::new(&mut ids, "calm", Priority::Low);
    assert_eq!(c.formatted_title(), "🔥 fire");
    assert_eq!(h.formatted_title(), "⚠️  warn");
    assert_eq!(l.formatted_title(), "calm");
}

#[test]
fn summary_cuts_long_descriptions() {
    let mut ids = TaskIds::new();
    let t = Task::new(&mut ids, "Title", Priority::Low);
    assert_eq!(t.summary(), "[TODO] Title");
    let long = "x".repeat(60);
    let mut d = Task::new(&mut ids, "Title", Priority::Low).with_description(&long);
    d.done = true;
    assert_eq!(d.summary(), format!("[DONE] Title - {}...", "x".repeat(50)));
    let short = Task::new(&mut ids, "T", Priority::Low).with_description("abc");
    assert_eq!(short.summary(), "[TODO] T - abc");
}

#[test]
fn title_length_counts_bytes() {
    let mut ids = TaskIds::new();
    let t = Task::new(&mut ids, "héllo", Priority::Low);
    assert_eq!(t.title_length(), 6);
}
