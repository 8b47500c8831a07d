use task_manager::formatter::{format_as_table, render_bar, render_empty_bar, OutputFormat, TaskFormatter};
use task_manager::task::{Priority, Task, TaskIds};

#[test]
fn test_markdown_format() {
    let mut ids = TaskIds::new();
    let tasks = vec![
        Task::new(&mut ids, "First task", Priority::High),
        Task::new(&mut ids, "Second task", Priority::Low),
    ];
    let formatter = TaskFormatter::new(OutputFormat::Markdown);
    let output = formatter.format_tasks(&tasks);
    assert!(output.contains("# Task List"));
    assert!(output.contains("First task"));
}

#[test]
fn test_csv_format() {
    let mut ids = TaskIds::new();
    let tasks = vec![Task::new(&mut ids, "My task", Priority::Medium)];
    let formatter = TaskFormatter::new(OutputFormat::Csv);
    let output = formatter.format_tasks(&tasks);
    assert!(output.contains("id,title,priority,done"));
    assert!(output.contains("My task"));
}

// The progress bar's percentage and filled width are computed in floating
// point by the program; the library renders the bar from them.
#[test]
fn test_progress_bar() {
    let (done, total, width) = (5usize, 10usize, 20usize);
    let percentage = (done as f64 / total as f64 * 100.0) as usize;
    let filled = (done as f64 / total as f64 * width as f64) as usize;
    let bar = render_bar(filled, width, percentage);
    assert!(bar.contains("50%"));
}

#[test]
fn test_progress_bar_zero() {
    let bar = render_empty_bar(10);
    assert!(bar.contains("0%"));
}

#[test]
fn test_count_lines() {
    let mut ids = TaskIds::new();
    let tasks = vec![
        Task::new(&mut ids, "A", Priority::Low),
        Task::new(&mut ids, "B", Priority::High),
    ];
    let formatter = TaskFormatter::new(OutputFormat::Plain);
    let lines = formatter.count_lines(&tasks);
    assert_eq!(lines, 2);
}

#[test]
fn every_format_exactly() {
    let mut ids = TaskIds::new();
    let mut tasks = vec![
        Task::new(&mut ids, "A", Priority::Low),
        Task::new(&mut ids, "B", Priority::Critical),
    ];
    tasks[1].done = true;
    let mut f = TaskFormatter::new(OutputFormat::Markdown);
    assert_eq!(f.format_tasks(&tasks), "# Task List\n\n- [ ] A (low)\n- [x] B (critical)\n");
    f.show_ids = true;
    assert_eq!(f.format_tasks(&tasks), "# Task List\n\n- [ ] #1 A (low)\n- [x] #2 B (critical)\n");
    f.include_done = false;
    assert_eq!(f.format_tasks(&tasks), "# Task List\n\n- [ ] #1 A (low)\n");
    assert_eq!(f.format_single(&tasks[1]), "# Task List\n\n");
    let csv = TaskFormatter::new(OutputFormat::Csv);
    assert_eq!(csv.format_tasks(&tasks), "id,title,priority,done\n1,A,low,false\n2,B,critical,true\n");
    let plain = TaskFormatter::new(OutputFormat::Plain);
    assert_eq!(plain.format_tasks(&tasks), "[TODO] A\n[DONE] B\n");
    let html = TaskFormatter::new(OutputFormat::Html);
    assert_eq!(
        html.format_tasks(&tasks),
        "<ul>\n  <li class=\"pending\">A</li>\n  <li class=\"done\">B</li>\n</ul>\n"
    );
    assert_eq!(html.count_lines(&tasks), 4);
}

#[test]
fn titles_totals_and_longest() {
    let mut ids = TaskIds::new();
    let tasks = vec![
        Task::new(&mut ids, "ab", Priority::Low),
        Task::new(&mut ids, "abcd", Priority::Low),
        Task::new(&mut ids, "wxyz", Priority::Low),
    ];
    let f = TaskFormatter::new(OutputFormat::Plain);
    assert_eq!(f.total_title_chars(&tasks), 10);
    assert_eq!(f.longest_title(&tasks), Some("abcd".to_string()));
    assert_eq!(f.longest_title(&[]), None);
}

#[test]
fn bars_exactly() {
    assert_eq!(render_bar(10, 20, 50), "[==========>         ] 50%");
    assert_eq!(render_bar(4, 4, 100), "[====] 100%");
    assert_eq!(render_bar(0, 3, 0), "[>  ] 0%");
    assert_eq!(render_empty_bar(3), "[   ] 0%");
}

#[test]
fn table_layout() {
    let rows = vec![
        vec!["1".to_string(), "x".to_string()],
        vec!["2".to_string(), "y".to_string()],
    ];
    assert_eq!(format_as_table(&["id", "name"], &rows), "id | name\n---------\n1 | x\n2 | y\n");
    assert_eq!(format_as_table(&[], &[]), "\n\n");
}
