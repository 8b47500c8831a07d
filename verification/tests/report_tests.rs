use task_manager::export::{summary_banner, to_csv, to_markdown, top_priority_label};
use task_manager::filters::{combine_filters, find_urgent, partition_by_filter, FilterBuilder};
use task_manager::reporting::{summary_report, tag_distribution, top_urgent};
use task_manager::reports::{build_report, daily_report, estimate_minutes_left, priority_spread, ReportOptions};
use task_manager::stats::{most_urgent, priority_breakdown, tag_frequency};
use task_manager::task::{Priority, Task, TaskIds};

fn sample_tasks() -> Vec<Task> {
    let mut ids = TaskIds::new();
    vec![
        Task::new(&mut ids, "Deploy fix", Priority::Critical),
        Task::new(&mut ids, "Update docs", Priority::Low),
        Task::new(&mut ids, "Review PR", Priority::Medium),
    ]
}

#[test]
fn test_summary_report_header() {
    let tasks = sample_tasks();
    let report = summary_report(&tasks);
    assert!(report.contains("3 tasks (0 done)"));
}

#[test]
fn test_top_urgent_limit() {
    let tasks = sample_tasks();
    let top = top_urgent(&tasks, 2);
    assert_eq!(top.len(), 2);
    assert_eq!(top[0].title, "Deploy fix");
}

#[test]
fn test_tag_distribution_empty() {
    let tasks = sample_tasks();
    let dist = tag_distribution(&tasks);
    assert_eq!(dist.len(), 0);
}

#[test]
fn test_daily_report_has_title() {
    let mut ids = TaskIds::new();
    let tasks = vec![Task::new(&mut ids, "Standup", Priority::Low)];
    let report = daily_report(&tasks);
    assert!(report.contains("Standup"));
}

#[test]
fn test_priority_breakdown() {
    let mut ids = TaskIds::new();
    let tasks = vec![
        Task::new(&mut ids, "a", Priority::Low),
        Task::new(&mut ids, "b", Priority::High),
        Task::new(&mut ids, "c", Priority::High),
    ];
    let (low, medium, high, critical) = priority_breakdown(&tasks);
    assert_eq!(low, 1);
    assert_eq!(medium, 0);
    assert_eq!(high, 2);
    assert_eq!(critical, 0);
}

#[test]
fn summary_report_exactly() {
    let tasks = sample_tasks();
    assert_eq!(summary_report(&tasks), "Report: 3 tasks (0 done)\n  Critical: 1\n  Medium: 1\n  Low: 1\n");
}

#[test]
fn tag_counts_in_first_occurrence_order() {
    let mut tasks = sample_tasks();
    tasks[0].add_tag("ops");
    tasks[0].add_tag("urgent");
    tasks[1].add_tag("urgent");
    tasks[2].add_tag("ops");
    tasks[2].add_tag("ops");
    // tag_distribution counts tasks per tag; tag_frequency counts occurrences.
    assert_eq!(tag_distribution(&tasks), vec![("ops".to_string(), 2), ("urgent".to_string(), 2)]);
    assert_eq!(tag_frequency(&tasks), vec![("ops".to_string(), 3), ("urgent".to_string(), 2)]);
}

#[test]
fn top_urgent_skips_done_and_truncates() {
    let mut tasks = sample_tasks();
    tasks[0].done = true;
    let top = top_urgent(&tasks, 5);
    let titles: Vec<&str> = top.iter().map(|t| t.title.as_str()).collect();
    assert_eq!(titles, vec!["Review PR", "Update docs"]);
    assert_eq!(top_urgent(&tasks, 0).len(), 0);
}

#[test]
fn most_urgent_first_of_best() {
    let mut ids = TaskIds::new();
    let tasks = vec![
        Task::new(&mut ids, "a", Priority::High),
        Task::new(&mut ids, "b", Priority::High),
    ];
    assert_eq!(most_urgent(&tasks).unwrap().title, "a");
    assert!(most_urgent(&[]).is_none());
}

#[test]
fn daily_and_custom_reports() {
    let mut tasks = sample_tasks();
    tasks[0].add_tag("ops");
    tasks[0].add_tag("prod");
    tasks[1].done = true;
    assert_eq!(
        daily_report(&tasks),
        "Tasks for today\n================\n- !!! Deploy fix [ops, prod]\n- Review PR\n"
    );
    let opts = ReportOptions { include_done: true, yell_about_critical: false, max_lines: 25 };
    assert_eq!(
        build_report(&tasks, opts),
        "Tasks for today\n================\n- Deploy fix [ops, prod]\n- Update docs\n- Review PR\n"
    );
    let empty: Vec<Task> = Vec::new();
    assert_eq!(daily_report(&empty), "Tasks for today\n================\nNothing to do, somehow\n");
}

#[test]
fn minutes_and_spread() {
    let mut tasks = sample_tasks();
    tasks[0].add_tag("ops");
    tasks[2] = tasks[2].clone().with_description("look closely");
    // 90 + 5 (Deploy fix) + 10 (Update docs) + 25 + 15 (Review PR)
    assert_eq!(estimate_minutes_left(&tasks), 145);
    let spread = priority_spread(&tasks);
    assert_eq!(
        spread,
        vec![
            ("low".to_string(), 1),
            ("medium".to_string(), 1),
            ("high".to_string(), 0),
            ("critical".to_string(), 1)
        ]
    );
}

#[test]
fn exports_exactly() {
    let mut tasks = sample_tasks();
    tasks[1].done = true;
    assert_eq!(
        to_csv(&tasks),
        "id,title,priority,done\n1,Deploy fix,Critical,false\n2,Update docs,Low,true\n3,Review PR,Medium,false\n"
    );
    assert_eq!(to_markdown(&tasks), "- [ ] Deploy fix\n- [x] Update docs\n- [ ] Review PR\n");
    assert_eq!(summary_banner(&tasks), "1/3 done (33%)");
    assert_eq!(top_priority_label(&tasks), "Critical");
    assert_eq!(top_priority_label(&[]), "Low");
}

#[test]
fn filters_combine_and_partition() {
    let mut tasks = sample_tasks();
    tasks[0].add_tag("ops");
    let critical = FilterBuilder::new().with_priority(Priority::Critical);
    let docs = FilterBuilder::new().title_contains("DOCS");
    assert_eq!(critical.count(&tasks), 1);
    assert!(docs.any_match(&tasks));
    assert_eq!(docs.first_match(&tasks).unwrap().title, "Update docs");
    let both = combine_filters(&tasks, &[docs, critical, FilterBuilder::new().with_tag("ops")]);
    let titles: Vec<&str> = both.iter().map(|t| t.title.as_str()).collect();
    assert_eq!(titles, vec!["Update docs", "Deploy fix"]);
    let (yes, no) = partition_by_filter(&tasks, &FilterBuilder::new().with_status(false).min_urgency(50));
    assert_eq!(yes.len(), 1);
    assert_eq!(no.len(), 2);
    assert_eq!(find_urgent(&tasks).len(), 1);
}

#[test]
fn combine_and_partition_with_shared_ids() {
    let mut ids = TaskIds::new();
    let a = Task::new(&mut ids, "alpha", Priority::High);
    let mut b = Task::new(&mut ids, "beta", Priority::High);
    b.id = a.id;
    let mut c = Task::new(&mut ids, "gamma", Priority::Low);
    c.id = a.id;
    let tasks = vec![a, b, c];
    let high = FilterBuilder::new().with_priority(Priority::High);
    let beta = FilterBuilder::new().title_contains("beta");
    let both = combine_filters(&tasks, &[beta, high]);
    let titles: Vec<&str> = both.iter().map(|t| t.title.as_str()).collect();
    assert_eq!(titles, vec!["beta", "alpha"]);
    assert_eq!(combine_filters(&tasks, &[]).len(), 0);
    let (yes, no) = partition_by_filter(&tasks, &FilterBuilder::new().with_priority(Priority::High));
    assert_eq!(yes.len(), 2);
    assert_eq!(no.len(), 1);
    assert_eq!(no[0].title, "gamma");
}
