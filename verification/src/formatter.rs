//! Renders task lists as markdown, CSV, plain text or HTML, plus a progress
//! bar and a simple text table.

use vstd::prelude::*;
use crate::seqs::{concat_map, deref_all, lemma_concat_map_take_step};
use crate::task::{Task, Priority, is_pending, lower_name};
use crate::text::{
    byte_len, byte_length, count_char, decimal, joined, occurrences, push_char, push_decimal,
    push_repeated, repeated, str_views, string_views, join_strs, join_strings,
};

verus! {

/// The text formats a `TaskFormatter` can produce.
#[derive(Debug, Clone, Copy, PartialEq, Eq, Structural)]
pub enum OutputFormat {
    Markdown,
    Csv,
    Plain,
    Html,
}

/// The tasks that are rendered: all of them, or only the pending ones.
pub open spec fn shown_tasks(s: Seq<Task>, include_done: bool) -> Seq<Task> {
    if include_done {
        s
    } else {
        s.filter(is_pending())
    }
}

/// The line that renders one task in format `format`.
pub open spec fn task_line(format: OutputFormat, show_ids: bool, t: Task) -> Seq<char> {
    match format {
        OutputFormat::Markdown => {
            let checkbox = if t.done { "[x]"@ } else { "[ ]"@ };
            if show_ids {
                "- "@ + checkbox + " #"@ + decimal(t.id as nat) + " "@ + t.title@ + " ("@ + lower_name(
                    t.priority,
                ) + ")\n"@
            } else {
                "- "@ + checkbox + " "@ + t.title@ + " ("@ + lower_name(t.priority) + ")\n"@
            }
        },
        OutputFormat::Csv => {
            decimal(t.id as nat) + ","@ + t.title@ + ","@ + lower_name(t.priority) + ","@ + (if t.done {
                "true"@
            } else {
                "false"@
            }) + "\n"@
        },
        OutputFormat::Plain => {
            "["@ + (if t.done { "DONE"@ } else { "TODO"@ }) + "] "@ + t.title@ + "\n"@
        },
        OutputFormat::Html => {
            "  <li class=\""@ + (if t.done { "done"@ } else { "pending"@ }) + "\">"@ + t.title@
                + "</li>\n"@
        },
    }
}

/// What comes before the task lines in format `format`.
pub open spec fn format_header(format: OutputFormat) -> Seq<char> {
    match format {
        OutputFormat::Markdown => "# Task List\n\n"@,
        OutputFormat::Csv => "id,title,priority,done\n"@,
        OutputFormat::Plain => ""@,
        OutputFormat::Html => "<ul>\n"@,
    }
}

/// What comes after the task lines in format `format`.
pub open spec fn format_footer(format: OutputFormat) -> Seq<char> {
    match format {
        OutputFormat::Html => "</ul>\n"@,
        _ => ""@,
    }
}

/// The full rendering of `s` with these settings.
pub open spec fn formatted(format: OutputFormat, include_done: bool, show_ids: bool, s: Seq<Task>) -> Seq<char> {
    format_header(format) + concat_map(
        shown_tasks(s, include_done),
        |t: Task| task_line(format, show_ids, t),
    ) + format_footer(format)
}

/// The total byte length of the titles of `s`.
pub open spec fn title_bytes(s: Seq<Task>) -> nat
    decreases s.len(),
{
    if s.len() == 0 {
        0
    } else {
        title_bytes(s.drop_last()) + byte_len(s.last().title@)
    }
}

/// `i` is the first position of `s` whose title is at least as long, in bytes,
/// as every other title.
pub open spec fn first_longest_title(s: Seq<Task>, i: int) -> bool {
    &&& 0 <= i < s.len()
    &&& forall|j: int| 0 <= j < s.len() ==> byte_len(#[trigger] s[j].title@) <= byte_len(s[i].title@)
    &&& forall|j: int| 0 <= j < i ==> byte_len(#[trigger] s[j].title@) < byte_len(s[i].title@)
}

/// The progress bar for `filled` of `width` cells: "[===>    ] P%".
pub open spec fn bar_text(filled: nat, width: nat, percentage: nat) -> Seq<char> {
    "["@ + repeated('=', filled) + (if filled < width {
        ">"@ + repeated(' ', (width - filled - 1) as nat)
    } else {
        ""@
    }) + "]"@ + " "@ + decimal(percentage) + "%"@
}

/// The progress bar of an empty list: `width` blanks and 0%.
pub open spec fn empty_bar_text(width: nat) -> Seq<char> {
    "["@ + repeated(' ', width) + "] 0%"@
}

/// The text table: the header row, a dashed rule as long (in bytes) as the
/// header row, then one row per line, cells separated by " | ".
pub open spec fn table_text(headers: Seq<Seq<char>>, rows: Seq<Seq<Seq<char>>>) -> Seq<char> {
    let header_line = joined(headers, " | "@);
    header_line + "\n"@ + repeated('-', byte_len(header_line)) + "\n"@ + concat_map(
        rows,
        |row: Seq<Seq<char>>| joined(row, " | "@) + "\n"@,
    )
}

/// How a list of tasks is rendered: the format, whether finished tasks are
/// included, and whether ids are shown (markdown only).
pub struct TaskFormatter {
    pub format: OutputFormat,
    pub include_done: bool,
    pub show_ids: bool,
}

impl TaskFormatter {
    /// A formatter for `format` that includes finished tasks and hides ids.
    pub fn new(format: OutputFormat) -> (f: TaskFormatter)
        ensures
            f.format == format,
            f.include_done,
            !f.show_ids,
    {
        TaskFormatter { format, include_done: true, show_ids: false }
    }

    fn priority_to_string(&self, priority: &Priority) -> (s: String)
        ensures
            s@ == lower_name(*priority),
    {
        match priority {
            Priority::Low => String::from_str("low"),
            Priority::Medium => String::from_str("medium"),
            Priority::High => String::from_str("high"),
            Priority::Critical => String::from_str("critical"),
        }
    }

    fn push_task_line(&self, out: &mut String, task: &Task)
        ensures
            final(out)@ == old(out)@ + task_line(self.format, self.show_ids, *task),
    {
        match self.format {
            OutputFormat::Markdown => {
                let checkbox = if task.done { "[x]" } else { "[ ]" };
                let priority_str = self.priority_to_string(&task.priority);
                out.append("- ");
                out.append(checkbox);
                if self.show_ids {
                    out.append(" #");
                    push_decimal(out, task.id);
                }
                out.append(" ");
                out.append(task.title.as_str());
                out.append(" (");
                out.append(priority_str.as_str());
                out.append(")\n");
            },
            OutputFormat::Csv => {
                let done_str = if task.done { "true" } else { "false" };
                let priority_str = self.priority_to_string(&task.priority);
                push_decimal(out, task.id);
                out.append(",");
                out.append(task.title.as_str());
                out.append(",");
                out.append(priority_str.as_str());
                out.append(",");
                out.append(done_str);
                out.append("\n");
            },
            OutputFormat::Plain => {
                let status = if task.done { "DONE" } else { "TODO" };
                out.append("[");
                out.append(status);
                out.append("] ");
                out.append(task.title.as_str());
                out.append("\n");
            },
            OutputFormat::Html => {
                let class = if task.done { "done" } else { "pending" };
                out.append("  <li class=\"");
                out.append(class);
                out.append("\">");
                out.append(task.title.as_str());
                out.append("</li>\n");
            },
        }
        assert(out@ =~= old(out)@ + task_line(self.format, self.show_ids, *task));
    }

    fn format_refs(&self, tasks: &Vec<&Task>) -> (s: String)
        ensures
            s@ == formatted(self.format, self.include_done, self.show_ids, deref_all(tasks@)),
    {
        let ghost all = deref_all(tasks@);
        let mut filtered: Vec<&Task> = Vec::new();
        let mut i: usize = 0;
        while i < tasks.len()
            invariant
                all == deref_all(tasks@),
                i <= tasks@.len(),
                deref_all(filtered@) == shown_tasks(all.take(i as int), self.include_done),
            decreases tasks@.len() - i,
        {
            proof {
                assert(all.take(i + 1) =~= all.take(i as int).push(all[i as int]));
                all.take(i as int).lemma_filter_push(all[i as int], is_pending());
            }
            let ghost before = filtered@;
            if self.include_done || !tasks[i].done {
                filtered.push(tasks[i]);
                assert(deref_all(filtered@) =~= deref_all(before).push(all[i as int]));
            }
            i += 1;
        }
        assert(all.take(i as int) =~= all);
        let ghost shown = deref_all(filtered@);
        let ghost f = |t: Task| task_line(self.format, self.show_ids, t);
        let mut output = String::new();
        match self.format {
            OutputFormat::Markdown => output.append("# Task List\n\n"),
            OutputFormat::Csv => output.append("id,title,priority,done\n"),
            OutputFormat::Plain => {},
            OutputFormat::Html => output.append("<ul>\n"),
        }
        proof {
            reveal_strlit("");
            assert(shown.take(0) =~= Seq::<Task>::empty());
            assert(output@ =~= format_header(self.format) + concat_map(shown.take(0), f));
        }
        let mut j: usize = 0;
        while j < filtered.len()
            invariant
                shown == deref_all(filtered@),
                f == (|t: Task| task_line(self.format, self.show_ids, t)),
                j <= filtered@.len(),
                output@ == format_header(self.format) + concat_map(shown.take(j as int), f),
            decreases filtered@.len() - j,
        {
            proof {
                lemma_concat_map_take_step(shown, j as int, f);
            }
            self.push_task_line(&mut output, filtered[j]);
            j += 1;
        }
        assert(shown.take(j as int) =~= shown);
        match self.format {
            OutputFormat::Html => output.append("</ul>\n"),
            _ => {},
        }
        proof {
            reveal_strlit("");
            assert(output@ =~= formatted(self.format, self.include_done, self.show_ids, all));
        }
        output
    }

    /// Renders the tasks (only the pending ones unless `include_done`) in the
    /// formatter's format.
    pub fn format_tasks(&self, tasks: &[Task]) -> (s: String)
        ensures
            s@ == formatted(self.format, self.include_done, self.show_ids, tasks@),
    {
        let mut refs: Vec<&Task> = Vec::new();
        let mut i: usize = 0;
        while i < tasks.len()
            invariant
                i <= tasks@.len(),
                deref_all(refs@) == tasks@.take(i as int),
            decreases tasks@.len() - i,
        {
            let ghost before = refs@;
            refs.push(&tasks[i]);
            assert(deref_all(refs@) =~= deref_all(before).push(tasks@[i as int]));
            assert(tasks@.take(i + 1) =~= tasks@.take(i as int).push(tasks@[i as int]));
            i += 1;
        }
        assert(tasks@.take(i as int) =~= tasks@);
        self.format_refs(&refs)
    }

    /// Renders a single task as a one-task list.
    pub fn format_single(&self, task: &Task) -> (s: String)
        ensures
            s@ == formatted(self.format, self.include_done, self.show_ids, seq![*task]),
    {
        let refs: Vec<&Task> = vec![task];
        assert(deref_all(refs@) =~= seq![*task]);
        self.format_refs(&refs)
    }

    /// How many lines (newline characters) the rendering of `tasks` has.
    pub fn count_lines(&self, tasks: &[Task]) -> (n: usize)
        ensures
            n == occurrences(formatted(self.format, self.include_done, self.show_ids, tasks@), '\n'),
    {
        let formatted_text = self.format_tasks(tasks);
        count_char(formatted_text.as_str(), '\n')
    }

    /// The total length in bytes of the titles of `tasks`.
    pub fn total_title_chars(&self, tasks: &[Task]) -> (n: usize)
        requires
            title_bytes(tasks@) <= usize::MAX,
        ensures
            n == title_bytes(tasks@),
    {
        let mut total: usize = 0;
        let mut i: usize = 0;
        while i < tasks.len()
            invariant
                i <= tasks@.len(),
                total == title_bytes(tasks@.take(i as int)),
                title_bytes(tasks@) <= usize::MAX,
            decreases tasks@.len() - i,
        {
            proof {
                assert(tasks@.take(i + 1).drop_last() =~= tasks@.take(i as int));
                lemma_title_bytes_prefix(tasks@, i + 1);
            }
            total += byte_length(tasks[i].title.as_str());
            i += 1;
        }
        assert(tasks@.take(i as int) =~= tasks@);
        total
    }

    /// A copy of the longest title (the first of the longest ones), or `None`
    /// for an empty list.
    pub fn longest_title(&self, tasks: &[Task]) -> (r: Option<String>)
        ensures
            r is None <==> tasks@.len() == 0,
            r matches Some(t) ==> exists|i: int| first_longest_title(tasks@, i) && t == tasks@[i].title,
    {
        if tasks.len() == 0 {
            return None;
        }
        let mut best: usize = 0;
        let mut best_len = byte_length(tasks[0].title.as_str());
        let mut i: usize = 0;
        while i < tasks.len()
            invariant
                0 < tasks@.len(),
                i <= tasks@.len(),
                best < tasks@.len(),
                best <= i || (i == 0 && best == 0),
                best_len == byte_len(tasks@[best as int].title@),
                forall|j: int| 0 <= j < i ==> byte_len(#[trigger] tasks@[j].title@) <= best_len,
                forall|j: int| 0 <= j < best ==> byte_len(#[trigger] tasks@[j].title@) < best_len,
            decreases tasks@.len() - i,
        {
            let len = byte_length(tasks[i].title.as_str());
            if len > best_len {
                best = i;
                best_len = len;
            }
            i += 1;
        }
        assert(first_longest_title(tasks@, best as int));
        Some(tasks[best].title.clone())
    }
}

/// A prefix's titles are no longer in total than all of them.
proof fn lemma_title_bytes_prefix(s: Seq<Task>, k: int)
    requires
        0 <= k <= s.len(),
    ensures
        title_bytes(s.take(k)) <= title_bytes(s),
    decreases s.len() - k,
{
    if k < s.len() {
        lemma_title_bytes_prefix(s, k + 1);
        assert(s.take(k + 1).drop_last() =~= s.take(k));
    } else {
        assert(s.take(k) =~= s);
    }
}

/// The progress bar "[===>   ] P%": `filled` cells of '=', then, unless the bar
/// is full, a '>' and blanks up to `width` cells.
pub fn render_bar(filled: usize, width: usize, percentage: usize) -> (s: String)
    requires
        filled <= width,
    ensures
        s@ == bar_text(filled as nat, width as nat, percentage as nat),
{
    let mut bar = String::from_str("[");
    push_repeated(&mut bar, '=', filled);
    if filled < width {
        push_char(&mut bar, '>');
        push_repeated(&mut bar, ' ', width - filled - 1);
    }
    push_char(&mut bar, ']');
    bar.append(" ");
    push_decimal(&mut bar, percentage as u64);
    bar.append("%");
    proof {
        reveal_strlit("]");
        reveal_strlit(">");
        reveal_strlit("");
        assert(bar@ =~= bar_text(filled as nat, width as nat, percentage as nat));
    }
    bar
}

/// The progress bar of an empty list: `width` blanks and "0%".
pub fn render_empty_bar(width: usize) -> (s: String)
    ensures
        s@ == empty_bar_text(width as nat),
{
    let mut bar = String::from_str("[");
    push_repeated(&mut bar, ' ', width);
    bar.append("] 0%");
    assert(bar@ =~= empty_bar_text(width as nat));
    bar
}

/// Lays out `headers` and `rows` as text: the header row, a dashed rule as long
/// as the header row, then the rows, cells separated by " | ".
pub fn format_as_table(headers: &[&str], rows: &[Vec<String>]) -> (s: String)
    ensures
        s@ == table_text(
            str_views(headers@),
            Seq::new(rows@.len(), |i: int| string_views(rows@[i]@)),
        ),
{
    let ghost rv = Seq::new(rows@.len(), |i: int| string_views(rows@[i]@));
    let ghost f = |row: Seq<Seq<char>>| joined(row, " | "@) + "\n"@;
    let mut output = String::new();
    let header_line = join_strs(headers, " | ");
    output.append(header_line.as_str());
    push_char(&mut output, '\n');
    let n = byte_length(header_line.as_str());
    push_repeated(&mut output, '-', n);
    push_char(&mut output, '\n');
    let ghost head = output@;
    proof {
        reveal_strlit("\n");
        assert(head =~= joined(str_views(headers@), " | "@) + "\n"@ + repeated('-', byte_len(joined(str_views(headers@), " | "@))) + "\n"@);
        assert(rv.take(0) =~= Seq::<Seq<Seq<char>>>::empty());
    }
    let mut i: usize = 0;
    while i < rows.len()
        invariant
            rv == Seq::new(rows@.len(), |i: int| string_views(rows@[i]@)),
            f == (|row: Seq<Seq<char>>| joined(row, " | "@) + "\n"@),
            i <= rows@.len(),
            output@ == head + concat_map(rv.take(i as int), f),
        decreases rows@.len() - i,
    {
        proof {
            lemma_concat_map_take_step(rv, i as int, f);
        }
        let line = join_strings(&rows[i], " | ");
        output.append(line.as_str());
        push_char(&mut output, '\n');
        proof {
            reveal_strlit("\n");
            assert(rv[i as int] == string_views(rows@[i as int]@));
            assert(output@ =~= head + concat_map(rv.take(i + 1), f));
        }
        i += 1;
    }
    assert(rv.take(i as int) =~= rv);
    output
}

} // verus!
