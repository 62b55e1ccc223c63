use vstd::prelude::*;

use crate::identity::{id_text, key_text, SourceKey, TaskId, TaskIdView};
use crate::sources::SourceError;
use crate::text::{chars_of, decimal, push_char, push_decimal, push_spaces, push_str, spaces};
use crate::{state_text, SummaryView, Task, TaskBlock, TaskSummary, TaskView};

verus! {

pub open spec fn nl() -> Seq<char> {
    seq!['\n']
}

/// `key:native` for each dependency, separated by `", "`.
pub open spec fn deps_text(key: SourceKey, deps: Seq<Seq<char>>) -> Seq<char>
    decreases deps.len(),
{
    if deps.len() == 0 {
        Seq::empty()
    } else if deps.len() == 1 {
        id_text(TaskIdView { source_key: key, native_id: deps[0] })
    } else {
        deps_text(key, deps.drop_last()) + ", "@ + id_text(
            TaskIdView { source_key: key, native_id: deps.last() },
        )
    }
}

/// The text of a task block.
pub open spec fn task_block_text(t: TaskView) -> Seq<char> {
    "Task: "@ + id_text(t.id) + nl() + "Title: "@ + t.title + nl() + "State: "@ + state_text(
        t.state,
    ) + nl() + "Priority: P"@ + decimal(t.priority as nat) + nl() + match t.role {
        Some(r) => "Role: "@ + r + nl(),
        None => Seq::empty(),
    } + if t.dependencies.len() > 0 {
        "Depends: "@ + deps_text(t.id.source_key, t.dependencies) + nl()
    } else {
        Seq::empty()
    } + nl() + "Description"@ + nl() + "-----------"@ + nl() + t.description + nl() + nl()
        + "Acceptance Criteria"@ + nl() + "-------------------"@ + nl() + t.acceptance_criteria
        + nl() + match t.context_notes {
        Some(c) => nl() + "Context"@ + nl() + "-------"@ + nl() + c + nl(),
        None => Seq::empty(),
    }
}

// ── Summary table ───────────────────────────────────────────────────────────

/// Column `k` (ID, State, Priority, Role, Title) of a summary's row.
pub open spec fn cell(s: SummaryView, k: int) -> Seq<char> {
    if k == 0 {
        id_text(s.id)
    } else if k == 1 {
        state_text(s.state)
    } else if k == 2 {
        "P"@ + decimal(s.priority as nat)
    } else if k == 3 {
        match s.role {
            Some(r) => r,
            None => "-"@,
        }
    } else {
        s.title
    }
}

/// The header of column `k`.
pub open spec fn header_cell(k: int) -> Seq<char> {
    if k == 0 {
        "ID"@
    } else if k == 1 {
        "STATE"@
    } else if k == 2 {
        "PRIORITY"@
    } else if k == 3 {
        "ROLE"@
    } else {
        "TITLE"@
    }
}

/// The width of column `k`: the longest of its header and its cells.
pub open spec fn width(ss: Seq<SummaryView>, k: int) -> nat
    decreases ss.len(),
{
    if ss.len() == 0 {
        header_cell(k).len()
    } else {
        let w = width(ss.drop_last(), k);
        let c = cell(ss.last(), k).len();
        if c > w {
            c
        } else {
            w
        }
    }
}

/// `s` padded with spaces to `w` characters.
pub open spec fn pad(s: Seq<char>, w: nat) -> Seq<char> {
    if s.len() < w {
        s + spaces((w - s.len()) as nat)
    } else {
        s
    }
}

/// One table line: the first four cells padded to their widths, two spaces
/// between columns, the last cell unpadded.
pub open spec fn row_text(c: spec_fn(int) -> Seq<char>, ss: Seq<SummaryView>) -> Seq<char> {
    pad(c(0), width(ss, 0)) + "  "@ + pad(c(1), width(ss, 1)) + "  "@ + pad(c(2), width(ss, 2))
        + "  "@ + pad(c(3), width(ss, 3)) + "  "@ + c(4) + nl()
}

/// The lines of the first `n` summaries.
pub open spec fn rows_text(ss: Seq<SummaryView>, n: int) -> Seq<char>
    decreases n,
{
    if n <= 0 {
        Seq::empty()
    } else {
        rows_text(ss, n - 1) + row_text(|k: int| cell(ss[n - 1], k), ss)
    }
}

/// The whole table, or a "no tasks" line when there is nothing to show.
pub open spec fn table_text(ss: Seq<SummaryView>) -> Seq<char> {
    if ss.len() == 0 {
        "No tasks found."@ + nl()
    } else {
        row_text(|k: int| header_cell(k), ss) + rows_text(ss, ss.len() as int)
    }
}

pub open spec fn summaries_view(s: Seq<TaskSummary>) -> Seq<SummaryView> {
    s.map_values(|x: TaskSummary| x@)
}

// ── Short messages ──────────────────────────────────────────────────────────

pub open spec fn confirmation_text(id: TaskIdView) -> Seq<char> {
    "Done: "@ + id_text(id)
}

pub open spec fn warning_text(key: SourceKey, message: Seq<char>) -> Seq<char> {
    "Warning: source '"@ + key_text(key) + "' unavailable: "@ + message
}

pub open spec fn error_text(message: Seq<char>) -> Seq<char> {
    "Error: "@ + message
}

} // verus!

verus! {

/// Appends `s` padded with spaces to `w` characters.
fn push_padded(out: &mut String, s: &String, w: usize)
    ensures
        final(out)@ == old(out)@ + pad(s@, w as nat),
{
    let n = chars_of(s.as_str()).len();
    push_str(out, s.as_str());
    if n < w {
        push_spaces(out, w - n);
    }
    proof {
        if n >= w {
            assert(final(out)@ == old(out)@ + pad(s@, w as nat));
        }
    }
}

/// Appends one table line.
fn push_row(
    out: &mut String,
    c0: &String,
    c1: &String,
    c2: &String,
    c3: &String,
    c4: &String,
    w: &Vec<usize>,
)
    requires
        w@.len() == 4,
    ensures
        final(out)@ == old(out)@ + pad(c0@, w@[0] as nat) + "  "@ + pad(c1@, w@[1] as nat) + "  "@
            + pad(c2@, w@[2] as nat) + "  "@ + pad(c3@, w@[3] as nat) + "  "@ + c4@ + nl(),
{
    push_padded(out, c0, w[0]);
    push_str(out, "  ");
    push_padded(out, c1, w[1]);
    push_str(out, "  ");
    push_padded(out, c2, w[2]);
    push_str(out, "  ");
    push_padded(out, c3, w[3]);
    push_str(out, "  ");
    push_str(out, c4.as_str());
    push_char(out, '\n');
    proof {
        assert(final(out)@ =~= old(out)@ + pad(c0@, w@[0] as nat) + "  "@ + pad(c1@, w@[1] as nat)
            + "  "@ + pad(c2@, w@[2] as nat) + "  "@ + pad(c3@, w@[3] as nat) + "  "@ + c4@ + nl());
    }
}

/// Appends the table line of one summary.
fn push_summary_row(out: &mut String, s: &TaskSummary, w: &Vec<usize>, Ghost(ss): Ghost<Seq<SummaryView>>)
    requires
        w@.len() == 4,
        forall|j: int| 0 <= j < 4 ==> w@[j] == width(ss, j),
    ensures
        final(out)@ == old(out)@ + row_text(|k: int| cell(s@, k), ss),
{
    push_row(
        out,
        &cell_string(s, 0),
        &cell_string(s, 1),
        &cell_string(s, 2),
        &cell_string(s, 3),
        &cell_string(s, 4),
        w,
    );
    proof {
        assert(w@[0] == width(ss, 0));
        assert(w@[1] == width(ss, 1));
        assert(w@[2] == width(ss, 2));
        assert(w@[3] == width(ss, 3));
    }
}

/// The text of column `k` of a summary's row.
fn cell_string(s: &TaskSummary, k: usize) -> (r: String)
    requires
        k < 5,
    ensures
        r@ == cell(s@, k as int),
{
    if k == 0 {
        s.id.to_string()
    } else if k == 1 {
        String::from_str(s.state.as_str())
    } else if k == 2 {
        let mut r = String::from_str("P");
        push_decimal(&mut r, s.priority.0);
        r
    } else if k == 3 {
        match &s.role {
            Some(role) => role.0.clone(),
            None => String::from_str("-"),
        }
    } else {
        s.title.clone()
    }
}

fn header_string(k: usize) -> (r: String)
    ensures
        r@ == header_cell(k as int),
{
    if k == 0 {
        String::from_str("ID")
    } else if k == 1 {
        String::from_str("STATE")
    } else if k == 2 {
        String::from_str("PRIORITY")
    } else if k == 3 {
        String::from_str("ROLE")
    } else {
        String::from_str("TITLE")
    }
}

/// The width of column `k` over all summaries.
fn column_width(summaries: &[TaskSummary], k: usize) -> (w: usize)
    requires
        k < 5,
        summaries@.len() < usize::MAX,
    ensures
        w == width(summaries_view(summaries@), k as int),
{
    let ghost ss = summaries_view(summaries@);
    let mut w = chars_of(header_string(k).as_str()).len();
    let mut i: usize = 0;
    while i < summaries.len()
        invariant
            k < 5,
            i <= summaries@.len(),
            ss == summaries_view(summaries@),
            w == width(ss.take(i as int), k as int),
        decreases summaries@.len() - i,
    {
        let c = chars_of(cell_string(&summaries[i], k).as_str()).len();
        proof {
            assert(ss.take(i + 1).drop_last() =~= ss.take(i as int));
            assert(ss.take(i + 1).last() == summaries@[i as int]@);
        }
        if c > w {
            w = c;
        }
        i = i + 1;
    }
    proof {
        assert(ss.take(summaries@.len() as int) =~= ss);
    }
    w
}

/// The rendering of the first `i + 1` dependencies extends that of the first `i`.
proof fn lemma_deps_text_step(key: SourceKey, deps: Seq<Seq<char>>, i: int)
    requires
        0 <= i < deps.len(),
    ensures
        deps_text(key, deps.take(i + 1)) == if i == 0 {
            id_text(TaskIdView { source_key: key, native_id: deps[0] })
        } else {
            deps_text(key, deps.take(i)) + ", "@ + id_text(
                TaskIdView { source_key: key, native_id: deps[i] },
            )
        },
{
    assert(deps.take(i + 1).drop_last() =~= deps.take(i));
}

/// Renders domain values as text. No state, no I/O.
pub struct OutputFormatter;

impl OutputFormatter {
    /// Formats a full task as a plain-text block (no ANSI codes); the Role,
    /// Depends and Context parts are omitted when absent.
    pub fn format_task(task: &Task) -> (b: TaskBlock)
        ensures
            b@ == task_block_text(task@),
    {
        let ghost t = task@;
        let mut out = String::from_str("Task: ");
        let id = task.id.to_string();
        push_str(&mut out, id.as_str());
        push_str(&mut out, "\nTitle: ");
        push_str(&mut out, task.title.as_str());
        push_str(&mut out, "\nState: ");
        push_str(&mut out, task.state.as_str());
        push_str(&mut out, "\nPriority: P");
        push_decimal(&mut out, task.priority.0);
        push_char(&mut out, '\n');
        let ghost head = out@;
        proof {
            reveal_strlit("\nTitle: ");
            reveal_strlit("\nState: ");
            reveal_strlit("\nPriority: P");
            reveal_strlit("Title: ");
            reveal_strlit("State: ");
            reveal_strlit("Priority: P");
            assert(head =~= "Task: "@ + id_text(t.id) + nl() + "Title: "@ + t.title + nl()
                + "State: "@ + state_text(t.state) + nl() + "Priority: P"@ + decimal(
                t.priority as nat,
            ) + nl());
        }
        match &task.role {
            Some(r) => {
                push_str(&mut out, "Role: ");
                push_str(&mut out, r.0.as_str());
                push_char(&mut out, '\n');
            },
            None => {},
        }
        let ghost with_role = out@;
        let n = task.dependencies.len();
        if n > 0 {
            push_str(&mut out, "Depends: ");
            let ghost start = out@;
            let mut i: usize = 0;
            while i < n
                invariant
                    n == task.dependencies@.len(),
                    t == task@,
                    i <= n,
                    out@ == start + deps_text(t.id.source_key, t.dependencies.take(i as int)),
                decreases n - i,
            {
                proof {
                    lemma_deps_text_step(t.id.source_key, t.dependencies, i as int);
                }
                if i > 0 {
                    push_str(&mut out, ", ");
                }
                push_str(&mut out, task.id.source_key.as_str());
                push_char(&mut out, ':');
                push_str(&mut out, task.dependencies[i].0.0.as_str());
                proof {
                    assert(t.dependencies[i as int] == task.dependencies@[i as int]@);
                    if i == 0 {
                        assert(deps_text(t.id.source_key, t.dependencies.take(0)) =~= Seq::empty());
                    }
                    assert(out@ =~= start + deps_text(t.id.source_key, t.dependencies.take(i + 1)));
                }
                i = i + 1;
            }
            push_char(&mut out, '\n');
            proof {
                assert(t.dependencies.take(n as int) =~= t.dependencies);
            }
        }
        let ghost with_deps = out@;
        push_str(&mut out, "\nDescription\n-----------\n");
        push_str(&mut out, task.description.as_str());
        push_str(&mut out, "\n\nAcceptance Criteria\n-------------------\n");
        push_str(&mut out, task.acceptance_criteria.as_str());
        push_char(&mut out, '\n');
        let ghost body = out@;
        match &task.context_notes {
            Some(c) => {
                push_str(&mut out, "\nContext\n-------\n");
                push_str(&mut out, c.as_str());
                push_char(&mut out, '\n');
            },
            None => {},
        }
        proof {
            reveal_strlit("\nDescription\n-----------\n");
            reveal_strlit("\n\nAcceptance Criteria\n-------------------\n");
            reveal_strlit("\nContext\n-------\n");
            reveal_strlit("Description");
            reveal_strlit("-----------");
            reveal_strlit("Acceptance Criteria");
            reveal_strlit("-------------------");
            reveal_strlit("Context");
            reveal_strlit("-------");
            assert(with_role =~= head + match t.role {
                Some(r) => "Role: "@ + r + nl(),
                None => Seq::empty(),
            });
            assert(with_deps =~= with_role + if t.dependencies.len() > 0 {
                "Depends: "@ + deps_text(t.id.source_key, t.dependencies) + nl()
            } else {
                Seq::empty()
            });
            assert(body =~= with_deps + nl() + "Description"@ + nl() + "-----------"@ + nl()
                + t.description + nl() + nl() + "Acceptance Criteria"@ + nl()
                + "-------------------"@ + nl() + t.acceptance_criteria + nl());
            assert(out@ =~= body + match t.context_notes {
                Some(c) => nl() + "Context"@ + nl() + "-------"@ + nl() + c + nl(),
                None => Seq::empty(),
            });
            assert(out@ =~= task_block_text(t));
        }
        TaskBlock(out)
    }

    /// Formats summaries as an aligned table with the columns ID, State, Priority,
    /// Role and Title, one line per summary in the given order; "No tasks found."
    /// for an empty slice. No ANSI codes.
    pub fn format_summary_list(summaries: &[TaskSummary]) -> (s: String)
        requires
            summaries@.len() < usize::MAX,
        ensures
            s@ == table_text(summaries_view(summaries@)),
    {
        let ghost ss = summaries_view(summaries@);
        if summaries.len() == 0 {
            proof {
                reveal_strlit("No tasks found.\n");
                reveal_strlit("No tasks found.");
                assert("No tasks found.\n"@ =~= "No tasks found."@ + nl());
            }
            return String::from_str("No tasks found.\n");
        }
        let mut w: Vec<usize> = Vec::new();
        let mut k: usize = 0;
        while k < 4
            invariant
                k <= 4,
                w@.len() == k,
                summaries@.len() < usize::MAX,
                ss == summaries_view(summaries@),
                forall|j: int| 0 <= j < k ==> w@[j] == width(ss, j),
            decreases 4 - k,
        {
            w.push(column_width(summaries, k));
            k = k + 1;
        }
        let mut out = String::new();
        push_row(
            &mut out,
            &header_string(0),
            &header_string(1),
            &header_string(2),
            &header_string(3),
            &header_string(4),
            &w,
        );
        proof {
            assert(out@ =~= row_text(|k: int| header_cell(k), ss));
        }
        let ghost head = out@;
        let mut i: usize = 0;
        while i < summaries.len()
            invariant
                i <= summaries@.len(),
                w@.len() == 4,
                ss == summaries_view(summaries@),
                forall|j: int| 0 <= j < 4 ==> w@[j] == width(ss, j),
                out@ == head + rows_text(ss, i as int),
            decreases summaries@.len() - i,
        {
            let ghost before = out@;
            push_summary_row(&mut out, &summaries[i], &w, Ghost(ss));
            proof {
                assert(ss[i as int] == summaries@[i as int]@);
                assert(rows_text(ss, i + 1) == rows_text(ss, i as int) + row_text(
                    |k: int| cell(ss[i as int], k),
                    ss,
                ));
                assert(out@ =~= head + rows_text(ss, i + 1));
            }
            i = i + 1;
        }
        out
    }

    /// The confirmation printed after a completion, e.g. `Done: local:TASK-042`.
    pub fn format_completion_confirmation(task_id: &TaskId) -> (s: String)
        ensures
            s@ == confirmation_text(task_id@),
    {
        let mut out = String::from_str("Done: ");
        push_str(&mut out, task_id.to_string().as_str());
        out
    }

    /// The warning for a skipped source, e.g.
    /// `Warning: source 'beads' unavailable: bd not found in PATH`.
    pub fn format_source_warning(source_key: &SourceKey, message: &str) -> (s: String)
        ensures
            s@ == warning_text(*source_key, message@),
    {
        let mut out = String::from_str("Warning: source '");
        push_str(&mut out, source_key.as_str());
        push_str(&mut out, "' unavailable: ");
        push_str(&mut out, message);
        out
    }

    /// An error line for stderr: `Error: <message>`.
    pub fn format_error(message: &str) -> (s: String)
        ensures
            s@ == error_text(message@),
    {
        let mut out = String::from_str("Error: ");
        push_str(&mut out, message);
        out
    }
}

} // verus!

verus! {

// ── CompletionError ─────────────────────────────────────────────────────────

/// Why a `done` request failed, with the identifier of the task concerned.
#[derive(Debug)]
pub enum CompletionError {
    /// The task was not found in its source.
    TaskNotFound { task_id: TaskId },
    /// The task's source was unavailable.
    SourceUnavailable { task_id: TaskId, message: String },
    /// An I/O failure (or an unreadable source reply) kept the completion from being stored.
    Io { task_id: TaskId, message: String },
    /// The task was closed but the comment could not be attached.
    PartialCompletion { task_id: TaskId, message: String },
}

impl CompletionError {
    /// Maps a source failure while completing `task_id`: `Unavailable` becomes
    /// `SourceUnavailable`, `NotFound` becomes `TaskNotFound`, `Io` and `Parse`
    /// become `Io`, `PartialCompletion` stays `PartialCompletion`; messages are kept.
    pub fn from_source_error(task_id: TaskId, err: SourceError) -> (e: CompletionError)
        ensures
            match err {
                SourceError::Unavailable { message } => e matches CompletionError::SourceUnavailable {
                    task_id: t,
                    message: m,
                } && t@ == task_id@ && m@ == message@,
                SourceError::NotFound { .. } => e matches CompletionError::TaskNotFound { task_id: t }
                    && t@ == task_id@,
                SourceError::Io { message } => e matches CompletionError::Io {
                    task_id: t,
                    message: m,
                } && t@ == task_id@ && m@ == message@,
                SourceError::Parse { message } => e matches CompletionError::Io {
                    task_id: t,
                    message: m,
                } && t@ == task_id@ && m@ == message@,
                SourceError::PartialCompletion { message } => e matches CompletionError::PartialCompletion {
                    task_id: t,
                    message: m,
                } && t@ == task_id@ && m@ == message@,
            },
    {
        match err {
            SourceError::Unavailable { message } => CompletionError::SourceUnavailable { task_id, message },
            SourceError::NotFound { .. } => CompletionError::TaskNotFound { task_id },
            SourceError::Io { message } => CompletionError::Io { task_id, message },
            SourceError::Parse { message } => CompletionError::Io { task_id, message },
            SourceError::PartialCompletion { message } => CompletionError::PartialCompletion {
                task_id,
                message,
            },
        }
    }
}

} // verus!

verus! {

// ── No control sequences ────────────────────────────────────────────────────

/// Text free of the escape character `\u{1b}`, which starts every ANSI control
/// sequence.
pub open spec fn plain(s: Seq<char>) -> bool {
    !s.contains('\u{1b}')
}

proof fn lemma_decimal_plain(n: nat)
    ensures
        plain(decimal(n)),
    decreases n,
{
    broadcast use vstd::seq_lib::lemma_seq_contains_after_push;

    let d = crate::text::digit_char(n % 10);
    assert(((n % 10 + 48) as u8) as char == d);
    assert(d != '\u{1b}') by {
        assert(((n % 10 + 48) as u8) == (n % 10 + 48));
    }
    if n >= 10 {
        lemma_decimal_plain(n / 10);
    } else {
        assert(seq![d] == Seq::<char>::empty().push(d));
    }
}

proof fn lemma_id_text_plain(id: TaskIdView)
    requires
        plain(id.native_id),
    ensures
        plain(id_text(id)),
{
    broadcast use vstd::seq_lib::lemma_seq_concat_contains_all_elements;

    reveal_strlit("local");
    reveal_strlit("beads");
    reveal_strlit("gh");
    assert(plain(key_text(id.source_key)));
    assert(plain(seq![':']));
}

proof fn lemma_deps_text_plain(key: SourceKey, deps: Seq<Seq<char>>)
    requires
        forall|i: int| 0 <= i < deps.len() ==> plain(#[trigger] deps[i]),
    ensures
        plain(deps_text(key, deps)),
    decreases deps.len(),
{
    broadcast use vstd::seq_lib::lemma_seq_concat_contains_all_elements;

    reveal_strlit(", ");
    if deps.len() == 1 {
        lemma_id_text_plain(TaskIdView { source_key: key, native_id: deps[0] });
    } else if deps.len() > 1 {
        lemma_deps_text_plain(key, deps.drop_last());
        assert(plain(deps[deps.len() - 1]));
        lemma_id_text_plain(TaskIdView { source_key: key, native_id: deps.last() });
        assert(plain(", "@));
    } else {
        assert(deps_text(key, deps) =~= Seq::<char>::empty());
    }
}

proof fn lemma_state_text_plain(s: crate::TaskState)
    ensures
        plain(state_text(s)),
{
    reveal_strlit("unstarted");
    reveal_strlit("in_progress");
    reveal_strlit("blocked");
    reveal_strlit("done");
}

/// A task block adds no escape characters: it is plain whenever the task's
/// own texts are.
pub proof fn lemma_task_block_plain(t: TaskView)
    requires
        plain(t.id.native_id),
        plain(t.title),
        plain(t.description),
        plain(t.acceptance_criteria),
        t.role matches Some(r) ==> plain(r),
        forall|i: int| 0 <= i < t.dependencies.len() ==> plain(#[trigger] t.dependencies[i]),
        t.context_notes matches Some(c) ==> plain(c),
    ensures
        plain(task_block_text(t)),
{
    broadcast use vstd::seq_lib::lemma_seq_concat_contains_all_elements;

    reveal_strlit("Task: ");
    reveal_strlit("Title: ");
    reveal_strlit("State: ");
    reveal_strlit("Priority: P");
    reveal_strlit("Role: ");
    reveal_strlit("Depends: ");
    reveal_strlit("Description");
    reveal_strlit("-----------");
    reveal_strlit("Acceptance Criteria");
    reveal_strlit("-------------------");
    reveal_strlit("Context");
    reveal_strlit("-------");
    assert(plain(nl()));
    assert(plain("Task: "@));
    assert(plain("Title: "@));
    assert(plain("State: "@));
    assert(plain("Priority: P"@));
    assert(plain("Role: "@));
    assert(plain("Depends: "@));
    assert(plain("Description"@));
    assert(plain("-----------"@));
    assert(plain("Acceptance Criteria"@));
    assert(plain("-------------------"@));
    assert(plain("Context"@));
    assert(plain("-------"@));
    lemma_id_text_plain(t.id);
    lemma_state_text_plain(t.state);
    lemma_decimal_plain(t.priority as nat);
    if t.dependencies.len() > 0 {
        lemma_deps_text_plain(t.id.source_key, t.dependencies);
    }
    assert(plain(Seq::<char>::empty()));
}

/// The texts of a summary that a table shows as they are.
pub open spec fn summary_plain(s: SummaryView) -> bool {
    &&& plain(s.id.native_id)
    &&& plain(s.title)
    &&& s.role matches Some(r) ==> plain(r)
}

proof fn lemma_pad_plain(s: Seq<char>, w: nat)
    requires
        plain(s),
    ensures
        plain(pad(s, w)),
{
    broadcast use vstd::seq_lib::lemma_seq_concat_contains_all_elements;

    if s.len() < w {
        let sp = spaces((w - s.len()) as nat);
        assert(!sp.contains('\u{1b}')) by {
            if sp.contains('\u{1b}') {
                let i = choose|i: int| 0 <= i < sp.len() && sp[i] == '\u{1b}';
                assert(sp[i] == ' ');
            }
        }
    }
}

proof fn lemma_row_plain(c: spec_fn(int) -> Seq<char>, ss: Seq<SummaryView>)
    requires
        forall|k: int| 0 <= k < 5 ==> plain(#[trigger] c(k)),
    ensures
        plain(row_text(c, ss)),
{
    broadcast use vstd::seq_lib::lemma_seq_concat_contains_all_elements;

    reveal_strlit("  ");
    assert(plain("  "@));
    assert(plain(nl()));
    assert(plain(c(0)) && plain(c(1)) && plain(c(2)) && plain(c(3)) && plain(c(4)));
    lemma_pad_plain(c(0), width(ss, 0));
    lemma_pad_plain(c(1), width(ss, 1));
    lemma_pad_plain(c(2), width(ss, 2));
    lemma_pad_plain(c(3), width(ss, 3));
}

proof fn lemma_cells_plain(s: SummaryView)
    requires
        summary_plain(s),
    ensures
        forall|k: int| 0 <= k < 5 ==> plain(#[trigger] cell(s, k)),
{
    broadcast use vstd::seq_lib::lemma_seq_concat_contains_all_elements;

    reveal_strlit("P");
    reveal_strlit("-");
    assert(plain("P"@));
    assert(plain("-"@));
    lemma_id_text_plain(s.id);
    lemma_state_text_plain(s.state);
    lemma_decimal_plain(s.priority as nat);
}

proof fn lemma_rows_plain(ss: Seq<SummaryView>, n: int)
    requires
        n <= ss.len(),
        forall|i: int| 0 <= i < ss.len() ==> summary_plain(#[trigger] ss[i]),
    ensures
        plain(rows_text(ss, n)),
    decreases n,
{
    broadcast use vstd::seq_lib::lemma_seq_concat_contains_all_elements;

    if n > 0 {
        lemma_rows_plain(ss, n - 1);
        assert(summary_plain(ss[n - 1]));
        lemma_cells_plain(ss[n - 1]);
        let c = |k: int| cell(ss[n - 1], k);
        assert forall|k: int| 0 <= k < 5 implies plain(#[trigger] c(k)) by {
            assert(plain(cell(ss[n - 1], k)));
        }
        lemma_row_plain(c, ss);
    } else {
        assert(rows_text(ss, n) =~= Seq::<char>::empty());
    }
}

/// A summary table adds no escape characters: it is plain whenever the
/// identifiers, titles and roles it shows are.
pub proof fn lemma_table_plain(ss: Seq<SummaryView>)
    requires
        forall|i: int| 0 <= i < ss.len() ==> summary_plain(#[trigger] ss[i]),
    ensures
        plain(table_text(ss)),
{
    broadcast use vstd::seq_lib::lemma_seq_concat_contains_all_elements;

    reveal_strlit("No tasks found.");
    reveal_strlit("ID");
    reveal_strlit("STATE");
    reveal_strlit("PRIORITY");
    reveal_strlit("ROLE");
    reveal_strlit("TITLE");
    assert(plain(nl()));
    if ss.len() == 0 {
        assert(plain("No tasks found."@));
    } else {
        let h = |k: int| header_cell(k);
        assert forall|k: int| 0 <= k < 5 implies plain(#[trigger] h(k)) by {
            assert(plain("ID"@));
            assert(plain("STATE"@));
            assert(plain("PRIORITY"@));
            assert(plain("ROLE"@));
            assert(plain("TITLE"@));
        }
        lemma_row_plain(h, ss);
        lemma_rows_plain(ss, ss.len() as int);
    }
}

} // verus!
