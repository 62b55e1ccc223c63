//! Task broker core: identity parsing, deterministic selection, output formatting,
//! configuration validation and the source adapters' text and command logic.
use vstd::prelude::*;

pub mod commands;
pub mod config;
pub mod identity;
pub mod output;
pub mod selection;
pub mod sources;
pub mod text;

pub use identity::{NativeId, SourceKey, TaskId};

use identity::TaskIdView;
use text::{lower_seq, to_lower};

verus! {

// ── TaskState ───────────────────────────────────────────────────────────────

/// The lifecycle state of a task.
#[derive(Debug, Clone, Copy, PartialEq, Eq, Structural, PartialOrd, Ord, Hash)]
pub enum TaskState {
    /// Not yet begun; eligible for selection.
    Unstarted,
    /// Being worked; eligible for selection.
    InProgress,
    /// Has unresolved dependencies; not eligible for selection.
    Blocked,
    /// Completed; not eligible for selection unless every state is asked for.
    Done,
}

/// The serialised text of a state.
pub open spec fn state_text(s: TaskState) -> Seq<char> {
    match s {
        TaskState::Unstarted => "unstarted"@,
        TaskState::InProgress => "in_progress"@,
        TaskState::Blocked => "blocked"@,
        TaskState::Done => "done"@,
    }
}

/// States that `next` may hand out.
pub open spec fn is_actionable(s: TaskState) -> bool {
    s == TaskState::Unstarted || s == TaskState::InProgress
}

impl TaskState {
    /// The serialised text: `unstarted`, `in_progress`, `blocked` or `done`.
    pub fn as_str(&self) -> (s: &'static str)
        ensures
            s@ == state_text(*self),
    {
        match self {
            TaskState::Unstarted => "unstarted",
            TaskState::InProgress => "in_progress",
            TaskState::Blocked => "blocked",
            TaskState::Done => "done",
        }
    }
}

// ── Priority ────────────────────────────────────────────────────────────────

/// Urgency; a lower number is more urgent. The default is 2.
#[derive(Debug, Clone, Copy, PartialEq, Eq, Structural, PartialOrd, Ord, Hash)]
pub struct Priority(pub u32);

/// The priority a task has when its source gives none.
pub const DEFAULT_PRIORITY: u32 = 2;

impl Default for Priority {
    fn default() -> (p: Self)
        ensures
            p.0 == DEFAULT_PRIORITY,
    {
        Priority(DEFAULT_PRIORITY)
    }
}

// ── Role ────────────────────────────────────────────────────────────────────

/// An agent role label; two roles are equal when they agree up to ASCII case.
#[derive(Debug)]
pub struct Role(pub String);

impl View for Role {
    type V = Seq<char>;

    open spec fn view(&self) -> Seq<char> {
        self.0@
    }
}

/// Equality of role labels: equal after ASCII lower-casing (`eq_ignore_ascii_case`).
pub open spec fn same_role(a: Seq<char>, b: Seq<char>) -> bool {
    lower_seq(a) == lower_seq(b)
}

impl Role {
    /// Whether the two labels are equal ignoring ASCII case.
    pub fn matches(&self, other: &Role) -> (r: bool)
        ensures
            r == same_role(self@, other@),
    {
        let a = text::chars_of(self.0.as_str());
        let b = text::chars_of(other.0.as_str());
        if a.len() != b.len() {
            proof {
                assert(lower_seq(a@).len() != lower_seq(b@).len());
            }
            return false;
        }
        let mut i: usize = 0;
        while i < a.len()
            invariant
                a@ == self@,
                b@ == other@,
                a@.len() == b@.len(),
                i <= a@.len(),
                forall|j: int| 0 <= j < i ==> text::lower(a@[j]) == text::lower(b@[j]),
            decreases a@.len() - i,
        {
            if to_lower(a[i]) != to_lower(b[i]) {
                proof {
                    assert(lower_seq(a@)[i as int] == text::lower(a@[i as int]));
                    assert(lower_seq(b@)[i as int] == text::lower(b@[i as int]));
                    assert(lower_seq(a@)[i as int] != lower_seq(b@)[i as int]);
                    assert(lower_seq(a@) != lower_seq(b@));
                }
                return false;
            }
            i = i + 1;
        }
        proof {
            assert(lower_seq(a@) =~= lower_seq(b@));
        }
        true
    }
}

impl Role {
    /// The label with ASCII letters lower-cased: the form in which roles compare.
    pub fn folded(&self) -> (s: String)
        ensures
            s@ == lower_seq(self@),
    {
        let v = text::chars_of(self.0.as_str());
        let mut out = String::new();
        let mut i: usize = 0;
        while i < v.len()
            invariant
                v@ == self@,
                i <= v@.len(),
                out@ == lower_seq(v@.take(i as int)),
            decreases v@.len() - i,
        {
            text::push_char(&mut out, to_lower(v[i]));
            proof {
                assert(lower_seq(v@.take(i + 1)) =~= lower_seq(v@.take(i as int)).push(
                    text::lower(v@[i as int]),
                ));
            }
            i = i + 1;
        }
        proof {
            assert(v@.take(v@.len() as int) =~= v@);
        }
        out
    }
}

/// Feeds a string to a hasher: wraps std's `Hash::hash` for `String`. Nothing
/// is stated of the hasher's state, which only the hasher defines.
#[verifier::external_body]
fn hash_text<H: core::hash::Hasher>(s: &String, state: &mut H) {
    core::hash::Hash::hash(s, state)
}

/// Roles hash by their folded label, so that equal roles hash alike.
impl core::hash::Hash for Role {
    fn hash<H: core::hash::Hasher>(&self, state: &mut H) {
        hash_text(&self.folded(), state)
    }
}

impl Clone for Role {
    fn clone(&self) -> (r: Self)
        ensures
            r@ == self@,
    {
        Role(self.0.clone())
    }
}

impl PartialEq for Role {
    fn eq(&self, other: &Self) -> (r: bool) {
        self.matches(other)
    }
}

impl vstd::std_specs::cmp::PartialEqSpecImpl for Role {
    open spec fn obeys_eq_spec() -> bool {
        true
    }

    open spec fn eq_spec(&self, other: &Role) -> bool {
        same_role(self@, other@)
    }
}

impl Eq for Role {}

/// The labels of an optional role.
pub open spec fn role_view(r: Option<Role>) -> Option<Seq<char>> {
    match r {
        Some(x) => Some(x@),
        None => None,
    }
}

pub fn clone_role(r: &Option<Role>) -> (c: Option<Role>)
    ensures
        role_view(c) == role_view(*r),
{
    match r {
        Some(x) => Some(x.clone()),
        None => None,
    }
}

// ── Dependency ──────────────────────────────────────────────────────────────

/// A reference, by native identifier, to another task of the same source.
#[derive(Debug)]
pub struct Dependency(pub NativeId);

impl View for Dependency {
    type V = Seq<char>;

    open spec fn view(&self) -> Seq<char> {
        self.0@
    }
}

impl Clone for Dependency {
    fn clone(&self) -> (r: Self)
        ensures
            r@ == self@,
    {
        Dependency(self.0.clone())
    }
}

impl PartialEq for Dependency {
    fn eq(&self, other: &Self) -> (r: bool) {
        self.0 == other.0
    }
}

impl vstd::std_specs::cmp::PartialEqSpecImpl for Dependency {
    open spec fn obeys_eq_spec() -> bool {
        true
    }

    open spec fn eq_spec(&self, other: &Dependency) -> bool {
        self@ == other@
    }
}

impl Eq for Dependency {}

pub open spec fn deps_view(d: Seq<Dependency>) -> Seq<Seq<char>> {
    d.map_values(|x: Dependency| x@)
}

// ── Task ────────────────────────────────────────────────────────────────────

/// The full content of one task.
#[derive(Debug)]
pub struct Task {
    pub id: TaskId,
    pub title: String,
    pub description: String,
    pub acceptance_criteria: String,
    pub state: TaskState,
    pub priority: Priority,
    pub role: Option<Role>,
    pub dependencies: Vec<Dependency>,
    pub context_notes: Option<String>,
}

/// The abstract value of a `Task`.
pub struct TaskView {
    pub id: TaskIdView,
    pub title: Seq<char>,
    pub description: Seq<char>,
    pub acceptance_criteria: Seq<char>,
    pub state: TaskState,
    pub priority: u32,
    pub role: Option<Seq<char>>,
    pub dependencies: Seq<Seq<char>>,
    pub context_notes: Option<Seq<char>>,
}

pub open spec fn opt_text(s: Option<String>) -> Option<Seq<char>> {
    match s {
        Some(x) => Some(x@),
        None => None,
    }
}

impl View for Task {
    type V = TaskView;

    open spec fn view(&self) -> TaskView {
        TaskView {
            id: self.id@,
            title: self.title@,
            description: self.description@,
            acceptance_criteria: self.acceptance_criteria@,
            state: self.state,
            priority: self.priority.0,
            role: role_view(self.role),
            dependencies: deps_view(self.dependencies@),
            context_notes: opt_text(self.context_notes),
        }
    }
}

/// The summary that a task projects to.
pub open spec fn summary_of(t: TaskView) -> SummaryView {
    SummaryView {
        id: t.id,
        source_key: t.id.source_key,
        priority: t.priority,
        role: t.role,
        title: t.title,
        state: t.state,
    }
}

pub fn clone_deps(d: &Vec<Dependency>) -> (r: Vec<Dependency>)
    ensures
        deps_view(r@) == deps_view(d@),
{
    let mut r: Vec<Dependency> = Vec::new();
    let mut i: usize = 0;
    while i < d.len()
        invariant
            i <= d@.len(),
            r@.len() == i,
            forall|j: int| 0 <= j < i ==> r@[j]@ == d@[j]@,
        decreases d@.len() - i,
    {
        r.push(d[i].clone());
        i = i + 1;
    }
    proof {
        assert(deps_view(r@) =~= deps_view(d@));
    }
    r
}

pub fn clone_opt_string(s: &Option<String>) -> (r: Option<String>)
    ensures
        opt_text(r) == opt_text(*s),
{
    match s {
        Some(x) => Some(x.clone()),
        None => None,
    }
}

impl Clone for Task {
    fn clone(&self) -> (r: Self)
        ensures
            r@ == self@,
    {
        Task {
            id: self.id.clone(),
            title: self.title.clone(),
            description: self.description.clone(),
            acceptance_criteria: self.acceptance_criteria.clone(),
            state: self.state,
            priority: self.priority,
            role: clone_role(&self.role),
            dependencies: clone_deps(&self.dependencies),
            context_notes: clone_opt_string(&self.context_notes),
        }
    }
}

impl Task {
    /// The abbreviated form of the task: identifier, source, priority, role, title, state.
    pub fn summary(&self) -> (s: TaskSummary)
        ensures
            s@ == summary_of(self@),
    {
        TaskSummary {
            id: self.id.clone(),
            source_key: self.id.source_key,
            priority: self.priority,
            role: clone_role(&self.role),
            title: self.title.clone(),
            state: self.state,
        }
    }
}

// ── TaskSummary ─────────────────────────────────────────────────────────────

/// Abbreviated task information used by `list` and by selection.
#[derive(Debug)]
pub struct TaskSummary {
    pub id: TaskId,
    pub source_key: SourceKey,
    pub priority: Priority,
    pub role: Option<Role>,
    pub title: String,
    pub state: TaskState,
}

/// The abstract value of a `TaskSummary`.
pub struct SummaryView {
    pub id: TaskIdView,
    pub source_key: SourceKey,
    pub priority: u32,
    pub role: Option<Seq<char>>,
    pub title: Seq<char>,
    pub state: TaskState,
}

impl View for TaskSummary {
    type V = SummaryView;

    open spec fn view(&self) -> SummaryView {
        SummaryView {
            id: self.id@,
            source_key: self.source_key,
            priority: self.priority.0,
            role: role_view(self.role),
            title: self.title@,
            state: self.state,
        }
    }
}

impl Clone for TaskSummary {
    fn clone(&self) -> (r: Self)
        ensures
            r@ == self@,
    {
        TaskSummary {
            id: self.id.clone(),
            source_key: self.source_key,
            priority: self.priority,
            role: clone_role(&self.role),
            title: self.title.clone(),
            state: self.state,
        }
    }
}

// ── TaskBlock ───────────────────────────────────────────────────────────────

/// The plain-text rendering of a task, ready for stdout.
#[derive(Debug, Clone)]
pub struct TaskBlock(pub String);

impl PartialEq for TaskBlock {
    fn eq(&self, other: &Self) -> (r: bool) {
        self.0 == other.0
    }
}

impl vstd::std_specs::cmp::PartialEqSpecImpl for TaskBlock {
    open spec fn obeys_eq_spec() -> bool {
        true
    }

    open spec fn eq_spec(&self, other: &TaskBlock) -> bool {
        self@ == other@
    }
}

impl Eq for TaskBlock {}

impl View for TaskBlock {
    type V = Seq<char>;

    open spec fn view(&self) -> Seq<char> {
        self.0@
    }
}

} // verus!
