//! The BEADS source: the `bd` commands it runs and how their JSON records map
//! to tasks. Running `bd` and decoding its JSON output are the caller's.
use vstd::prelude::*;

use crate::config::{opt_seq, strings_view, BeadsSourceConfig};
use crate::identity::{NativeId, SourceKey, TaskId, TaskIdView};
use crate::selection::{eligible, FilterView, SelectionFilter};
use crate::sources::{strings_push, Invocation, InvocationView, SourceError};
use crate::text::{index_of, lower_seq};
use crate::{summary_of, SummaryView, Task, TaskState, TaskSummary, TaskView};

verus! {

/// One issue record of `bd ready --json` or `bd show <id> --json`.
#[derive(Debug)]
pub struct BeadsIssue {
    pub id: String,
    pub title: String,
    pub description: Option<String>,
    pub acceptance_criteria: Option<String>,
    pub priority: Option<i64>,
    pub role: Option<String>,
    pub status: Option<String>,
    pub dependencies: Vec<String>,
    pub notes: Option<String>,
}

/// The abstract value of an issue record.
pub struct BeadsIssueView {
    pub id: Seq<char>,
    pub title: Seq<char>,
    pub description: Option<Seq<char>>,
    pub acceptance_criteria: Option<Seq<char>>,
    pub priority: Option<i64>,
    pub role: Option<Seq<char>>,
    pub status: Option<Seq<char>>,
    pub dependencies: Seq<Seq<char>>,
    pub notes: Option<Seq<char>>,
}

impl View for BeadsIssue {
    type V = BeadsIssueView;

    open spec fn view(&self) -> BeadsIssueView {
        BeadsIssueView {
            id: self.id@,
            title: self.title@,
            description: opt_seq(self.description),
            acceptance_criteria: opt_seq(self.acceptance_criteria),
            priority: self.priority,
            role: opt_seq(self.role),
            status: opt_seq(self.status),
            dependencies: strings_view(self.dependencies@),
            notes: opt_seq(self.notes),
        }
    }
}

/// A usable native identifier: non-empty and without `:`.
pub open spec fn valid_native_id(id: Seq<char>) -> bool {
    id.len() > 0 && index_of(id, ':') < 0
}

/// The task state of a BEADS status (ASCII case ignored); absent means open.
pub open spec fn beads_state(s: Option<Seq<char>>) -> Option<TaskState> {
    match s {
        None => Some(TaskState::Unstarted),
        Some(v) => {
            let l = lower_seq(v);
            if l == "open"@ {
                Some(TaskState::Unstarted)
            } else if l == "in_progress"@ {
                Some(TaskState::InProgress)
            } else if l == "blocked"@ {
                Some(TaskState::Blocked)
            } else if l == "closed"@ {
                Some(TaskState::Done)
            } else {
                None
            }
        },
    }
}

/// The priority of a BEADS record: absent means 2; it must fit in `u32`.
pub open spec fn beads_priority(p: Option<i64>) -> Option<u32> {
    match p {
        None => Some(crate::DEFAULT_PRIORITY),
        Some(x) => if 0 <= x <= u32::MAX {
            Some(x as u32)
        } else {
            None
        },
    }
}

/// An optional text, with an empty text counted as absent.
pub open spec fn non_empty(o: Option<Seq<char>>) -> Option<Seq<char>> {
    match o {
        Some(v) => if v.len() > 0 {
            Some(v)
        } else {
            None
        },
        None => None,
    }
}

/// The task a BEADS record describes, or `None` when the record is unusable.
pub open spec fn beads_task(i: BeadsIssueView) -> Option<TaskView> {
    let st = beads_state(i.status);
    let pr = beads_priority(i.priority);
    if !valid_native_id(i.id) || st is None || pr is None {
        None
    } else {
        Some(
            TaskView {
                id: TaskIdView { source_key: SourceKey::Beads, native_id: i.id },
                title: i.title,
                description: match i.description {
                    Some(d) => d,
                    None => Seq::empty(),
                },
                acceptance_criteria: match i.acceptance_criteria {
                    Some(a) => a,
                    None => Seq::empty(),
                },
                state: st->0,
                priority: pr->0,
                role: non_empty(i.role),
                dependencies: i.dependencies,
                context_notes: non_empty(i.notes),
            },
        )
    }
}

/// Why a record is unusable: the first of its rules that it breaks.
pub open spec fn beads_problem(i: BeadsIssueView) -> Seq<char> {
    if !valid_native_id(i.id) {
        "a bd record has an unusable id"@
    } else if beads_state(i.status) is None {
        "a bd record has an unknown status"@
    } else {
        "a bd record has an out-of-range priority"@
    }
}

/// The position of the first unusable record among the first `n`, or `-1`.
pub open spec fn first_unusable(is: Seq<BeadsIssueView>, n: int) -> int
    decreases n,
{
    if n <= 0 {
        -1
    } else {
        let r = first_unusable(is, n - 1);
        if r >= 0 {
            r
        } else if beads_task(is[n - 1]) is None {
            n - 1
        } else {
            -1
        }
    }
}

/// The summaries of the first `n` records that pass the filter, or `None` when
/// one of them is unusable.
pub open spec fn beads_summaries(is: Seq<BeadsIssueView>, f: FilterView, n: int) -> Option<
    Seq<SummaryView>,
>
    decreases n,
{
    if n <= 0 {
        Some(Seq::empty())
    } else {
        match beads_summaries(is, f, n - 1) {
            None => None,
            Some(acc) => match beads_task(is[n - 1]) {
                None => None,
                Some(t) => if eligible(f, summary_of(t)) {
                    Some(acc.push(summary_of(t)))
                } else {
                    Some(acc)
                },
            },
        }
    }
}

pub open spec fn issues_view(v: Seq<BeadsIssue>) -> Seq<BeadsIssueView> {
    v.map_values(|i: BeadsIssue| i@)
}

/// `BEADS_DIR=<dir>` when a database directory is configured.
pub open spec fn beads_env(dir: Option<Seq<char>>) -> Seq<(Seq<char>, Seq<char>)> {
    match dir {
        Some(d) => seq![("BEADS_DIR"@, d)],
        None => Seq::empty(),
    }
}

/// The BEADS CLI source.
#[derive(Debug)]
pub struct BeadsSource {
    config: BeadsSourceConfig,
}

impl BeadsSource {
    /// The configured database directory.
    pub closed spec fn beads_dir(&self) -> Option<Seq<char>> {
        opt_seq(self.config.beads_dir)
    }

    /// Creates the source.
    pub fn new(config: BeadsSourceConfig) -> (s: Self)
        ensures
            s.beads_dir() == opt_seq(config.beads_dir),
    {
        BeadsSource { config }
    }

    fn env(&self) -> (r: Vec<(String, String)>)
        ensures
            r@.map_values(|p: (String, String)| (p.0@, p.1@)) == beads_env(self.beads_dir()),
    {
        let mut r: Vec<(String, String)> = Vec::new();
        match &self.config.beads_dir {
            Some(d) => {
                r.push((String::from_str("BEADS_DIR"), d.clone()));
                proof {
                    assert(r@.map_values(|p: (String, String)| (p.0@, p.1@)) =~= beads_env(
                        self.beads_dir(),
                    ));
                }
            },
            None => {
                proof {
                    assert(r@.map_values(|p: (String, String)| (p.0@, p.1@)) =~= beads_env(
                        self.beads_dir(),
                    ));
                }
            },
        }
        r
    }

    /// `bd ready --json`: the open tasks without open blockers.
    pub fn list_invocation(&self) -> (c: Invocation)
        ensures
            c@ == (InvocationView {
                program: "bd"@,
                args: seq!["ready"@, "--json"@],
                env_vars: beads_env(self.beads_dir()),
            }),
    {
        let mut args: Vec<String> = Vec::new();
        strings_push(&mut args, "ready");
        strings_push(&mut args, "--json");
        proof {
            assert(strings_view(args@) =~= seq!["ready"@, "--json"@]);
        }
        Invocation { program: String::from_str("bd"), args, env_vars: self.env() }
    }

    /// `bd show <native_id> --json`.
    pub fn get_invocation(&self, native_id: &NativeId) -> (c: Invocation)
        ensures
            c@ == (InvocationView {
                program: "bd"@,
                args: seq!["show"@, native_id@, "--json"@],
                env_vars: beads_env(self.beads_dir()),
            }),
    {
        let mut args: Vec<String> = Vec::new();
        strings_push(&mut args, "show");
        strings_push(&mut args, native_id.0.as_str());
        strings_push(&mut args, "--json");
        proof {
            assert(strings_view(args@) =~= seq!["show"@, native_id@, "--json"@]);
        }
        Invocation { program: String::from_str("bd"), args, env_vars: self.env() }
    }

    /// `bd close <native_id>`, with `--comment <text>` for a non-empty comment.
    pub fn complete_invocation(&self, native_id: &NativeId, comment: Option<&str>) -> (c:
        Invocation)
        ensures
            c@ == (InvocationView {
                program: "bd"@,
                args: match comment {
                    Some(t) => if t@.len() > 0 {
                        seq!["close"@, native_id@, "--comment"@, t@]
                    } else {
                        seq!["close"@, native_id@]
                    },
                    None => seq!["close"@, native_id@],
                },
                env_vars: beads_env(self.beads_dir()),
            }),
    {
        let mut args: Vec<String> = Vec::new();
        strings_push(&mut args, "close");
        strings_push(&mut args, native_id.0.as_str());
        match comment {
            Some(t) => {
                if t.unicode_len() > 0 {
                    strings_push(&mut args, "--comment");
                    strings_push(&mut args, t);
                }
            },
            None => {},
        }
        proof {
            match comment {
                Some(t) => if t@.len() > 0 {
                    assert(strings_view(args@) =~= seq!["close"@, native_id@, "--comment"@, t@]);
                } else {
                    assert(strings_view(args@) =~= seq!["close"@, native_id@]);
                },
                None => {
                    assert(strings_view(args@) =~= seq!["close"@, native_id@]);
                },
            }
        }
        Invocation { program: String::from_str("bd"), args, env_vars: self.env() }
    }

    /// The task a `bd show` record describes; `Parse` when the record has an
    /// empty identifier or one with `:`, an unknown status, or a priority
    /// outside `0..=u32::MAX`.
    pub fn task_from(issue: &BeadsIssue) -> (r: Result<Task, SourceError>)
        ensures
            match beads_task(issue@) {
                Some(t) => r matches Ok(x) && x@ == t,
                None => r matches Err(SourceError::Parse { message }) && message@ == beads_problem(
                    issue@,
                ),
            },
    {
        let idv = crate::text::chars_of(issue.id.as_str());
        let colon = crate::text::find_char(&idv, 0, idv.len(), ':');
        proof {
            assert(idv@.subrange(0, idv@.len() as int) =~= idv@);
        }
        if idv.len() == 0 || colon.is_some() {
            return Err(SourceError::Parse { message: String::from_str("a bd record has an unusable id") });
        }
        let state = match &issue.status {
            None => TaskState::Unstarted,
            Some(s) => match beads_state_of(s) {
                Some(st) => st,
                None => {
                    return Err(SourceError::Parse { message: String::from_str("a bd record has an unknown status") });
                },
            },
        };
        let priority = match issue.priority {
            None => crate::DEFAULT_PRIORITY,
            Some(p) => if 0 <= p && p <= 4294967295i64 {
                p as u32
            } else {
                return Err(SourceError::Parse { message: String::from_str("a bd record has an out-of-range priority") });
            },
        };
        let mut deps: Vec<crate::Dependency> = Vec::new();
        let mut i: usize = 0;
        while i < issue.dependencies.len()
            invariant
                i <= issue.dependencies@.len(),
                crate::deps_view(deps@) == strings_view(issue.dependencies@).take(i as int),
            decreases issue.dependencies@.len() - i,
        {
            let ghost before = deps@;
            deps.push(crate::Dependency(NativeId(issue.dependencies[i].clone())));
            proof {
                assert(crate::deps_view(deps@) =~= crate::deps_view(before).push(
                    issue.dependencies@[i as int]@,
                ));
                assert(strings_view(issue.dependencies@).take(i + 1) =~= strings_view(
                    issue.dependencies@,
                ).take(i as int).push(issue.dependencies@[i as int]@));
            }
            i = i + 1;
        }
        proof {
            assert(strings_view(issue.dependencies@).take(issue.dependencies@.len() as int)
                =~= strings_view(issue.dependencies@));
        }
        let t = Task {
            id: TaskId { source_key: SourceKey::Beads, native_id: NativeId(issue.id.clone()) },
            title: issue.title.clone(),
            description: match &issue.description {
                Some(d) => d.clone(),
                None => String::new(),
            },
            acceptance_criteria: match &issue.acceptance_criteria {
                Some(a) => a.clone(),
                None => String::new(),
            },
            state,
            priority: crate::Priority(priority),
            role: match &issue.role {
                Some(r) => if r.unicode_len() > 0 {
                    Some(crate::Role(r.clone()))
                } else {
                    None
                },
                None => None,
            },
            dependencies: deps,
            context_notes: match &issue.notes {
                Some(n) => if n.unicode_len() > 0 {
                    Some(n.clone())
                } else {
                    None
                },
                None => None,
            },
        };
        Ok(t)
    }

    /// The task that `bd show` printed: its first record, or `NotFound` when it
    /// printed none.
    pub fn task_from_shown(records: &Vec<BeadsIssue>, native_id: &NativeId) -> (r: Result<
        Task,
        SourceError,
    >)
        ensures
            records@.len() == 0 ==> (r matches Err(SourceError::NotFound { native_id: n }) && n@
                == native_id@),
            records@.len() > 0 ==> match beads_task(records@[0]@) {
                Some(t) => r matches Ok(x) && x@ == t,
                None => r matches Err(SourceError::Parse { message }) && message@ == beads_problem(
                    records@[0]@,
                ),
            },
    {
        if records.len() == 0 {
            Err(SourceError::NotFound { native_id: native_id.clone() })
        } else {
            Self::task_from(&records[0])
        }
    }

    /// The summaries of the `bd ready` records that pass `filter`, in order;
    /// `Parse` when a record is unusable.
    pub fn summaries_from(issues: &Vec<BeadsIssue>, filter: &SelectionFilter) -> (r: Result<
        Vec<TaskSummary>,
        SourceError,
    >)
        ensures
            match beads_summaries(issues_view(issues@), filter@, issues@.len() as int) {
                Some(ss) => r matches Ok(v) && crate::output::summaries_view(v@) == ss,
                None => r matches Err(SourceError::Parse { message }) && message@ == beads_problem(
                    issues_view(issues@)[first_unusable(issues_view(issues@), issues@.len() as int)],
                ),
            },
    {
        let ghost iv = issues_view(issues@);
        let mut out: Vec<TaskSummary> = Vec::new();
        let mut i: usize = 0;
        while i < issues.len()
            invariant
                i <= issues@.len(),
                iv == issues_view(issues@),
                beads_summaries(iv, filter@, i as int) == Some(crate::output::summaries_view(out@)),
                first_unusable(iv, i as int) == -1,
            decreases issues@.len() - i,
        {
            proof {
                assert(iv[i as int] == issues@[i as int]@);
            }
            match Self::task_from(&issues[i]) {
                Err(e) => {
                    proof {
                        lemma_beads_none_stays(iv, filter@, i + 1, iv.len() as int);
                        assert(first_unusable(iv, i + 1) == i);
                        lemma_first_unusable_stays(iv, i + 1, iv.len() as int);
                    }
                    return Err(e);
                },
                Ok(t) => {
                    let s = t.summary();
                    if filter.accepts(&s) {
                        let ghost before = out@;
                        out.push(s);
                        proof {
                            assert(crate::output::summaries_view(out@) =~= crate::output::summaries_view(
                                before,
                            ).push(out@.last()@));
                        }
                    }
                },
            }
            i = i + 1;
        }
        Ok(out)
    }
}

proof fn lemma_first_unusable_stays(is: Seq<BeadsIssueView>, i: int, n: int)
    requires
        0 < i <= n,
        first_unusable(is, i) >= 0,
    ensures
        first_unusable(is, n) == first_unusable(is, i),
    decreases n - i,
{
    if i < n {
        lemma_first_unusable_stays(is, i + 1, n);
    }
}

proof fn lemma_beads_none_stays(is: Seq<BeadsIssueView>, f: FilterView, i: int, n: int)
    requires
        0 < i <= n,
        beads_summaries(is, f, i) is None,
    ensures
        beads_summaries(is, f, n) is None,
    decreases n - i,
{
    if i < n {
        lemma_beads_none_stays(is, f, i + 1, n);
    }
}

fn beads_state_of(s: &String) -> (r: Option<TaskState>)
    ensures
        r == beads_state(Some(s@)),
{
    let v = crate::text::chars_of(s.as_str());
    let mut l: Vec<char> = Vec::new();
    let mut i: usize = 0;
    while i < v.len()
        invariant
            i <= v@.len(),
            l@ == lower_seq(v@.take(i as int)),
        decreases v@.len() - i,
    {
        l.push(crate::text::to_lower(v[i]));
        proof {
            assert(lower_seq(v@.take(i + 1)) =~= lower_seq(v@.take(i as int)).push(
                crate::text::lower(v@[i as int]),
            ));
        }
        i = i + 1;
    }
    proof {
        assert(v@.take(v@.len() as int) =~= v@);
    }
    if crate::text::seq_equals(&l, &crate::text::chars_of("open")) {
        Some(TaskState::Unstarted)
    } else if crate::text::seq_equals(&l, &crate::text::chars_of("in_progress")) {
        Some(TaskState::InProgress)
    } else if crate::text::seq_equals(&l, &crate::text::chars_of("blocked")) {
        Some(TaskState::Blocked)
    } else if crate::text::seq_equals(&l, &crate::text::chars_of("closed")) {
        Some(TaskState::Done)
    } else {
        None
    }
}


/// How a BEADS record becomes a task. It is usable exactly when its
/// identifier is non-empty without `:`, its status (ASCII case ignored) is
/// absent, `open`, `in_progress`, `blocked` or `closed`, and its priority is
/// absent or within `0..=u32::MAX`. The task then carries the record's
/// identifier (source `beads`), title, description and acceptance criteria (or
/// empty texts when absent), dependencies, role and notes (when non-empty); its
/// state follows the status (absent or `open` unstarted, `closed` done), its
/// priority the record's (2 when absent).
pub proof fn lemma_beads_record(i: BeadsIssueView)
    ensures
        beads_task(i) is Some <==> {
            &&& i.id.len() > 0
            &&& forall|k: int| 0 <= k < i.id.len() ==> i.id[k] != ':'
            &&& (i.status matches Some(v) ==> (lower_seq(v) == "open"@ || lower_seq(v) == "in_progress"@
                || lower_seq(v) == "blocked"@ || lower_seq(v) == "closed"@))
            &&& (i.priority matches Some(x) ==> 0 <= x <= u32::MAX)
        },
        beads_task(i) matches Some(t) ==> {
            &&& t.id == (TaskIdView { source_key: SourceKey::Beads, native_id: i.id })
            &&& t.title == i.title
            &&& (i.description matches Some(d) ==> t.description == d)
            &&& (i.description is None ==> t.description.len() == 0)
            &&& (i.acceptance_criteria matches Some(a) ==> t.acceptance_criteria == a)
            &&& (i.acceptance_criteria is None ==> t.acceptance_criteria.len() == 0)
            &&& t.dependencies == i.dependencies
            &&& (i.role matches Some(r) ==> (r.len() > 0 ==> t.role == Some(r)))
            &&& (i.role matches Some(r) ==> (r.len() == 0 ==> t.role is None))
            &&& (i.role is None ==> t.role is None)
            &&& (i.notes matches Some(c) ==> (c.len() > 0 ==> t.context_notes == Some(c)))
            &&& (i.notes matches Some(c) ==> (c.len() == 0 ==> t.context_notes is None))
            &&& (i.notes is None ==> t.context_notes is None)
            &&& (i.priority is None ==> t.priority == 2)
            &&& (i.priority matches Some(x) ==> t.priority == x)
            &&& (i.status is None ==> t.state == TaskState::Unstarted)
            &&& (i.status matches Some(v) ==> (lower_seq(v) == "open"@ ==> t.state
                == TaskState::Unstarted))
            &&& (i.status matches Some(v) ==> (lower_seq(v) == "in_progress"@ ==> t.state
                == TaskState::InProgress))
            &&& (i.status matches Some(v) ==> (lower_seq(v) == "blocked"@ ==> t.state
                == TaskState::Blocked))
            &&& (i.status matches Some(v) ==> (lower_seq(v) == "closed"@ ==> t.state
                == TaskState::Done))
        },
{
    reveal_strlit("open");
    reveal_strlit("in_progress");
    reveal_strlit("blocked");
    reveal_strlit("closed");
    assert("in_progress"@.len() == 11 && "open"@.len() == 4 && "blocked"@.len() == 7);
    assert("in_progress"@ != "open"@);
    assert("blocked"@ != "open"@ && "blocked"@ != "in_progress"@);
    assert("closed"@ != "open"@ && "closed"@ != "in_progress"@ && "closed"@ != "blocked"@);
    crate::text::lemma_index_of_absent(i.id, ':');
}

/// Listing BEADS records: with a filter that lets every task through, each
/// record yields one summary, in order, with the record's identifier and title.
pub proof fn lemma_beads_listing_complete(is: Seq<BeadsIssueView>, f: FilterView, n: int)
    requires
        f.role is None,
        f.source_key is None,
        f.include_all,
        0 <= n <= is.len(),
        forall|k: int| 0 <= k < n ==> beads_task(#[trigger] is[k]) is Some,
    ensures
        beads_summaries(is, f, n) matches Some(ss) && ss.len() == n && forall|k: int|
            0 <= k < n ==> (#[trigger] ss[k]).id == (TaskIdView {
                source_key: SourceKey::Beads,
                native_id: is[k].id,
            }) && ss[k].title == is[k].title && ss[k].source_key == SourceKey::Beads,
    decreases n,
{
    if n > 0 {
        lemma_beads_listing_complete(is, f, n - 1);
        assert(beads_task(is[n - 1]) is Some);
        lemma_beads_record(is[n - 1]);
        let ss = beads_summaries(is, f, n)->0;
        let prev = beads_summaries(is, f, n - 1)->0;
        assert forall|k: int| 0 <= k < n - 1 implies #[trigger] ss[k] == prev[k] by {}
    }
}

} // verus!
