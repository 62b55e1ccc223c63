//! The GitHub Issues source: the `gh` commands it runs, how issue records map
//! to tasks, and the two-step completion (close, then comment). Running `gh`
//! and decoding its JSON output are the caller's.
use vstd::prelude::*;

use crate::config::{opt_seq, strings_view, GithubSourceConfig};
use crate::identity::{NativeId, SourceKey, TaskId, TaskIdView};
use crate::selection::{eligible, FilterView, SelectionFilter};
use crate::sources::{
    exit_message, exit_message_of, strings_push, Invocation, InvocationView, SourceError,
    SubprocessOutput,
};
use crate::text::{decimal, lower_seq};
use crate::{summary_of, SummaryView, Task, TaskState, TaskSummary, TaskView};

verus! {

/// One issue record of `gh issue list` or `gh issue view`.
#[derive(Debug)]
pub struct GithubIssue {
    pub number: u64,
    pub title: String,
    pub body: Option<String>,
    pub state: String,
    /// How many users the issue is assigned to.
    pub assignee_count: usize,
}

/// The abstract value of an issue record.
pub struct GithubIssueView {
    pub number: u64,
    pub title: Seq<char>,
    pub body: Option<Seq<char>>,
    pub state: Seq<char>,
    pub assignee_count: usize,
}

impl View for GithubIssue {
    type V = GithubIssueView;

    open spec fn view(&self) -> GithubIssueView {
        GithubIssueView {
            number: self.number,
            title: self.title@,
            body: opt_seq(self.body),
            state: self.state@,
            assignee_count: self.assignee_count,
        }
    }
}

/// An open issue is unstarted, or in progress once assigned; a closed one is done
/// (ASCII case ignored).
pub open spec fn github_state(state: Seq<char>, assigned: bool) -> Option<TaskState> {
    let l = lower_seq(state);
    if l == "open"@ {
        Some(
            if assigned {
                TaskState::InProgress
            } else {
                TaskState::Unstarted
            },
        )
    } else if l == "closed"@ {
        Some(TaskState::Done)
    } else {
        None
    }
}

/// The task an issue describes: its number is the identifier, its body the
/// description; priority 2, no role, no dependencies (none are tracked).
pub open spec fn github_task(i: GithubIssueView) -> Option<TaskView> {
    match github_state(i.state, i.assignee_count > 0) {
        None => None,
        Some(st) => Some(
            TaskView {
                id: TaskIdView { source_key: SourceKey::Github, native_id: decimal(i.number as nat) },
                title: i.title,
                description: match i.body {
                    Some(b) => b,
                    None => Seq::empty(),
                },
                acceptance_criteria: Seq::empty(),
                state: st,
                priority: crate::DEFAULT_PRIORITY,
                role: None,
                dependencies: Seq::empty(),
                context_notes: None,
            },
        ),
    }
}

/// The summary of an issue that `gh issue list` returned. The listing asks for
/// open issues only, so a listed issue is unstarted, or in progress once
/// assigned, whatever state text it carries.
pub open spec fn listed_summary(i: GithubIssueView) -> SummaryView {
    SummaryView {
        id: TaskIdView { source_key: SourceKey::Github, native_id: decimal(i.number as nat) },
        source_key: SourceKey::Github,
        priority: crate::DEFAULT_PRIORITY,
        role: None,
        title: i.title,
        state: if i.assignee_count > 0 {
            TaskState::InProgress
        } else {
            TaskState::Unstarted
        },
    }
}

/// The summaries of the first `n` listed issues that pass the filter, in order.
pub open spec fn github_summaries(is: Seq<GithubIssueView>, f: FilterView, n: int) -> Seq<
    SummaryView,
>
    decreases n,
{
    if n <= 0 {
        Seq::empty()
    } else if eligible(f, listed_summary(is[n - 1])) {
        github_summaries(is, f, n - 1).push(listed_summary(is[n - 1]))
    } else {
        github_summaries(is, f, n - 1)
    }
}

pub open spec fn gh_issues_view(v: Seq<GithubIssue>) -> Seq<GithubIssueView> {
    v.map_values(|i: GithubIssue| i@)
}

/// `--label <l>` for each label, in order.
pub open spec fn label_args(ls: Seq<Seq<char>>) -> Seq<Seq<char>>
    decreases ls.len(),
{
    if ls.len() == 0 {
        Seq::empty()
    } else {
        label_args(ls.drop_last()) + seq!["--label"@, ls.last()]
    }
}

/// What to do after the `close` command of a completion.
#[derive(Debug)]
pub enum CompletionStep {
    /// Run this command next (the comment).
    Run(Invocation),
    /// The completion is over, with this outcome.
    Finished(Result<(), SourceError>),
}

/// The message of a completion whose comment failed after the issue was closed.
pub open spec fn partial_message(code: int) -> Seq<char> {
    "issue closed, but adding the comment failed: "@ + exit_message("gh"@, code)
}

/// The GitHub Issues CLI source.
#[derive(Debug)]
pub struct GithubSource {
    config: GithubSourceConfig,
}

impl GithubSource {
    /// The configured repository.
    pub closed spec fn repo(&self) -> Seq<char> {
        self.config.repo@
    }

    /// The configured labels.
    pub closed spec fn labels(&self) -> Seq<Seq<char>> {
        strings_view(self.config.labels@)
    }

    /// Creates the source.
    pub fn new(config: GithubSourceConfig) -> (s: Self)
        ensures
            s.repo() == config.repo@,
            s.labels() == strings_view(config.labels@),
    {
        GithubSource { config }
    }

    /// `gh issue list --repo <repo> [--label <l>]... --json number,title,state,labels,assignees --state open`.
    pub fn list_invocation(&self) -> (c: Invocation)
        ensures
            c@ == (InvocationView {
                program: "gh"@,
                args: seq!["issue"@, "list"@, "--repo"@, self.repo()] + label_args(self.labels())
                    + seq!["--json"@, "number,title,state,labels,assignees"@, "--state"@, "open"@],
                env_vars: Seq::empty(),
            }),
    {
        let mut args: Vec<String> = Vec::new();
        strings_push(&mut args, "issue");
        strings_push(&mut args, "list");
        strings_push(&mut args, "--repo");
        strings_push(&mut args, self.config.repo.as_str());
        let ghost head = strings_view(args@);
        let ghost ls = strings_view(self.config.labels@);
        let mut i: usize = 0;
        while i < self.config.labels.len()
            invariant
                i <= self.config.labels@.len(),
                ls == strings_view(self.config.labels@),
                strings_view(args@) == head + label_args(ls.take(i as int)),
            decreases self.config.labels@.len() - i,
        {
            strings_push(&mut args, "--label");
            strings_push(&mut args, self.config.labels[i].as_str());
            proof {
                assert(ls.take(i + 1).drop_last() =~= ls.take(i as int));
                assert(ls.take(i + 1).last() == self.config.labels@[i as int]@);
                assert(strings_view(args@) =~= head + label_args(ls.take(i + 1)));
            }
            i = i + 1;
        }
        strings_push(&mut args, "--json");
        strings_push(&mut args, "number,title,state,labels,assignees");
        strings_push(&mut args, "--state");
        strings_push(&mut args, "open");
        proof {
            assert(ls.take(ls.len() as int) =~= ls);
            assert(strings_view(args@) =~= seq!["issue"@, "list"@, "--repo"@, self.repo()]
                + label_args(self.labels()) + seq![
                "--json"@,
                "number,title,state,labels,assignees"@,
                "--state"@,
                "open"@,
            ]);
        }
        let env: Vec<(String, String)> = Vec::new();
        proof {
            assert(env@.map_values(|p: (String, String)| (p.0@, p.1@)) =~= Seq::<
                (Seq<char>, Seq<char>),
            >::empty());
        }
        Invocation { program: String::from_str("gh"), args, env_vars: env }
    }

    /// `gh issue <verb> <native_id> --repo <repo>` followed by `extra`.
    fn issue_command(&self, verb: &str, native_id: &NativeId) -> (args: Vec<String>)
        ensures
            strings_view(args@) == seq!["issue"@, verb@, native_id@, "--repo"@, self.repo()],
    {
        let mut args: Vec<String> = Vec::new();
        strings_push(&mut args, "issue");
        strings_push(&mut args, verb);
        strings_push(&mut args, native_id.0.as_str());
        strings_push(&mut args, "--repo");
        strings_push(&mut args, self.config.repo.as_str());
        proof {
            assert(strings_view(args@) =~= seq!["issue"@, verb@, native_id@, "--repo"@, self.repo()]);
        }
        args
    }

    fn invocation(args: Vec<String>) -> (c: Invocation)
        ensures
            c@ == (InvocationView {
                program: "gh"@,
                args: strings_view(args@),
                env_vars: Seq::empty(),
            }),
    {
        let env: Vec<(String, String)> = Vec::new();
        proof {
            assert(env@.map_values(|p: (String, String)| (p.0@, p.1@)) =~= Seq::<
                (Seq<char>, Seq<char>),
            >::empty());
        }
        Invocation { program: String::from_str("gh"), args, env_vars: env }
    }

    /// `gh issue view <native_id> --repo <repo> --json number,title,body,state,labels`.
    pub fn get_invocation(&self, native_id: &NativeId) -> (c: Invocation)
        ensures
            c@ == (InvocationView {
                program: "gh"@,
                args: seq![
                    "issue"@,
                    "view"@,
                    native_id@,
                    "--repo"@,
                    self.repo(),
                    "--json"@,
                    "number,title,body,state,labels"@,
                ],
                env_vars: Seq::empty(),
            }),
    {
        let mut args = self.issue_command("view", native_id);
        strings_push(&mut args, "--json");
        strings_push(&mut args, "number,title,body,state,labels");
        proof {
            assert(strings_view(args@) =~= seq![
                "issue"@,
                "view"@,
                native_id@,
                "--repo"@,
                self.repo(),
                "--json"@,
                "number,title,body,state,labels"@,
            ]);
        }
        Self::invocation(args)
    }

    /// `gh issue close <native_id> --repo <repo>`: the first step of a completion.
    pub fn close_invocation(&self, native_id: &NativeId) -> (c: Invocation)
        ensures
            c@ == (InvocationView {
                program: "gh"@,
                args: seq!["issue"@, "close"@, native_id@, "--repo"@, self.repo()],
                env_vars: Seq::empty(),
            }),
    {
        Self::invocation(self.issue_command("close", native_id))
    }

    /// `gh issue comment <native_id> --repo <repo> --body <text>`.
    pub fn comment_invocation(&self, native_id: &NativeId, text: &str) -> (c: Invocation)
        ensures
            c@ == (InvocationView {
                program: "gh"@,
                args: seq!["issue"@, "comment"@, native_id@, "--repo"@, self.repo(), "--body"@, text@],
                env_vars: Seq::empty(),
            }),
    {
        let mut args = self.issue_command("comment", native_id);
        strings_push(&mut args, "--body");
        strings_push(&mut args, text);
        proof {
            assert(strings_view(args@) =~= seq![
                "issue"@,
                "comment"@,
                native_id@,
                "--repo"@,
                self.repo(),
                "--body"@,
                text@,
            ]);
        }
        Self::invocation(args)
    }

    /// The step after `close`: a failed close ends the completion with `Io`; a
    /// successful one ends it, or, for a non-empty comment, asks for the comment
    /// command.
    pub fn after_close(&self, native_id: &NativeId, comment: Option<&str>, close: &SubprocessOutput) -> (s: CompletionStep)
        ensures
            close.exit_code != 0 ==> (s matches CompletionStep::Finished(Err(SourceError::Io { message })) && message@
                == exit_message("gh"@, close.exit_code as int)),
            close.exit_code == 0 ==> match comment {
                Some(t) => if t@.len() > 0 {
                    s matches CompletionStep::Run(c) && c@ == (InvocationView {
                        program: "gh"@,
                        args: seq!["issue"@, "comment"@, native_id@, "--repo"@, self.repo(), "--body"@, t@],
                        env_vars: Seq::empty(),
                    })
                } else {
                    s matches CompletionStep::Finished(Ok(()))
                },
                None => s matches CompletionStep::Finished(Ok(())),
            },
    {
        if close.exit_code != 0 {
            return CompletionStep::Finished(Err(SourceError::Io { message: exit_message_of("gh", close.exit_code) }));
        }
        match comment {
            Some(t) => if t.unicode_len() > 0 {
                CompletionStep::Run(self.comment_invocation(native_id, t))
            } else {
                CompletionStep::Finished(Ok(()))
            },
            None => CompletionStep::Finished(Ok(())),
        }
    }

    /// The outcome after the comment command: success, or `PartialCompletion`
    /// (the issue is closed; only the comment is missing).
    pub fn after_comment(comment: &SubprocessOutput) -> (r: Result<(), SourceError>)
        ensures
            comment.exit_code == 0 ==> r is Ok,
            comment.exit_code != 0 ==> (r matches Err(SourceError::PartialCompletion { message }) && message@
                == partial_message(comment.exit_code as int)),
    {
        if comment.exit_code == 0 {
            Ok(())
        } else {
            let mut m = String::from_str("issue closed, but adding the comment failed: ");
            crate::text::push_str(&mut m, exit_message_of("gh", comment.exit_code).as_str());
            Err(SourceError::PartialCompletion { message: m })
        }
    }

    /// The outcome when the comment command of a completion could not be run
    /// at all after the issue was closed: `PartialCompletion`, with the reason.
    pub fn comment_not_run(err: &SourceError) -> (r: SourceError)
        ensures
            r matches SourceError::PartialCompletion { message } && message@
                == "issue closed, but adding the comment failed: "@ + crate::sources::error_detail(*err),
    {
        let mut m = String::from_str("issue closed, but adding the comment failed: ");
        crate::text::push_str(&mut m, err.detail().as_str());
        SourceError::PartialCompletion { message: m }
    }

    /// The task that `gh issue view` describes: an open issue is unstarted, or in
    /// progress once assigned, a closed one done; `Parse` for an unknown state.
    pub fn task_from(issue: &GithubIssue) -> (r: Result<Task, SourceError>)
        ensures
            match github_task(issue@) {
                Some(t) => r matches Ok(x) && x@ == t,
                None => r matches Err(SourceError::Parse { message }) && message@
                    == "a gh issue has an unknown state"@,
            },
    {
        let state = match github_state_of(&issue.state, issue.assignee_count > 0) {
            Some(s) => s,
            None => {
                return Err(SourceError::Parse { message: String::from_str("a gh issue has an unknown state") });
            },
        };
        let mut id = String::new();
        crate::text::push_decimal_u64(&mut id, issue.number);
        proof {
            assert(id@ =~= decimal(issue.number as nat));
        }
        let deps: Vec<crate::Dependency> = Vec::new();
        proof {
            assert(crate::deps_view(deps@) =~= Seq::<Seq<char>>::empty());
        }
        Ok(Task {
            id: TaskId { source_key: SourceKey::Github, native_id: NativeId(id) },
            title: issue.title.clone(),
            description: match &issue.body {
                Some(b) => b.clone(),
                None => String::new(),
            },
            acceptance_criteria: String::new(),
            state,
            priority: crate::Priority(crate::DEFAULT_PRIORITY),
            role: None,
            dependencies: deps,
            context_notes: None,
        })
    }

    /// The summaries of the issues that `gh issue list` returned that pass
    /// `filter`, in order. Each is unstarted, or in progress when assigned (the
    /// listing holds open issues only); its state text is not consulted.
    pub fn summaries_from(issues: &Vec<GithubIssue>, filter: &SelectionFilter) -> (r: Vec<TaskSummary>)
        ensures
            crate::output::summaries_view(r@) == github_summaries(
                gh_issues_view(issues@),
                filter@,
                issues@.len() as int,
            ),
    {
        let ghost iv = gh_issues_view(issues@);
        let mut out: Vec<TaskSummary> = Vec::new();
        let mut i: usize = 0;
        while i < issues.len()
            invariant
                i <= issues@.len(),
                iv == gh_issues_view(issues@),
                github_summaries(iv, filter@, i as int) == crate::output::summaries_view(out@),
            decreases issues@.len() - i,
        {
            proof {
                assert(iv[i as int] == issues@[i as int]@);
            }
            let s = Self::listed(&issues[i]);
            if filter.accepts(&s) {
                let ghost before = out@;
                out.push(s);
                proof {
                    assert(crate::output::summaries_view(out@) =~= crate::output::summaries_view(
                        before,
                    ).push(out@.last()@));
                }
            }
            i = i + 1;
        }
        out
    }

    fn listed(issue: &GithubIssue) -> (s: TaskSummary)
        ensures
            s@ == listed_summary(issue@),
    {
        let mut id = String::new();
        crate::text::push_decimal_u64(&mut id, issue.number);
        proof {
            assert(id@ =~= decimal(issue.number as nat));
        }
        TaskSummary {
            id: TaskId { source_key: SourceKey::Github, native_id: NativeId(id) },
            source_key: SourceKey::Github,
            priority: crate::Priority(crate::DEFAULT_PRIORITY),
            role: None,
            title: issue.title.clone(),
            state: if issue.assignee_count > 0 {
                TaskState::InProgress
            } else {
                TaskState::Unstarted
            },
        }
    }
}

fn github_state_of(s: &String, assigned: bool) -> (r: Option<TaskState>)
    ensures
        r == github_state(s@, assigned),
{
    let v = crate::text::chars_of(s.as_str());
    let mut l: Vec<char> = Vec::new();
    let mut i: usize = 0;
    while i < v.len()
        invariant
            i <= v@.len(),
            l@ == lower_seq(v@.take(i as int)),
        decreases v@.len() - i,
    {
        l.push(crate::text::to_lower(v[i]));
        proof {
            assert(lower_seq(v@.take(i + 1)) =~= lower_seq(v@.take(i as int)).push(
                crate::text::lower(v@[i as int]),
            ));
        }
        i = i + 1;
    }
    proof {
        assert(v@.take(v@.len() as int) =~= v@);
    }
    if crate::text::seq_equals(&l, &crate::text::chars_of("open")) {
        Some(
            if assigned {
                TaskState::InProgress
            } else {
                TaskState::Unstarted
            },
        )
    } else if crate::text::seq_equals(&l, &crate::text::chars_of("closed")) {
        Some(TaskState::Done)
    } else {
        None
    }
}


/// A summary that shows issue `i` as the listing must: its number as the
/// identifier (source `gh`), its title, priority 2, no role, and unstarted, or
/// in progress when the issue is assigned.
pub open spec fn shows_issue(s: SummaryView, i: GithubIssueView) -> bool {
    &&& s.id == (TaskIdView { source_key: SourceKey::Github, native_id: decimal(i.number as nat) })
    &&& s.source_key == SourceKey::Github
    &&& s.title == i.title
    &&& s.priority == crate::DEFAULT_PRIORITY
    &&& s.role is None
    &&& s.state == (if i.assignee_count > 0 {
        TaskState::InProgress
    } else {
        TaskState::Unstarted
    })
}

/// Listing issues: every summary shows one of the issues (its number, title,
/// and an open state) and passes the filter; with a filter that lets every
/// task through, the summaries show the issues one for one, in order.
pub proof fn lemma_github_listing(is: Seq<GithubIssueView>, f: FilterView, n: int)
    requires
        0 <= n <= is.len(),
    ensures
        forall|x: int|
            0 <= x < github_summaries(is, f, n).len() ==> eligible(
                f,
                #[trigger] github_summaries(is, f, n)[x],
            ) && exists|k: int| 0 <= k < n && shows_issue(github_summaries(is, f, n)[x], #[trigger] is[k]),
        f.role is None && f.source_key is None && f.include_all ==> github_summaries(is, f, n).len()
            == n && forall|k: int| 0 <= k < n ==> shows_issue(#[trigger] github_summaries(is, f, n)[k], is[k]),
    decreases n,
{
    if n > 0 {
        lemma_github_listing(is, f, n - 1);
        let prev = github_summaries(is, f, n - 1);
        let cur = github_summaries(is, f, n);
        assert(shows_issue(listed_summary(is[n - 1]), is[n - 1]));
        assert forall|x: int| 0 <= x < cur.len() implies eligible(f, #[trigger] cur[x]) && exists|k: int|
            0 <= k < n && shows_issue(cur[x], #[trigger] is[k]) by {
            if x < prev.len() {
                assert(cur[x] == prev[x]);
                let k = choose|k: int| 0 <= k < n - 1 && shows_issue(prev[x], #[trigger] is[k]);
                assert(shows_issue(cur[x], is[k]));
            } else {
                assert(cur[x] == listed_summary(is[n - 1]));
                assert(shows_issue(cur[x], is[n - 1]));
            }
        }
        if f.role is None && f.source_key is None && f.include_all {
            assert forall|k: int| 0 <= k < n implies shows_issue(#[trigger] cur[k], is[k]) by {
                if k < n - 1 {
                    assert(cur[k] == prev[k]);
                }
            }
        }
    }
}


/// How `gh issue view` output becomes a task: the state text (ASCII case
/// ignored) must be `open` or `closed`; the task then carries the issue's number
/// as identifier (source `gh`), its title, its body as description (empty when
/// absent), priority 2, no role, no dependencies, and is done when closed,
/// otherwise unstarted, or in progress once assigned.
pub proof fn lemma_github_issue(i: GithubIssueView)
    ensures
        github_task(i) is Some <==> (lower_seq(i.state) == "open"@ || lower_seq(i.state) == "closed"@),
        github_task(i) matches Some(t) ==> {
            &&& t.id == (TaskIdView { source_key: SourceKey::Github, native_id: decimal(i.number as nat) })
            &&& t.title == i.title
            &&& (i.body matches Some(b) ==> t.description == b)
            &&& (i.body is None ==> t.description.len() == 0)
            &&& t.priority == crate::DEFAULT_PRIORITY
            &&& t.role is None
            &&& t.dependencies.len() == 0
            &&& (lower_seq(i.state) == "closed"@ ==> t.state == TaskState::Done)
            &&& (lower_seq(i.state) == "open"@ ==> t.state == (if i.assignee_count > 0 {
                TaskState::InProgress
            } else {
                TaskState::Unstarted
            }))
        },
{
    reveal_strlit("open");
    reveal_strlit("closed");
    assert("open"@.len() == 4 && "closed"@.len() == 6);
    assert("open"@ != "closed"@);
}

} // verus!
