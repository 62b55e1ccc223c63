use vstd::prelude::*;

use crate::identity::{sort_key_of, SourceKey};
use crate::text::{
    chars_lt, chars_of, lemma_seq_lt_asymmetric, lemma_seq_lt_irreflexive, lemma_seq_lt_total,
    lemma_seq_lt_transitive, seq_lt,
};
use crate::{is_actionable, role_view, same_role, Priority, Role, SummaryView, TaskSummary};

verus! {

// ── SelectionFilter ─────────────────────────────────────────────────────────

/// The criteria applied when selecting or listing tasks.
#[derive(Debug, Clone)]
pub struct SelectionFilter {
    /// If set, only tasks with this role (ignoring ASCII case) or with no role pass.
    pub role: Option<Role>,
    /// If set, only tasks from this source pass.
    pub source_key: Option<SourceKey>,
    /// If true, tasks in every state pass; otherwise only unstarted and in-progress ones.
    pub include_all: bool,
}

/// The abstract value of a `SelectionFilter`.
pub struct FilterView {
    pub role: Option<Seq<char>>,
    pub source_key: Option<SourceKey>,
    pub include_all: bool,
}

impl View for SelectionFilter {
    type V = FilterView;

    open spec fn view(&self) -> FilterView {
        FilterView {
            role: role_view(self.role),
            source_key: self.source_key,
            include_all: self.include_all,
        }
    }
}

impl Default for SelectionFilter {
    fn default() -> (f: Self)
        ensures
            f@.role.is_none(),
            f@.source_key.is_none(),
            !f@.include_all,
    {
        SelectionFilter { role: None, source_key: None, include_all: false }
    }
}

/// The state rule: done and blocked tasks pass only when every state is asked for.
pub open spec fn passes_state(f: FilterView, s: SummaryView) -> bool {
    f.include_all || is_actionable(s.state)
}

/// The source rule: with a source restriction, only that source's tasks pass.
pub open spec fn passes_source(f: FilterView, s: SummaryView) -> bool {
    f.source_key matches Some(k) ==> s.source_key == k
}

/// The role rule: unassigned tasks pass any role filter; assigned ones must match it.
pub open spec fn passes_role(f: FilterView, s: SummaryView) -> bool {
    match (f.role, s.role) {
        (Some(want), Some(has)) => same_role(want, has),
        _ => true,
    }
}

/// A task that passes every rule of the filter.
pub open spec fn eligible(f: FilterView, s: SummaryView) -> bool {
    passes_state(f, s) && passes_source(f, s) && passes_role(f, s)
}

impl SelectionFilter {
    /// Whether `summary` passes every rule of this filter.
    pub fn accepts(&self, summary: &TaskSummary) -> (b: bool)
        ensures
            b == eligible(self@, summary@),
    {
        let state_ok = self.include_all || match summary.state {
            crate::TaskState::Unstarted => true,
            crate::TaskState::InProgress => true,
            _ => false,
        };
        let source_ok = match self.source_key {
            Some(k) => summary.source_key == k,
            None => true,
        };
        let role_ok = match (&self.role, &summary.role) {
            (Some(want), Some(has)) => want.matches(has),
            _ => true,
        };
        state_ok && source_ok && role_ok
    }
}

// ── SortKey ─────────────────────────────────────────────────────────────────

/// The composite key of a candidate; the smallest key is selected.
#[derive(Debug, PartialEq, Eq, PartialOrd, Ord)]
pub struct SortKey {
    /// Primary: lower priority number first.
    pub priority: Priority,
    /// Secondary: lower position in the configured source order first.
    pub source_order: usize,
    /// Tertiary: ascending by the identifier's sort key (all-digit ids zero-padded).
    pub native_id_sort_key: String,
}

/// The abstract value of a sort key.
pub struct KeyView {
    pub priority: u32,
    pub source_order: usize,
    pub native_id_sort_key: Seq<char>,
}

impl View for SortKey {
    type V = KeyView;

    open spec fn view(&self) -> KeyView {
        KeyView {
            priority: self.priority.0,
            source_order: self.source_order,
            native_id_sort_key: self.native_id_sort_key@,
        }
    }
}

/// The strict lexicographic order on keys: priority, then source order, then id.
pub open spec fn key_lt(a: KeyView, b: KeyView) -> bool {
    ||| a.priority < b.priority
    ||| (a.priority == b.priority && a.source_order < b.source_order)
    ||| (a.priority == b.priority && a.source_order == b.source_order && seq_lt(
        a.native_id_sort_key,
        b.native_id_sort_key,
    ))
}

pub proof fn lemma_key_lt_irreflexive(a: KeyView)
    ensures
        !key_lt(a, a),
{
    lemma_seq_lt_irreflexive(a.native_id_sort_key);
}

pub proof fn lemma_key_lt_transitive(a: KeyView, b: KeyView, c: KeyView)
    requires
        key_lt(a, b),
        key_lt(b, c),
    ensures
        key_lt(a, c),
{
    if a.priority == b.priority && b.priority == c.priority && a.source_order == b.source_order
        && b.source_order == c.source_order {
        lemma_seq_lt_transitive(a.native_id_sort_key, b.native_id_sort_key, c.native_id_sort_key);
    }
}

pub proof fn lemma_key_lt_total(a: KeyView, b: KeyView)
    ensures
        key_lt(a, b) || key_lt(b, a) || a == b,
{
    lemma_seq_lt_total(a.native_id_sort_key, b.native_id_sort_key);
}

pub proof fn lemma_key_lt_asymmetric(a: KeyView, b: KeyView)
    requires
        key_lt(a, b),
    ensures
        !key_lt(b, a),
{
    if key_lt(b, a) {
        lemma_key_lt_transitive(a, b, a);
        lemma_key_lt_irreflexive(a);
    }
}

impl Clone for SortKey {
    fn clone(&self) -> (r: Self)
        ensures
            r@ == self@,
    {
        SortKey {
            priority: self.priority,
            source_order: self.source_order,
            native_id_sort_key: self.native_id_sort_key.clone(),
        }
    }
}

impl SortKey {
    /// Whether this key sorts strictly before `other`.
    pub fn less_than(&self, other: &SortKey) -> (r: bool)
        ensures
            r == key_lt(self@, other@),
    {
        if self.priority.0 != other.priority.0 {
            self.priority.0 < other.priority.0
        } else if self.source_order != other.source_order {
            self.source_order < other.source_order
        } else {
            chars_lt(
                &chars_of(self.native_id_sort_key.as_str()),
                &chars_of(other.native_id_sort_key.as_str()),
            )
        }
    }
}

// ── ScoredCandidate ─────────────────────────────────────────────────────────

/// A task summary paired with its source's position in the priority list.
#[derive(Debug, Clone)]
pub struct ScoredCandidate {
    /// 0-based position of the task's source in the configured priority list.
    pub source_order: usize,
    /// The summary that the source returned.
    pub summary: TaskSummary,
}

/// The abstract value of a candidate.
pub struct CandidateView {
    pub source_order: usize,
    pub summary: SummaryView,
}

impl View for ScoredCandidate {
    type V = CandidateView;

    open spec fn view(&self) -> CandidateView {
        CandidateView { source_order: self.source_order, summary: self.summary@ }
    }
}

/// The sort key of a candidate.
pub open spec fn key_of_candidate(c: CandidateView) -> KeyView {
    KeyView {
        priority: c.summary.priority,
        source_order: c.source_order,
        native_id_sort_key: sort_key_of(c.summary.id.native_id),
    }
}

impl ScoredCandidate {
    /// The sort key of this candidate.
    pub fn sort_key(&self) -> (k: SortKey)
        ensures
            k@ == key_of_candidate(self@),
    {
        SortKey {
            priority: self.summary.priority,
            source_order: self.source_order,
            native_id_sort_key: self.summary.id.native_id.sort_key(),
        }
    }
}

pub open spec fn candidates_view(c: Seq<ScoredCandidate>) -> Seq<CandidateView> {
    c.map_values(|x: ScoredCandidate| x@)
}

/// Among the first `n` candidates, the index of the eligible one with the smallest
/// key, the earliest one among equal keys (a stable sort followed by taking the head).
pub open spec fn best_index(c: Seq<CandidateView>, f: FilterView, n: int) -> Option<int>
    decreases n,
{
    if n <= 0 {
        None
    } else {
        let prev = best_index(c, f, n - 1);
        if !eligible(f, c[n - 1].summary) {
            prev
        } else {
            match prev {
                None => Some(n - 1),
                Some(j) => if key_lt(key_of_candidate(c[n - 1]), key_of_candidate(c[j])) {
                    Some(n - 1)
                } else {
                    Some(j)
                },
            }
        }
    }
}

/// The index of the candidate that selection picks, if any.
pub open spec fn selected(c: Seq<CandidateView>, f: FilterView) -> Option<int> {
    best_index(c, f, c.len() as int)
}

// ── SelectionError ──────────────────────────────────────────────────────────

/// No candidate passed the filter.
#[derive(Debug, Clone, Copy, PartialEq, Eq, Structural)]
pub enum SelectionError {
    NoTaskFound,
}

// ── TaskSelector ────────────────────────────────────────────────────────────

/// Deterministic task selection: no state, no I/O, no randomness.
pub struct TaskSelector;

impl TaskSelector {
    /// Selects the eligible candidate with the smallest sort key
    /// (priority, then source order, then identifier sort key); among equal keys
    /// the earliest candidate. `NoTaskFound` when no candidate is eligible.
    pub fn select(candidates: Vec<ScoredCandidate>, filter: &SelectionFilter) -> (r: Result<
        TaskSummary,
        SelectionError,
    >)
        ensures
            match selected(candidates_view(candidates@), filter@) {
                Some(j) => r matches Ok(s) && s@ == candidates@[j].summary@,
                None => r == Err::<TaskSummary, SelectionError>(SelectionError::NoTaskFound),
            },
    {
        let ghost cv = candidates_view(candidates@);
        let mut best: Option<usize> = None;
        let mut best_key: Option<SortKey> = None;
        let mut i: usize = 0;
        while i < candidates.len()
            invariant
                i <= candidates@.len(),
                cv == candidates_view(candidates@),
                best_index(cv, filter@, i as int) == match best {
                    Some(j) => Some(j as int),
                    None => None::<int>,
                },
                best is Some <==> best_key is Some,
                best matches Some(j) ==> (j < i && (best_key matches Some(k) && k@
                    == key_of_candidate(cv[j as int]))),
            decreases candidates@.len() - i,
        {
            if filter.accepts(&candidates[i].summary) {
                let k = candidates[i].sort_key();
                let take = match &best_key {
                    None => true,
                    Some(bk) => k.less_than(bk),
                };
                if take {
                    best = Some(i);
                    best_key = Some(k);
                }
            }
            i = i + 1;
        }
        match best {
            Some(j) => Ok(candidates[j].summary.clone()),
            None => Err(SelectionError::NoTaskFound),
        }
    }
}

} // verus!

verus! {

// ── Laws of selection ───────────────────────────────────────────────────────

proof fn lemma_best_index(c: Seq<CandidateView>, f: FilterView, n: int)
    requires
        0 <= n <= c.len(),
    ensures
        best_index(c, f, n) is None <==> forall|i: int|
            0 <= i < n ==> !eligible(f, #[trigger] c[i].summary),
        best_index(c, f, n) matches Some(j) ==> {
            &&& 0 <= j < n
            &&& eligible(f, c[j].summary)
            &&& forall|i: int|
                0 <= i < n && eligible(f, #[trigger] c[i].summary) ==> !key_lt(
                    key_of_candidate(c[i]),
                    key_of_candidate(c[j]),
                )
            &&& forall|i: int|
                0 <= i < j && eligible(f, #[trigger] c[i].summary) ==> key_lt(
                    key_of_candidate(c[j]),
                    key_of_candidate(c[i]),
                )
        },
    decreases n,
{
    if n > 0 {
        lemma_best_index(c, f, n - 1);
        let prev = best_index(c, f, n - 1);
        let last = key_of_candidate(c[n - 1]);
        if eligible(f, c[n - 1].summary) {
            match prev {
                None => {
                    assert forall|i: int|
                        0 <= i < n && eligible(f, #[trigger] c[i].summary) implies !key_lt(
                        key_of_candidate(c[i]),
                        last,
                    ) by {
                        assert(i == n - 1);
                        lemma_key_lt_irreflexive(last);
                    }
                },
                Some(j) => {
                    let kj = key_of_candidate(c[j]);
                    if key_lt(last, kj) {
                        assert forall|i: int|
                            0 <= i < n && eligible(f, #[trigger] c[i].summary) implies !key_lt(
                            key_of_candidate(c[i]),
                            last,
                        ) by {
                            let ki = key_of_candidate(c[i]);
                            if i == n - 1 {
                                lemma_key_lt_irreflexive(last);
                            } else {
                                lemma_key_lt_total(ki, kj);
                                if key_lt(kj, ki) {
                                    lemma_key_lt_transitive(last, kj, ki);
                                }
                                lemma_key_lt_asymmetric(last, ki);
                            }
                        }
                        assert forall|i: int|
                            0 <= i < n - 1 && eligible(f, #[trigger] c[i].summary) implies key_lt(
                            last,
                            key_of_candidate(c[i]),
                        ) by {
                            let ki = key_of_candidate(c[i]);
                            lemma_key_lt_total(ki, kj);
                            if key_lt(kj, ki) {
                                lemma_key_lt_transitive(last, kj, ki);
                            }
                        }
                    } else {
                        assert forall|i: int|
                            0 <= i < n && eligible(f, #[trigger] c[i].summary) implies !key_lt(
                            key_of_candidate(c[i]),
                            kj,
                        ) by {
                            if i == n - 1 {
                            }
                        }
                    }
                },
            }
        }
    }
}

/// What selection picks: the result, when there is one, passes the filter, no
/// eligible candidate has a smaller key, and every eligible candidate before it has
/// a strictly larger key. There is no result exactly when no candidate is eligible.
pub proof fn lemma_selected_is_least_eligible(c: Seq<CandidateView>, f: FilterView)
    ensures
        selected(c, f) is None <==> forall|i: int|
            0 <= i < c.len() ==> !eligible(f, #[trigger] c[i].summary),
        selected(c, f) matches Some(j) ==> {
            &&& 0 <= j < c.len()
            &&& eligible(f, c[j].summary)
            &&& forall|i: int|
                0 <= i < c.len() && eligible(f, #[trigger] c[i].summary) ==> !key_lt(
                    key_of_candidate(c[i]),
                    key_of_candidate(c[j]),
                )
            &&& forall|i: int|
                0 <= i < j && eligible(f, #[trigger] c[i].summary) ==> key_lt(
                    key_of_candidate(c[j]),
                    key_of_candidate(c[i]),
                )
        },
{
    lemma_best_index(c, f, c.len() as int);
}

/// The order in which candidates arrive does not change the outcome: for any
/// reordering, a task is selected in both or in neither, and the selected tasks
/// have the same sort key.
pub proof fn lemma_selection_order_independent(
    c1: Seq<CandidateView>,
    c2: Seq<CandidateView>,
    f: FilterView,
)
    requires
        c1.to_multiset() == c2.to_multiset(),
    ensures
        selected(c1, f) is Some <==> selected(c2, f) is Some,
        selected(c1, f) matches Some(j1) ==> (selected(c2, f) matches Some(j2) && key_of_candidate(
            c1[j1],
        ) == key_of_candidate(c2[j2])),
{
    broadcast use vstd::seq_lib::group_to_multiset_ensures;

    lemma_selected_is_least_eligible(c1, f);
    lemma_selected_is_least_eligible(c2, f);
    if selected(c1, f) is Some {
        let j1 = selected(c1, f)->0;
        assert(c1.contains(c1[j1]));
        assert(c1.to_multiset().contains(c1[j1]));
        assert(c2.contains(c1[j1]));
        let k = choose|k: int| 0 <= k < c2.len() && c2[k] == c1[j1];
        assert(eligible(f, c2[k].summary));
    }
    if selected(c2, f) is Some {
        let j2 = selected(c2, f)->0;
        assert(c2.contains(c2[j2]));
        assert(c2.to_multiset().contains(c2[j2]));
        assert(c1.contains(c2[j2]));
        let k = choose|k: int| 0 <= k < c1.len() && c1[k] == c2[j2];
        assert(eligible(f, c1[k].summary));
    }
    if selected(c1, f) is Some && selected(c2, f) is Some {
        let j1 = selected(c1, f)->0;
        let j2 = selected(c2, f)->0;
        assert(c1.to_multiset().contains(c1[j1]));
        assert(c2.to_multiset().contains(c2[j2]));
        assert(c2.contains(c1[j1]));
        assert(c1.contains(c2[j2]));
        let k2 = choose|k: int| 0 <= k < c2.len() && c2[k] == c1[j1];
        let k1 = choose|k: int| 0 <= k < c1.len() && c1[k] == c2[j2];
        assert(eligible(f, c2[k2].summary));
        assert(eligible(f, c1[k1].summary));
        let a = key_of_candidate(c1[j1]);
        let b = key_of_candidate(c2[j2]);
        assert(!key_lt(key_of_candidate(c2[k2]), b));
        assert(!key_lt(key_of_candidate(c1[k1]), a));
        lemma_key_lt_total(a, b);
    }
}


/// What selection prefers and admits, in terms of the candidates themselves:
/// a lower priority number wins, then an earlier source, then the identifier
/// that sorts first (numeric identifiers padded to nine digits); done and
/// blocked tasks are admitted only when every state is asked for; a source
/// restriction admits that source only; a role filter admits unassigned tasks
/// and tasks whose role equals it up to ASCII case.
pub proof fn lemma_selection_rules(f: FilterView, a: CandidateView, b: CandidateView)
    ensures
        a.summary.priority < b.summary.priority ==> key_lt(key_of_candidate(a), key_of_candidate(b)),
        a.summary.priority == b.summary.priority && a.source_order < b.source_order ==> key_lt(
            key_of_candidate(a),
            key_of_candidate(b),
        ),
        a.summary.priority == b.summary.priority && a.source_order == b.source_order ==> (key_lt(
            key_of_candidate(a),
            key_of_candidate(b),
        ) <==> seq_lt(sort_key_of(a.summary.id.native_id), sort_key_of(b.summary.id.native_id))),
        a.summary.priority > b.summary.priority ==> !key_lt(key_of_candidate(a), key_of_candidate(b)),
        eligible(f, a.summary) <==> {
            &&& (f.include_all || a.summary.state == crate::TaskState::Unstarted || a.summary.state
                == crate::TaskState::InProgress)
            &&& (f.source_key matches Some(k) ==> a.summary.source_key == k)
            &&& (f.role matches Some(want) ==> (a.summary.role matches Some(has) ==> crate::text::lower_seq(
                want,
            ) == crate::text::lower_seq(has)))
        },
{
}

} // verus!
