//! What the commands decide between their calls to the sources: which sources
//! they consult, and how the answers combine into candidates for selection and
//! listing, with the failed sources set aside for a warning each.
use vstd::prelude::*;

use crate::identity::SourceKey;
use crate::selection::{CandidateView, ScoredCandidate, SelectionFilter};
use crate::sources::{SourceError, SourceRegistry};
use crate::{SummaryView, TaskSummary};

verus! {

/// The positions among the first `n` registered keys that a command consults:
/// all of them, or those of the one source it is restricted to.
pub open spec fn consulted_positions(keys: Seq<SourceKey>, only: Option<SourceKey>, n: int) -> Seq<
    usize,
>
    decreases n,
{
    if n <= 0 {
        Seq::empty()
    } else {
        let prev = consulted_positions(keys, only, n - 1);
        if only matches Some(k) && keys[n - 1] != k {
            prev
        } else {
            prev.push((n - 1) as usize)
        }
    }
}

/// The candidates that the summaries of the source at `order` become.
pub open spec fn scored(order: usize, ss: Seq<SummaryView>) -> Seq<CandidateView> {
    ss.map_values(|s: SummaryView| CandidateView { source_order: order, summary: s })
}

/// The sources of `registry` to consult under `filter`, as positions in its
/// priority order, in that order: every source, or only the one that the
/// filter restricts to (no other source is consulted as a fallback).
pub fn consulted(registry: &SourceRegistry, filter: &SelectionFilter) -> (r: Vec<usize>)
    ensures
        r@ == consulted_positions(registry.keys(), filter.source_key, registry.keys().len() as int),
{
    let sources = registry.ordered_sources();
    proof {
        registry.lemma_keys_of_entries();
    }
    let mut r: Vec<usize> = Vec::new();
    let mut i: usize = 0;
    while i < sources.len()
        invariant
            i <= sources@.len(),
            sources@ == registry.entries(),
            registry.keys() == crate::sources::keys_of(registry.entries()),
            r@ == consulted_positions(registry.keys(), filter.source_key, i as int),
        decreases sources@.len() - i,
    {
        proof {
            assert(registry.keys()[i as int] == sources@[i as int].0);
        }
        let keep = match filter.source_key {
            Some(k) => sources[i].0 == k,
            None => true,
        };
        if keep {
            r.push(i);
        }
        i = i + 1;
    }
    proof {
        assert(registry.keys().len() == sources@.len());
    }
    r
}

/// What a command has gathered from the sources it consulted so far.
#[derive(Debug)]
pub struct Gathered {
    /// The summaries of the sources that answered, each with its source's position.
    pub candidates: Vec<ScoredCandidate>,
    /// The sources that failed, with their failures, in the order consulted.
    pub failures: Vec<(SourceKey, SourceError)>,
}

impl Gathered {
    /// Nothing gathered yet.
    pub fn new() -> (g: Gathered)
        ensures
            g.candidates@.len() == 0,
            g.failures@.len() == 0,
    {
        Gathered { candidates: Vec::new(), failures: Vec::new() }
    }

    /// Records the answer of the source `key` at position `order`: its summaries
    /// join the candidates, scored with that position, in the order given; a
    /// failure is set aside (the command goes on with the other sources).
    pub fn record(
        &mut self,
        order: usize,
        key: SourceKey,
        answer: Result<Vec<TaskSummary>, SourceError>,
    )
        ensures
            match answer {
                Ok(ss) => {
                    &&& crate::selection::candidates_view(final(self).candidates@)
                        == crate::selection::candidates_view(old(self).candidates@) + scored(
                        order,
                        crate::output::summaries_view(ss@),
                    )
                    &&& final(self).failures@ == old(self).failures@
                },
                Err(e) => {
                    &&& final(self).candidates@ == old(self).candidates@
                    &&& final(self).failures@ == old(self).failures@.push((key, e))
                },
            },
    {
        match answer {
            Ok(ss) => {
                let ghost sv = crate::output::summaries_view(ss@);
                let ghost start = crate::selection::candidates_view(self.candidates@);
                let mut rest = ss;
                let mut taken: Vec<TaskSummary> = Vec::new();
                proof {
                    assert(sv.take(0) =~= Seq::<SummaryView>::empty());
                    assert(start + scored(order, sv.take(0)) =~= start);
                }
                // Move the summaries out front to back.
                let ghost total = sv.len();
                let mut k: usize = 0;
                let n = rest.len();
                while k < n
                    invariant
                        n == total,
                        total == sv.len(),
                        k <= n,
                        rest@.len() == n - k,
                        crate::output::summaries_view(rest@) == sv.skip(k as int),
                        crate::selection::candidates_view(self.candidates@) == start + scored(
                            order,
                            sv.take(k as int),
                        ),
                        self.failures@ == old(self).failures@,
                    decreases n - k,
                {
                    proof {
                        assert(crate::output::summaries_view(rest@)[0] == rest@[0]@);
                    }
                    let ghost before_rest = rest@;
                    let s = rest.remove(0);
                    proof {
                        assert(s@ == sv[k as int]);
                        assert forall|j: int| 0 <= j < rest@.len() implies #[trigger] crate::output::summaries_view(
                            rest@,
                        )[j] == sv.skip(k + 1)[j] by {
                            assert(rest@[j] == before_rest[j + 1]);
                            assert(crate::output::summaries_view(before_rest)[j + 1] == before_rest[j + 1]@);
                        }
                        assert(crate::output::summaries_view(rest@) =~= sv.skip(k + 1));
                    }
                    let ghost before = crate::selection::candidates_view(self.candidates@);
                    self.candidates.push(ScoredCandidate { source_order: order, summary: s });
                    proof {
                        assert(crate::selection::candidates_view(self.candidates@) =~= before.push(
                            CandidateView { source_order: order, summary: sv[k as int] },
                        ));
                        assert(scored(order, sv.take(k + 1)) =~= scored(order, sv.take(k as int)).push(
                            CandidateView { source_order: order, summary: sv[k as int] },
                        ));
                        assert(crate::selection::candidates_view(self.candidates@) =~= start + scored(
                            order,
                            sv.take(k + 1),
                        ));
                    }
                    k = k + 1;
                }
                proof {
                    assert(sv.take(total as int) =~= sv);
                }
            },
            Err(e) => {
                self.failures.push((key, e));
            },
        }
    }

    /// The summaries gathered, in order (what `list` shows).
    pub fn summaries(self) -> (r: Vec<TaskSummary>)
        ensures
            crate::output::summaries_view(r@) == crate::selection::candidates_view(
                self.candidates@,
            ).map_values(|c: CandidateView| c.summary),
    {
        let ghost cv = crate::selection::candidates_view(self.candidates@);
        let mut rest = self.candidates;
        let mut out: Vec<TaskSummary> = Vec::new();
        let n = rest.len();
        let mut k: usize = 0;
        while k < n
            invariant
                k <= n,
                n == cv.len(),
                rest@.len() == n - k,
                crate::selection::candidates_view(rest@) == cv.skip(k as int),
                crate::output::summaries_view(out@) == cv.take(k as int).map_values(
                    |c: CandidateView| c.summary,
                ),
            decreases n - k,
        {
            proof {
                assert(crate::selection::candidates_view(rest@)[0] == rest@[0]@);
            }
            let ghost before_rest = rest@;
            let c = rest.remove(0);
            proof {
                assert(c@ == cv[k as int]);
                assert forall|j: int| 0 <= j < rest@.len() implies #[trigger] crate::selection::candidates_view(
                    rest@,
                )[j] == cv.skip(k + 1)[j] by {
                    assert(rest@[j] == before_rest[j + 1]);
                    assert(crate::selection::candidates_view(before_rest)[j + 1] == before_rest[j + 1]@);
                }
                assert(crate::selection::candidates_view(rest@) =~= cv.skip(k + 1));
            }
            let ghost before = crate::output::summaries_view(out@);
            out.push(c.summary);
            proof {
                assert(crate::output::summaries_view(out@) =~= before.push(cv[k as int].summary));
                assert(cv.take(k + 1).map_values(|c: CandidateView| c.summary) =~= cv.take(
                    k as int,
                ).map_values(|c: CandidateView| c.summary).push(cv[k as int].summary));
            }
            k = k + 1;
        }
        proof {
            assert(cv.take(n as int) =~= cv);
        }
        out
    }
}

} // verus!
