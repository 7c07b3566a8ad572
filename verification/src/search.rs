//! End-to-end classification of a password search run.
//!
//! A run tries every candidate password against every target archive until
//! one attempt succeeds. `run_search` takes the outcomes the decoder would
//! report — one boolean per candidate/target pair — and drives the
//! [`crate::coordinator`] state machine over them in candidate-major order,
//! returning the run's terminal value: the first successful pair in that
//! order, or `NotFound` when no pair succeeds. The spec functions here pin
//! down what that answer is, and the lemmas state the laws every run obeys.

use vstd::prelude::*;
use crate::coordinator::{next_of, Coordinator};

verus! {

/// Terminal value of a run: the candidate/target pair first observed to
/// succeed, or exhaustion of the whole dictionary with no success.
#[derive(Clone, Copy, Debug, PartialEq, Eq)]
pub enum SearchResult {
    Found { candidate: usize, target: usize },
    NotFound,
}

/// A configuration rejected before any work is started.
#[derive(Clone, Copy, Debug, PartialEq, Eq)]
pub enum ConfigError {
    ZeroConcurrency,
}

/// The outcome matrix as a sequence of rows, one row per candidate.
pub open spec fn matrix_of(rows: Seq<Vec<bool>>) -> Seq<Seq<bool>> {
    Seq::new(rows.len(), |c: int| rows[c]@)
}

/// Some target in this candidate's row succeeds.
pub open spec fn row_has_success(row: Seq<bool>) -> bool {
    exists|t: int| 0 <= t < row.len() && row[t]
}

/// Some candidate opens some target.
pub open spec fn matrix_has_success(m: Seq<Seq<bool>>) -> bool {
    exists|c: int| 0 <= c < m.len() && row_has_success(m[c])
}

/// `(c, t)` is the first successful pair in candidate-major order: the
/// attempt succeeds, no earlier candidate succeeds anywhere, and no earlier
/// target succeeds for this candidate.
pub open spec fn is_first_success(m: Seq<Seq<bool>>, c: int, t: int) -> bool {
    &&& 0 <= c < m.len()
    &&& 0 <= t < m[c].len()
    &&& m[c][t]
    &&& forall|c2: int| 0 <= c2 < c ==> !row_has_success(m[c2])
    &&& forall|t2: int| 0 <= t2 < t ==> !m[c][t2]
}

/// What a finished run reports for the outcome matrix `m`: `Found` exactly
/// when some pair succeeds, and then the first such pair in candidate-major
/// order; `NotFound` exactly when every attempt fails.
pub open spec fn search_post(m: Seq<Seq<bool>>, r: SearchResult) -> bool {
    &&& (r is Found <==> matrix_has_success(m))
    &&& (r matches SearchResult::Found { candidate, target } ==> is_first_success(
        m,
        candidate as int,
        target as int,
    ))
}

/// Run a whole search: every candidate's row of `outcomes` holds, for each
/// of the `num_targets` targets in order, whether the decode attempt with
/// that candidate would succeed. The run goes through the
/// [`crate::coordinator::Coordinator`] for every decision — admission under
/// the ceiling, the next target to attempt, the success report, the terminal
/// value — performing the attempts in candidate-major order. A ceiling of
/// zero is a configuration error, rejected before any task exists; otherwise
/// the run returns the first successful candidate/target pair in that order,
/// or `NotFound` when no candidate opens any target.
pub fn run_search(outcomes: &Vec<Vec<bool>>, num_targets: usize, max_concurrency: usize) -> (r:
    Result<SearchResult, ConfigError>)
    requires
        forall|c: int| 0 <= c < outcomes@.len() ==> (#[trigger] outcomes@[c])@.len() == num_targets,
    ensures
        r is Err <==> max_concurrency == 0,
        r matches Ok(res) ==> search_post(matrix_of(outcomes@), res),
{
    let mut run = match Coordinator::new(outcomes.len(), num_targets, max_concurrency) {
        Ok(run) => run,
        Err(e) => {
            return Err(e);
        },
    };
    let ghost m = matrix_of(outcomes@);
    let n: usize = outcomes.len();
    let mut c: usize = 0;
    while c < n
        invariant
            max_concurrency != 0,
            n == outcomes@.len(),
            forall|c2: int| 0 <= c2 < n ==> (#[trigger] outcomes@[c2])@.len() == num_targets,
            m == matrix_of(outcomes@),
            c <= n,
            run.wf(),
            run.shape.num_targets == num_targets,
            run.tasks@.len() == n,
            run.slots_held == 0,
            !run.cancelled,
            run.report is None,
            forall|j: int| 0 <= j < c ==> (#[trigger] run.tasks@[j]) is Finished,
            forall|j: int| c <= j < n ==> (#[trigger] run.tasks@[j]) is Waiting,
            forall|c2: int| 0 <= c2 < c ==> !row_has_success(m[c2]),
        decreases n - c,
    {
        let admitted = run.try_admit();
        let i: usize = match admitted {
            Some(i) => i,
            None => {
                proof {
                    assert(false);
                }
                0
            },
        };
        proof {
            // Admission is first-come-first-served: tasks before `c` are
            // finished and task `c` still waits, so `c` is the one admitted.
            assert(i == c);
        }
        while run.is_admitted(i)
            invariant
                max_concurrency != 0,
                n == outcomes@.len(),
                forall|c2: int| 0 <= c2 < n ==> (#[trigger] outcomes@[c2])@.len() == num_targets,
                m == matrix_of(outcomes@),
                i == c < n,
                run.wf(),
                run.shape.num_targets == num_targets,
                run.tasks@.len() == n,
                !run.cancelled,
                run.report is None,
                forall|j: int| 0 <= j < c ==> (#[trigger] run.tasks@[j]) is Finished,
                forall|j: int| c < j < n ==> (#[trigger] run.tasks@[j]) is Waiting,
                forall|c2: int| 0 <= c2 < c ==> !row_has_success(m[c2]),
                run.tasks@[c as int] is Admitted ==> run.slots_held == 1 && forall|t2: int|
                    0 <= t2 < next_of(run.tasks@[c as int]) ==> !m[c as int][t2],
                !(run.tasks@[c as int] is Admitted) ==> run.tasks@[c as int] is Finished
                    && run.slots_held == 0 && !row_has_success(m[c as int]),
            decreases
                    (if run.tasks@[c as int] is Admitted {
                        1int
                    } else {
                        0int
                    }),
                    (if run.tasks@[c as int] is Admitted {
                        num_targets - next_of(run.tasks@[c as int])
                    } else {
                        0int
                    }),
        {
            let next = run.begin_attempt(i);
            match next {
                Some(t) => {
                    if outcomes[i][t] {
                        run.report_success(i, t);
                        proof {
                            assert(m[c as int][t as int]);
                            assert(matrix_has_success(m)) by {
                                assert(row_has_success(m[c as int])) by {
                                    assert(m[c as int][t as int]);
                                }
                            }
                            assert(is_first_success(m, c as int, t as int));
                        }
                        let res = run.conclude();
                        return Ok(res);
                    }
                    proof {
                        assert(!m[c as int][t as int]);
                    }
                },
                None => {
                    proof {
                        // The task ran out of targets: its whole row failed.
                        assert(forall|t2: int|
                            0 <= t2 < num_targets ==> !m[c as int][t2]);
                        assert(!row_has_success(m[c as int]));
                    }
                },
            }
        }
        c += 1;
    }
    proof {
        assert(!matrix_has_success(m)) by {
            assert(forall|c2: int| 0 <= c2 < m.len() ==> !row_has_success(m[c2]));
        }
    }
    let res = run.conclude();
    Ok(res)
}

/// When exactly one candidate is correct and every target requires it, the
/// run returns `Found` with that candidate (and its first target).
pub proof fn lemma_unique_candidate_is_found(m: Seq<Seq<bool>>, c: int, r: SearchResult)
    requires
        0 <= c < m.len(),
        m[c].len() > 0,
        forall|t: int| 0 <= t < m[c].len() ==> m[c][t],
        forall|c2: int| 0 <= c2 < m.len() && c2 != c ==> !row_has_success(m[c2]),
        search_post(m, r),
    ensures
        r == (SearchResult::Found { candidate: c as usize, target: 0 as usize }),
{
    assert(matrix_has_success(m)) by {
        assert(row_has_success(m[c])) by {
            assert(m[c][0]);
        }
    }
    if let SearchResult::Found { candidate, target } = r {
        assert(is_first_success(m, candidate as int, target as int));
        if candidate != c {
            assert(row_has_success(m[candidate as int])) by {
                assert(m[candidate as int][target as int]);
            }
        }
        assert(candidate == c);
        assert(target == 0) by {
            if target > 0 {
                assert(!m[c][0]);
            }
        }
    }
}

/// When no candidate opens any target, the run ends in `NotFound`, and only
/// after the whole matrix has been exhausted with zero successes.
pub proof fn lemma_exhaustion_yields_not_found(m: Seq<Seq<bool>>, r: SearchResult)
    requires
        forall|c: int| 0 <= c < m.len() ==> !row_has_success(m[c]),
        search_post(m, r),
    ensures
        r is NotFound,
{
    assert(!matrix_has_success(m));
}

/// Idempotence: two runs over the same outcomes report the same result — in
/// particular the same `Found` / `NotFound` classification.
pub proof fn lemma_search_idempotent(m: Seq<Seq<bool>>, r1: SearchResult, r2: SearchResult)
    requires
        search_post(m, r1),
        search_post(m, r2),
    ensures
        r1 == r2,
        r1 is Found <==> r2 is Found,
{
    if let SearchResult::Found { candidate: c1, target: t1 } = r1 {
        if let SearchResult::Found { candidate: c2, target: t2 } = r2 {
            assert(is_first_success(m, c1 as int, t1 as int));
            assert(is_first_success(m, c2 as int, t2 as int));
            if c1 < c2 {
                assert(row_has_success(m[c1 as int])) by {
                    assert(m[c1 as int][t1 as int]);
                }
            }
            if c2 < c1 {
                assert(row_has_success(m[c2 as int])) by {
                    assert(m[c2 as int][t2 as int]);
                }
            }
            assert(c1 == c2);
            assert(t1 == t2) by {
                if t1 < t2 {
                    assert(!m[c2 as int][t1 as int]);
                } else if t2 < t1 {
                    assert(!m[c1 as int][t2 as int]);
                }
            }
        }
    }
}

} // verus!
