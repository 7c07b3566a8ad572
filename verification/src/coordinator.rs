//! The concurrent search coordinator, as a step-by-step state machine.
//!
//! A driver that runs candidate tasks concurrently (on whatever runtime it
//! likes) goes through this machine for every decision: admission of a task
//! under the concurrency ceiling, the choice of the next target to attempt,
//! the first-success report that raises the cancellation signal, and the
//! run's terminal value. Every step preserves [`Coordinator::wf`], which
//! bounds the number of admitted tasks by `max_concurrency` and ties the
//! recorded report to the cancellation signal; the decode attempts themselves
//! happen outside, between steps.

use vstd::prelude::*;
use crate::search::{ConfigError, SearchResult};

verus! {

/// Where one candidate's task stands in its life cycle.
#[derive(Clone, Copy, Debug)]
pub enum TaskPhase {
    /// Not yet admitted by the bounded executor.
    Waiting,
    /// Holding a slot; `next_target` is the first target not yet attempted.
    Admitted { next_target: usize },
    /// Done; its slot has been handed back.
    Finished,
}

/// How many tasks of the run currently hold a slot.
pub open spec fn count_admitted(s: Seq<TaskPhase>) -> nat
    decreases s.len(),
{
    if s.len() == 0 {
        0
    } else {
        count_admitted(s.drop_last()) + if s.last() is Admitted {
            1nat
        } else {
            0nat
        }
    }
}

proof fn lemma_count_admitted_push(s: Seq<TaskPhase>, v: TaskPhase)
    ensures
        count_admitted(s.push(v)) == count_admitted(s) + if v is Admitted {
            1nat
        } else {
            0nat
        },
{
    assert(s.push(v).drop_last() =~= s);
}

proof fn lemma_count_admitted_update(s: Seq<TaskPhase>, i: int, v: TaskPhase)
    requires
        0 <= i < s.len(),
    ensures
        count_admitted(s.update(i, v)) + (if s[i] is Admitted {
            1nat
        } else {
            0nat
        }) == count_admitted(s) + (if v is Admitted {
            1nat
        } else {
            0nat
        }),
    decreases s.len(),
{
    if i == s.len() - 1 {
        assert(s.update(i, v).drop_last() =~= s.drop_last());
    } else {
        lemma_count_admitted_update(s.drop_last(), i, v);
        assert(s.update(i, v).drop_last() =~= s.drop_last().update(i, v));
        assert(s.update(i, v).last() == s.last());
    }
}

/// The settings of a run, fixed at creation.
pub struct RunShape {
    pub max_concurrency: usize,
    pub num_targets: usize,
}

/// The shared state of one search run: the phase of every candidate's task,
/// the slot count of the bounded executor, the cancellation signal, and the
/// first success report.
pub struct Coordinator {
    pub shape: RunShape,
    pub tasks: Vec<TaskPhase>,
    pub slots_held: usize,
    pub cancelled: bool,
    pub report: Option<(usize, usize)>,
}

/// An admitted task never points past the end of the target list.
pub open spec fn task_wf(t: TaskPhase, num_targets: usize) -> bool {
    t matches TaskPhase::Admitted { next_target } ==> next_target <= num_targets
}

/// The first target an admitted task has not attempted yet.
pub open spec fn next_of(t: TaskPhase) -> usize {
    t->next_target
}

impl Coordinator {
    /// The invariant every step preserves. In particular: the slot counter
    /// agrees with the number of admitted tasks and never exceeds the
    /// ceiling, and a recorded report implies the cancellation signal.
    pub open spec fn wf(self) -> bool {
        &&& 1 <= self.shape.max_concurrency
        &&& self.slots_held == count_admitted(self.tasks@)
        &&& self.slots_held <= self.shape.max_concurrency
        &&& forall|i: int|
            0 <= i < self.tasks@.len() ==> task_wf(
                #[trigger] self.tasks@[i],
                self.shape.num_targets,
            )
        &&& (self.report is Some ==> self.cancelled)
        &&& (self.report matches Some(p) ==> p.0 < self.tasks@.len() && p.1
            < self.shape.num_targets)
    }

    /// Every candidate's task has completed and handed its slot back.
    pub open spec fn all_finished(self) -> bool {
        forall|i: int| 0 <= i < self.tasks@.len() ==> (#[trigger] self.tasks@[i]) is Finished
    }

    /// The parts of the state a step never changes.
    pub open spec fn same_shape(self, other: Coordinator) -> bool {
        &&& self.shape == other.shape
        &&& self.tasks@.len() == other.tasks@.len()
    }

    /// Set up a run for `num_candidates` candidate passwords against
    /// `num_targets` targets, under the given concurrency ceiling. A ceiling
    /// of zero is rejected as a configuration error before any task exists.
    pub fn new(num_candidates: usize, num_targets: usize, max_concurrency: usize) -> (r: Result<
        Coordinator,
        ConfigError,
    >)
        ensures
            r is Err <==> max_concurrency == 0,
            r matches Ok(c) ==> {
                &&& c.wf()
                &&& c.shape.max_concurrency == max_concurrency
                &&& c.shape.num_targets == num_targets
                &&& c.tasks@.len() == num_candidates
                &&& forall|i: int|
                    0 <= i < num_candidates ==> (#[trigger] c.tasks@[i]) is Waiting
                &&& c.slots_held == 0
                &&& !c.cancelled
                &&& c.report is None
            },
    {
        if max_concurrency == 0 {
            return Err(ConfigError::ZeroConcurrency);
        }
        let mut tasks: Vec<TaskPhase> = Vec::new();
        let mut i: usize = 0;
        while i < num_candidates
            invariant
                i <= num_candidates,
                tasks@.len() == i,
                forall|j: int| 0 <= j < i ==> (#[trigger] tasks@[j]) is Waiting,
                count_admitted(tasks@) == 0,
            decreases num_candidates - i,
        {
            proof {
                lemma_count_admitted_push(tasks@, TaskPhase::Waiting);
            }
            tasks.push(TaskPhase::Waiting);
            i += 1;
        }
        Ok(
            Coordinator {
                shape: RunShape { max_concurrency, num_targets },
                tasks,
                slots_held: 0,
                cancelled: false,
                report: None,
            },
        )
    }

    /// Admit the first candidate still waiting, if no success has been
    /// reported yet and a slot is free. Returns the admitted candidate's
    /// index, or `None` when admission must wait (ceiling reached), nothing
    /// is left to admit, or the run has been cancelled — once the signal is
    /// set, no new task is admitted.
    pub fn try_admit(&mut self) -> (r: Option<usize>)
        requires
            old(self).wf(),
        ensures
            final(self).wf(),
            final(self).same_shape(*old(self)),
            final(self).cancelled == old(self).cancelled,
            final(self).report == old(self).report,
            r matches Some(i) ==> {
                &&& i < old(self).tasks@.len()
                &&& old(self).tasks@[i as int] is Waiting
                &&& forall|j: int|
                    0 <= j < i ==> !((#[trigger] old(self).tasks@[j]) is Waiting)
                &&& !old(self).cancelled
                &&& old(self).slots_held < old(self).shape.max_concurrency
                &&& final(self).tasks@ == old(self).tasks@.update(
                    i as int,
                    TaskPhase::Admitted { next_target: 0 },
                )
                &&& final(self).slots_held == old(self).slots_held + 1
            },
            r is None ==> {
                &&& final(self).tasks@ == old(self).tasks@
                &&& final(self).slots_held == old(self).slots_held
                &&& (old(self).cancelled || old(self).slots_held
                    == old(self).shape.max_concurrency || forall|j: int|
                    0 <= j < old(self).tasks@.len() ==> !((#[trigger] old(
                        self,
                    ).tasks@[j]) is Waiting))
            },
    {
        if self.cancelled {
            return None;
        }
        if self.slots_held == self.shape.max_concurrency {
            return None;
        }
        let n: usize = self.tasks.len();
        let mut i: usize = 0;
        let mut admit_at: Option<usize> = None;
        while i < n && admit_at.is_none()
            invariant
                n == self.tasks@.len(),
                i <= n,
                admit_at is None ==> forall|j: int|
                    0 <= j < i ==> !((#[trigger] self.tasks@[j]) is Waiting),
                admit_at matches Some(k) ==> {
                    &&& k < n
                    &&& self.tasks@[k as int] is Waiting
                    &&& forall|j: int|
                        0 <= j < k ==> !((#[trigger] self.tasks@[j]) is Waiting)
                },
            decreases
                    n - i,
                    (if admit_at is None {
                        1int
                    } else {
                        0int
                    }),
        {
            let t = self.tasks[i];
            match t {
                TaskPhase::Waiting => {
                    admit_at = Some(i);
                },
                _ => {
                    i += 1;
                },
            }
        }
        match admit_at {
            Some(k) => {
                proof {
                    lemma_count_admitted_update(
                        self.tasks@,
                        k as int,
                        TaskPhase::Admitted { next_target: 0 },
                    );
                }
                self.tasks.set(k, TaskPhase::Admitted { next_target: 0 });
                self.slots_held = self.slots_held + 1;
                Some(k)
            },
            None => None,
        }
    }

    /// One admitted task asks what to do next. Returns the next target to
    /// attempt — and advances past it — or `None` when the task must stop:
    /// either the cancellation signal is set or its targets are exhausted.
    /// In the `None` case the task is finished and its slot handed back.
    pub fn begin_attempt(&mut self, i: usize) -> (r: Option<usize>)
        requires
            old(self).wf(),
            i < old(self).tasks@.len(),
            old(self).tasks@[i as int] is Admitted,
        ensures
            final(self).wf(),
            final(self).same_shape(*old(self)),
            final(self).cancelled == old(self).cancelled,
            final(self).report == old(self).report,
            r matches Some(t) ==> {
                &&& !old(self).cancelled
                &&& t == next_of(old(self).tasks@[i as int])
                &&& t < old(self).shape.num_targets
                &&& final(self).tasks@ == old(self).tasks@.update(
                    i as int,
                    TaskPhase::Admitted { next_target: (t + 1) as usize },
                )
                &&& final(self).slots_held == old(self).slots_held
            },
            r is None ==> {
                &&& (old(self).cancelled || next_of(old(self).tasks@[i as int]) == old(
                    self,
                ).shape.num_targets)
                &&& final(self).tasks@ == old(self).tasks@.update(i as int, TaskPhase::Finished)
                &&& final(self).slots_held == old(self).slots_held - 1
            },
    {
        let t = self.tasks[i];
        let next: usize = match t {
            TaskPhase::Admitted { next_target } => next_target,
            _ => {
                proof {
                    assert(false);
                }
                0
            },
        };
        if self.cancelled || next == self.shape.num_targets {
            proof {
                lemma_count_admitted_update(self.tasks@, i as int, TaskPhase::Finished);
            }
            self.tasks.set(i, TaskPhase::Finished);
            self.slots_held = self.slots_held - 1;
            None
        } else {
            proof {
                lemma_count_admitted_update(
                    self.tasks@,
                    i as int,
                    TaskPhase::Admitted { next_target: (next + 1) as usize },
                );
            }
            self.tasks.set(i, TaskPhase::Admitted { next_target: next + 1 });
            Some(next)
        }
    }

    /// An admitted task reports that target `t` opened with its candidate.
    /// The cancellation signal is raised (it never resets within a run), the
    /// first report is kept — a late duplicate is ignored, never an error —
    /// and the reporting task finishes, handing its slot back.
    pub fn report_success(&mut self, i: usize, t: usize)
        requires
            old(self).wf(),
            i < old(self).tasks@.len(),
            old(self).tasks@[i as int] is Admitted,
            t < old(self).shape.num_targets,
        ensures
            final(self).wf(),
            final(self).same_shape(*old(self)),
            final(self).cancelled,
            final(self).tasks@ == old(self).tasks@.update(i as int, TaskPhase::Finished),
            final(self).slots_held == old(self).slots_held - 1,
            old(self).report is Some ==> final(self).report == old(self).report,
            old(self).report is None ==> final(self).report == Some((i, t)),
    {
        self.cancelled = true;
        if self.report.is_none() {
            self.report = Some((i, t));
        }
        proof {
            lemma_count_admitted_update(self.tasks@, i as int, TaskPhase::Finished);
        }
        self.tasks.set(i, TaskPhase::Finished);
        self.slots_held = self.slots_held - 1;
    }

    /// The run's terminal value. A recorded report yields `Found` at once —
    /// in-flight tasks may still be unwinding — while `NotFound` is produced
    /// only once every task has completed with nothing ever reported.
    pub fn conclude(&self) -> (r: SearchResult)
        requires
            self.wf(),
            self.report is Some || self.all_finished(),
        ensures
            self.report matches Some(p) ==> r == (SearchResult::Found {
                candidate: p.0,
                target: p.1,
            }),
            self.report is None ==> r is NotFound && self.all_finished(),
    {
        match self.report {
            Some(p) => SearchResult::Found { candidate: p.0, target: p.1 },
            None => SearchResult::NotFound,
        }
    }

    /// Whether the cancellation signal has been raised.
    pub fn is_cancelled(&self) -> (r: bool)
        ensures
            r == self.cancelled,
    {
        self.cancelled
    }

    /// How many tasks currently hold a slot.
    pub fn slots_in_use(&self) -> (r: usize)
        ensures
            r == self.slots_held,
    {
        self.slots_held
    }

    /// How many candidate tasks the run owns.
    pub fn candidate_count(&self) -> (r: usize)
        ensures
            r == self.tasks@.len(),
    {
        self.tasks.len()
    }

    /// Whether candidate `i`'s task currently holds a slot.
    pub fn is_admitted(&self, i: usize) -> (r: bool)
        ensures
            r == (i < self.tasks@.len() && self.tasks@[i as int] is Admitted),
    {
        if i >= self.tasks.len() {
            return false;
        }
        let t = self.tasks[i];
        match t {
            TaskPhase::Admitted { .. } => true,
            _ => false,
        }
    }

    /// Whether every candidate's task has completed.
    pub fn all_tasks_finished(&self) -> (r: bool)
        ensures
            r == self.all_finished(),
    {
        let n: usize = self.tasks.len();
        let mut i: usize = 0;
        while i < n
            invariant
                n == self.tasks@.len(),
                i <= n,
                forall|j: int| 0 <= j < i ==> (#[trigger] self.tasks@[j]) is Finished,
            decreases n - i,
        {
            let t = self.tasks[i];
            match t {
                TaskPhase::Finished => {
                    i += 1;
                },
                _ => {
                    return false;
                },
            }
        }
        true
    }
}

/// Bounded concurrency: in every well-formed state — and every step keeps the
/// state well-formed — at most `max_concurrency` tasks hold a slot.
pub proof fn lemma_bounded_concurrency(c: Coordinator)
    requires
        c.wf(),
    ensures
        count_admitted(c.tasks@) <= c.shape.max_concurrency,
{
}

} // verus!
