use vstd::prelude::*;

use crate::deflation::{delimit, delimit_subproblem, Subproblem};

verus! {

/// What the eigen-iteration asks its caller to do next.
#[derive(Clone, Copy, Debug, PartialEq, Eq)]
pub enum Step {
    /// One implicit QR sweep over the window `[start, end]`, which holds at least three entries.
    Sweep { start: usize, end: usize },
    /// The closed-form solution of the two-entry window `[start, start + 1]`.
    SolvePair { start: usize },
    /// Every off-diagonal entry is negligible: the diagonal holds the eigenvalues.
    Converged,
    /// The iteration budget is spent while a window is still open: no decomposition is
    /// produced.
    IterationLimit,
}

/// The mathematical state of the iteration: the active window `[start, end]`, the number of
/// iterations performed over the whole matrix, the budget (`0` for none) and the number of
/// off-diagonal entries.
pub struct DriverState {
    pub start: int,
    pub end: int,
    pub niter: int,
    pub max_niter: int,
    pub size: int,
}

/// What the caller observed after performing one step: whether the trailing off-diagonal
/// entry of a swept window became negligible, and the two scan flags of every off-diagonal
/// entry of the updated matrix.
pub struct Observation {
    pub trailing_negligible: bool,
    pub coupled: Seq<bool>,
    pub negligible: Seq<bool>,
}

pub open spec fn well_formed(s: DriverState) -> bool {
    &&& 0 <= s.start <= s.end <= s.size < usize::MAX
    &&& (s.end == 0 ==> s.start == 0)
    &&& (s.end > 0 ==> s.start < s.end)
    &&& 0 <= s.niter <= usize::MAX
    &&& 0 <= s.max_niter <= usize::MAX
    &&& (s.max_niter == 0 || s.niter <= s.max_niter)
}

/// The budget is spent once the global iteration count reaches a nonzero cap.
pub open spec fn exhausted(s: DriverState) -> bool {
    s.max_niter > 0 && s.niter == s.max_niter
}

/// Every off-diagonal entry has been found negligible.
pub open spec fn window_closed(s: DriverState) -> bool {
    s.start == s.end
}

/// Some window is still open and the budget allows working on it.
pub open spec fn is_active(s: DriverState) -> bool {
    !exhausted(s) && !window_closed(s)
}

pub open spec fn next_step_of(s: DriverState) -> Step {
    if window_closed(s) {
        Step::Converged
    } else if exhausted(s) {
        Step::IterationLimit
    } else if s.end - s.start + 1 > 2 {
        Step::Sweep { start: s.start as usize, end: s.end as usize }
    } else {
        Step::SolvePair { start: s.start as usize }
    }
}

/// The state before the first iteration: the window is delimited from the last index.
pub open spec fn initial(coupled: Seq<bool>, negligible: Seq<bool>, max_niter: int) -> DriverState {
    let w = delimit(coupled, negligible, coupled.len() as int);
    DriverState { start: w.0, end: w.1, niter: 0, max_niter, size: coupled.len() as int }
}

/// The state after one step: a pair is always solved, so its window loses its last index; a
/// swept window loses it only where the trailing entry became negligible. The window is then
/// delimited anew and the global iteration count goes up by one.
pub open spec fn advance(s: DriverState, o: Observation) -> DriverState {
    let end = if s.end - s.start + 1 > 2 && !o.trailing_negligible {
        s.end
    } else {
        s.end - 1
    };
    let w = delimit(o.coupled, o.negligible, end);
    DriverState {
        start: w.0,
        end: w.1,
        niter: if s.niter < usize::MAX {
            s.niter + 1
        } else {
            s.niter
        },
        max_niter: s.max_niter,
        size: s.size,
    }
}

/// The state after the first `j` observations.
pub open spec fn run(s: DriverState, obs: Seq<Observation>, j: int) -> DriverState
    decreases j,
{
    if j <= 0 {
        s
    } else {
        advance(run(s, obs, j - 1), obs[j - 1])
    }
}

/// Where the iteration ends when fed the observations from index `i` on: the step asked for
/// once it stops being active or the observations run out.
pub open spec fn outcome(s: DriverState, obs: Seq<Observation>, i: int) -> Step
    decreases obs.len() - i,
{
    if 0 <= i < obs.len() && is_active(s) {
        outcome(advance(s, obs[i]), obs, i + 1)
    } else {
        next_step_of(s)
    }
}

proof fn lemma_run_ignores_budget(
    coupled: Seq<bool>,
    negligible: Seq<bool>,
    max_niter: int,
    obs: Seq<Observation>,
    j: int,
)
    requires
        0 <= j < usize::MAX,
    ensures
        run(initial(coupled, negligible, max_niter), obs, j).start == run(
            initial(coupled, negligible, 0),
            obs,
            j,
        ).start,
        run(initial(coupled, negligible, max_niter), obs, j).end == run(
            initial(coupled, negligible, 0),
            obs,
            j,
        ).end,
        run(initial(coupled, negligible, max_niter), obs, j).niter == j,
        run(initial(coupled, negligible, max_niter), obs, j).max_niter == max_niter,
    decreases j,
{
    if j > 0 {
        lemma_run_ignores_budget(coupled, negligible, max_niter, obs, j - 1);
        lemma_run_ignores_budget(coupled, negligible, 0, obs, j - 1);
    }
}

proof fn lemma_outcome_after(s: DriverState, obs: Seq<Observation>, j: int)
    requires
        0 <= j <= obs.len(),
        forall|i: int| 0 <= i < j ==> #[trigger] is_active(run(s, obs, i)),
    ensures
        outcome(s, obs, 0) == outcome(run(s, obs, j), obs, j),
    decreases j,
{
    if j > 0 {
        lemma_outcome_after(s, obs, j - 1);
        assert(is_active(run(s, obs, j - 1)));
    }
}

/// The iteration budget alone decides between a decomposition and none. Fed the same
/// observations, a matrix whose window first closes after `k` iterations when no budget is
/// set converges under a budget of `0` (none) or of at least `k` iterations, and runs out of
/// iterations under any smaller budget. A window that closes on the last allowed iteration
/// still gives a decomposition.
pub proof fn lemma_budget_decides_outcome(
    coupled: Seq<bool>,
    negligible: Seq<bool>,
    max_niter: usize,
    obs: Seq<Observation>,
    k: int,
)
    requires
        0 <= k <= obs.len(),
        k < usize::MAX,
        forall|j: int|
            0 <= j < k ==> !#[trigger] window_closed(run(initial(coupled, negligible, 0), obs, j)),
        window_closed(run(initial(coupled, negligible, 0), obs, k)),
    ensures
        outcome(initial(coupled, negligible, max_niter as int), obs, 0) == (if max_niter == 0
            || max_niter >= k {
            Step::Converged
        } else {
            Step::IterationLimit
        }),
{
    let s = initial(coupled, negligible, max_niter as int);
    let stop = if max_niter == 0 || max_niter >= k {
        k
    } else {
        max_niter as int
    };
    assert forall|i: int| 0 <= i < stop implies #[trigger] is_active(run(s, obs, i)) by {
        lemma_run_ignores_budget(coupled, negligible, max_niter as int, obs, i);
        assert(!window_closed(run(initial(coupled, negligible, 0), obs, i)));
    }
    lemma_outcome_after(s, obs, stop);
    lemma_run_ignores_budget(coupled, negligible, max_niter as int, obs, stop);
    if stop == k {
        assert(window_closed(run(s, obs, k)));
    } else {
        assert(!window_closed(run(initial(coupled, negligible, 0), obs, stop)));
        assert(!window_closed(run(s, obs, stop)));
    }
}

/// The control state of the eigen-iteration over a symmetric tridiagonal matrix.
pub struct EigenDriver {
    start: usize,
    end: usize,
    niter: usize,
    max_niter: usize,
    size: usize,
}

impl View for EigenDriver {
    type V = DriverState;

    closed spec fn view(&self) -> DriverState {
        DriverState {
            start: self.start as int,
            end: self.end as int,
            niter: self.niter as int,
            max_niter: self.max_niter as int,
            size: self.size as int,
        }
    }
}

pub open spec fn split_before(start: int) -> Option<usize> {
    if start > 0 {
        Some((start - 1) as usize)
    } else {
        None
    }
}

impl EigenDriver {
    pub open spec fn wf(&self) -> bool {
        well_formed(self@)
    }

    /// Starts the iteration over a matrix whose off-diagonal entries carry the given scan
    /// flags, with `max_niter` iterations at most (`0`: no bound). Also returns the
    /// off-diagonal entry that the caller sets to zero, if the first scan split the matrix.
    pub fn new(coupled: &Vec<bool>, negligible: &Vec<bool>, max_niter: usize) -> (r: (
        EigenDriver,
        Option<usize>,
    ))
        requires
            coupled@.len() == negligible@.len(),
            coupled@.len() < usize::MAX,
        ensures
            r.0.wf(),
            r.0@ == initial(coupled@, negligible@, max_niter as int),
            r.1 == split_before(r.0@.start),
    {
        let w: Subproblem = delimit_subproblem(coupled, negligible, coupled.len());
        let d = EigenDriver {
            start: w.start,
            end: w.end,
            niter: 0,
            max_niter,
            size: coupled.len(),
        };
        (d, w.split)
    }

    /// The step to perform now.
    pub fn next_step(&self) -> (r: Step)
        requires
            self.wf(),
        ensures
            r == next_step_of(self@),
    {
        if self.start == self.end {
            Step::Converged
        } else if self.max_niter > 0 && self.niter == self.max_niter {
            Step::IterationLimit
        } else if self.end - self.start + 1 > 2 {
            Step::Sweep { start: self.start, end: self.end }
        } else {
            Step::SolvePair { start: self.start }
        }
    }

    /// Records that the step asked for was performed. `trailing_negligible` tells whether a
    /// sweep made the trailing off-diagonal entry of its window negligible; the flags scan the
    /// updated matrix. Returns the off-diagonal entry that the caller sets to zero, if the new
    /// scan split the matrix.
    pub fn advance(
        &mut self,
        trailing_negligible: bool,
        coupled: &Vec<bool>,
        negligible: &Vec<bool>,
    ) -> (split: Option<usize>)
        requires
            old(self).wf(),
            is_active(old(self)@),
            coupled@.len() == old(self)@.size,
            negligible@.len() == old(self)@.size,
        ensures
            final(self).wf(),
            final(self)@ == advance(
                old(self)@,
                Observation { trailing_negligible, coupled: coupled@, negligible: negligible@ },
            ),
            final(self)@.end <= old(self)@.end,
            old(self)@.end - old(self)@.start + 1 <= 2 || trailing_negligible ==> final(self)@.end
                < old(self)@.end,
            final(self)@.niter == (if old(self)@.niter < usize::MAX {
                old(self)@.niter + 1
            } else {
                old(self)@.niter
            }),
            split == split_before(final(self)@.start),
    {
        let mut end = self.end;
        if self.end - self.start + 1 <= 2 || trailing_negligible {
            end = end - 1;
        }
        let w: Subproblem = delimit_subproblem(coupled, negligible, end);
        self.start = w.start;
        self.end = w.end;
        if self.niter < usize::MAX {
            self.niter = self.niter + 1;
        }
        w.split
    }

    /// The first index of the active window.
    pub fn start(&self) -> (r: usize)
        ensures
            r == self@.start,
    {
        self.start
    }

    /// The last index of the active window.
    pub fn end(&self) -> (r: usize)
        ensures
            r == self@.end,
    {
        self.end
    }

    /// The number of iterations performed so far over the whole matrix.
    pub fn iterations(&self) -> (r: usize)
        ensures
            r == self@.niter,
    {
        self.niter
    }
}

} // verus!
