use vstd::prelude::*;

verus! {

/// The trailing bound of the active window found by scanning down from `end`: the largest
/// `n <= end` such that `n == 0` or the off-diagonal entry `n - 1` is still coupled.
pub open spec fn trailing_end(coupled: Seq<bool>, end: int) -> int
    decreases end,
{
    if end <= 0 {
        0
    } else if coupled[end - 1] {
        end
    } else {
        trailing_end(coupled, end - 1)
    }
}

/// The leading bound of the active window found by scanning down from `s`: the largest
/// `k <= s` such that `k == 0` or the off-diagonal entry `k - 1` is negligible.
pub open spec fn leading_start(negligible: Seq<bool>, s: int) -> int
    decreases s,
{
    if s <= 0 {
        0
    } else if negligible[s - 1] {
        s
    } else {
        leading_start(negligible, s - 1)
    }
}

/// The window `(start, end)` that the two scans give for the trailing index `end`.
pub open spec fn delimit(coupled: Seq<bool>, negligible: Seq<bool>, end: int) -> (int, int) {
    let n = trailing_end(coupled, end);
    if n == 0 {
        (0, 0)
    } else {
        (leading_start(negligible, n - 1), n)
    }
}

/// The still-unconverged block `[start, end]` of a tridiagonal matrix, and the off-diagonal
/// entry that was found negligible just before `start`, which the caller sets to zero.
#[derive(Clone, Copy, Debug, PartialEq, Eq)]
pub struct Subproblem {
    pub start: usize,
    pub end: usize,
    pub split: Option<usize>,
}

proof fn lemma_trailing_end_bounds(coupled: Seq<bool>, end: int)
    requires
        end >= 0,
    ensures
        0 <= trailing_end(coupled, end) <= end,
        trailing_end(coupled, end) == 0 || coupled[trailing_end(coupled, end) - 1],
        forall|k: int|
            trailing_end(coupled, end) < k <= end ==> !#[trigger] coupled[k - 1],
    decreases end,
{
    if end > 0 && !coupled[end - 1] {
        lemma_trailing_end_bounds(coupled, end - 1);
    }
}

proof fn lemma_leading_start_bounds(negligible: Seq<bool>, s: int)
    requires
        s >= 0,
    ensures
        0 <= leading_start(negligible, s) <= s,
        leading_start(negligible, s) == 0 || negligible[leading_start(negligible, s) - 1],
        forall|k: int|
            leading_start(negligible, s) < k <= s ==> !#[trigger] negligible[k - 1],
    decreases s,
{
    if s > 0 && !negligible[s - 1] {
        lemma_leading_start_bounds(negligible, s - 1);
    }
}

/// Finds the active window ending at or below `end`.
///
/// Entry `m` of `coupled` tells whether off-diagonal entry `m` still exceeds the tolerance
/// relative to its two diagonal neighbours; entry `m` of `negligible` tells whether it is
/// zero or within that tolerance. Scanning down from `end`, the first coupled entry fixes
/// the window's trailing bound; if none is found, everything has converged and the window is
/// empty. Otherwise the scan continues down to the first negligible entry, which splits the
/// matrix: it is reported in `split` and the window starts just after it.
pub fn delimit_subproblem(coupled: &Vec<bool>, negligible: &Vec<bool>, end: usize) -> (r:
    Subproblem)
    requires
        end <= coupled@.len(),
        end <= negligible@.len(),
    ensures
        (r.start as int, r.end as int) == delimit(coupled@, negligible@, end as int),
        r.start <= r.end <= end,
        r.end == 0 ==> r.start == 0,
        r.end > 0 ==> r.start < r.end,
        r.split == (if r.start > 0 {
            Some((r.start - 1) as usize)
        } else {
            None
        }),
        forall|k: int| r.end < k <= end ==> !#[trigger] coupled@[k - 1],
        r.end == 0 || coupled@[r.end - 1],
        forall|k: int| r.start < k < r.end ==> !#[trigger] negligible@[k - 1],
        r.start == 0 || negligible@[r.start - 1],
{
    let mut n: usize = end;
    while n > 0
        invariant
            n <= end <= coupled@.len(),
            trailing_end(coupled@, end as int) == trailing_end(coupled@, n as int),
        ensures
            n == 0 || coupled@[n - 1],
        decreases n,
    {
        if coupled[n - 1] {
            break;
        }
        n -= 1;
    }
    proof {
        lemma_trailing_end_bounds(coupled@, end as int);
    }
    if n == 0 {
        return Subproblem { start: 0, end: 0, split: None };
    }
    let mut new_start: usize = n - 1;
    while new_start > 0
        invariant
            new_start < n <= end <= negligible@.len(),
            leading_start(negligible@, (n - 1) as int) == leading_start(
                negligible@,
                new_start as int,
            ),
        ensures
            new_start == 0 || negligible@[new_start - 1],
        decreases new_start,
    {
        if negligible[new_start - 1] {
            break;
        }
        new_start -= 1;
    }
    proof {
        lemma_leading_start_bounds(negligible@, (n - 1) as int);
    }
    let split = if new_start > 0 {
        Some(new_start - 1)
    } else {
        None
    };
    Subproblem { start: new_start, end: n, split }
}

} // verus!
