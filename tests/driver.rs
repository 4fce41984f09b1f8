use symmetric_eigen::driver::{EigenDriver, Step};

#[test]
fn one_by_one_matrix_needs_no_iteration() {
    let (d, split) = EigenDriver::new(&vec![], &vec![], 0);
    assert_eq!(split, None);
    assert_eq!(d.next_step(), Step::Converged);
    assert_eq!(d.iterations(), 0);
}

#[test]
fn diagonal_matrix_is_converged_at_once() {
    // diag(3, 1, 2): both off-diagonal entries are zero
    let (d, split) = EigenDriver::new(&vec![false, false], &vec![true, true], 0);
    assert_eq!(split, None);
    assert_eq!((d.start(), d.end()), (0, 0));
    assert_eq!(d.next_step(), Step::Converged);
}

#[test]
fn three_by_three_sweeps_then_solves_the_pair() {
    let (mut d, _) = EigenDriver::new(&vec![true, true], &vec![false, false], 0);
    assert_eq!(d.next_step(), Step::Sweep { start: 0, end: 2 });
    // the sweep made the trailing entry negligible
    let split = d.advance(true, &vec![true, false], &vec![false, true]);
    assert_eq!(split, None);
    assert_eq!(d.next_step(), Step::SolvePair { start: 0 });
    let split = d.advance(false, &vec![false, false], &vec![true, true]);
    assert_eq!(split, None);
    assert_eq!(d.next_step(), Step::Converged);
    assert_eq!(d.iterations(), 2);
}

#[test]
fn sweep_without_convergence_keeps_the_window() {
    let (mut d, _) = EigenDriver::new(&vec![true, true], &vec![false, false], 0);
    d.advance(false, &vec![true, true], &vec![false, false]);
    assert_eq!(d.next_step(), Step::Sweep { start: 0, end: 2 });
    assert_eq!(d.iterations(), 1);
}

fn run_with_budget(max_niter: usize) -> Step {
    let (mut d, _) = EigenDriver::new(&vec![true, true], &vec![false, false], max_niter);
    let mut k: usize = 0;
    loop {
        match d.next_step() {
            Step::Sweep { .. } => {
                // the first two sweeps make no progress, the third converges the tail
                k += 1;
                if k < 3 {
                    d.advance(false, &vec![true, true], &vec![false, false]);
                } else {
                    d.advance(true, &vec![true, false], &vec![false, true]);
                }
            }
            Step::SolvePair { .. } => {
                d.advance(false, &vec![false, false], &vec![true, true]);
            }
            other => return other,
        }
    }
}

#[test]
fn budget_below_needed_iterations_gives_no_result() {
    // four iterations are needed: three sweeps and one pair
    assert_eq!(run_with_budget(1), Step::IterationLimit);
    assert_eq!(run_with_budget(3), Step::IterationLimit);
}

#[test]
fn budget_equal_to_needed_iterations_converges() {
    assert_eq!(run_with_budget(4), Step::Converged);
}

#[test]
fn budget_above_needed_iterations_or_unbounded_converges() {
    assert_eq!(run_with_budget(5), Step::Converged);
    assert_eq!(run_with_budget(100), Step::Converged);
    assert_eq!(run_with_budget(0), Step::Converged);
}

#[test]
fn iteration_count_spans_all_windows() {
    // four entries, split into two coupled pairs by a negligible middle entry
    let (mut d, split) =
        EigenDriver::new(&vec![true, false, true], &vec![false, true, false], 0);
    assert_eq!(split, Some(1));
    assert_eq!(d.next_step(), Step::SolvePair { start: 2 });
    let split = d.advance(false, &vec![true, false, false], &vec![false, true, true]);
    assert_eq!(split, None);
    assert_eq!(d.next_step(), Step::SolvePair { start: 0 });
    assert_eq!(d.iterations(), 1);
    d.advance(false, &vec![false, false, false], &vec![true, true, true]);
    assert_eq!(d.next_step(), Step::Converged);
    assert_eq!(d.iterations(), 2);
}

#[test]
fn pair_solved_on_the_last_allowed_iteration_converges() {
    let (mut d, _) = EigenDriver::new(&vec![true], &vec![false], 1);
    assert_eq!(d.next_step(), Step::SolvePair { start: 0 });
    d.advance(false, &vec![false], &vec![true]);
    assert_eq!(d.next_step(), Step::Converged);
    assert_eq!(d.iterations(), 1);
}

#[test]
fn budget_of_one_stops_an_unfinished_sweep() {
    let (mut d, _) = EigenDriver::new(&vec![true, true], &vec![false, false], 1);
    d.advance(false, &vec![true, true], &vec![false, false]);
    assert_eq!(d.next_step(), Step::IterationLimit);
}
