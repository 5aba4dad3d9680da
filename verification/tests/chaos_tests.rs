use voxels::chaos::chaos_thread::{
    after_step, apply_command, should_step, ChaosAction, ChaosCommand, RunState, SEARCH_ITERATIONS,
};
use voxels::chaos::maps::polynomial_maps::monomial_exponents;
use voxels::chaos::maps::ChaosMap;
use voxels::chaos::ChaoticPoints;

struct Double;

impl ChaosMap<i64> for Double {
    fn spec_apply(&self, input: i64) -> i64 {
        2 * input
    }

    fn apply(&self, input: &i64) -> i64 {
        2 * input
    }
}

#[test]
fn points_move_once_per_step() {
    let mut points = ChaoticPoints::new(vec![1i64, -3, 5], Double);
    assert_eq!(points.get_iter_num(), 0);
    points.step();
    points.step();
    assert_eq!(points.points, vec![4, -12, 20]);
    assert_eq!(points.get_iter_num(), 2);
}

#[test]
fn copy_from_takes_everything() {
    let mut points = ChaoticPoints::new(vec![1i64], Double);
    let mut other = ChaoticPoints::new(vec![7i64, 8], Double);
    other.step();
    points.copy_from(other);
    assert_eq!(points.points, vec![14, 16]);
    assert_eq!(points.get_iter_num(), 1);
}

#[test]
fn paused_workers_do_not_step() {
    assert!(!should_step(RunState::Paused, None, 0));
    assert!(should_step(RunState::Displaying, None, 0));
    assert!(should_step(RunState::Step, None, 7));
    // with a limit, points move only once the count is past it
    assert!(!should_step(RunState::Displaying, Some(10), 10));
    assert!(should_step(RunState::Displaying, Some(10), 11));
}

#[test]
fn searching_counts_until_display() {
    assert_eq!(after_step(RunState::Searching(0), true), (RunState::Searching(1), ChaosAction::Keep));
    assert_eq!(after_step(RunState::Searching(500), true), (RunState::Searching(501), ChaosAction::Keep));
    assert_eq!(after_step(RunState::Searching(501), true), (RunState::Displaying, ChaosAction::RestartDisplay));
    let mut state = RunState::Searching(0);
    let mut ticks = 0;
    while state != RunState::Displaying {
        state = after_step(state, true).0;
        ticks += 1;
    }
    assert_eq!(ticks, SEARCH_ITERATIONS + 2);
}

#[test]
fn rejected_candidates_restart_the_search() {
    assert_eq!(after_step(RunState::Searching(300), false), (RunState::Searching(0), ChaosAction::NewSearch));
}

#[test]
fn other_states_hold_after_a_step() {
    assert_eq!(after_step(RunState::Displaying, false), (RunState::Displaying, ChaosAction::Keep));
    assert_eq!(after_step(RunState::Paused, true), (RunState::Paused, ChaosAction::Keep));
    assert_eq!(after_step(RunState::Step, true), (RunState::Paused, ChaosAction::Keep));
}

#[test]
fn commands_change_the_state() {
    assert_eq!(apply_command(RunState::Displaying, ChaosCommand::CreateNew), (RunState::Searching(0), ChaosAction::NewSearch));
    assert_eq!(apply_command(RunState::Paused, ChaosCommand::RestartCurrent), (RunState::Paused, ChaosAction::RestartDisplay));
    assert_eq!(apply_command(RunState::Displaying, ChaosCommand::Pause), (RunState::Paused, ChaosAction::Keep));
    assert_eq!(apply_command(RunState::Paused, ChaosCommand::Pause), (RunState::Displaying, ChaosAction::Keep));
    assert_eq!(apply_command(RunState::Searching(4), ChaosCommand::Step), (RunState::Step, ChaosAction::Keep));
}

#[test]
fn pausing_twice_resumes() {
    let once = apply_command(RunState::Displaying, ChaosCommand::Pause).0;
    assert_eq!(apply_command(once, ChaosCommand::Pause).0, RunState::Displaying);
    let once = apply_command(RunState::Searching(9), ChaosCommand::Pause).0;
    assert_eq!(apply_command(once, ChaosCommand::Pause).0, RunState::Displaying);
}

#[test]
fn a_step_command_steps_once_then_pauses() {
    let stepping = apply_command(RunState::Paused, ChaosCommand::Step).0;
    assert!(should_step(stepping, None, 0));
    let after = after_step(stepping, true).0;
    assert_eq!(after, RunState::Paused);
    assert!(!should_step(after, None, 1));
}

#[test]
fn searching_is_recognised() {
    assert!(RunState::Searching(3).is_searching());
    assert!(!RunState::Step.is_searching());
}

#[test]
fn exponents_of_quadratic_maps_in_two_variables() {
    let terms = monomial_exponents(2, 2);
    let expected: Vec<Vec<usize>> = vec![
        vec![0, 0],
        vec![1, 0],
        vec![0, 1],
        vec![2, 0],
        vec![1, 1],
        vec![0, 2],
        vec![0, 2],
    ];
    assert_eq!(terms, expected);
}

#[test]
fn exponents_in_one_variable() {
    let terms = monomial_exponents(1, 3);
    let expected: Vec<Vec<usize>> = vec![vec![0], vec![1], vec![2], vec![3], vec![3]];
    assert_eq!(terms, expected);
}

#[test]
fn exponents_cover_every_monomial_once() {
    let terms = monomial_exponents(3, 2);
    // ten monomials of degree at most two in three variables, the last repeated
    assert_eq!(terms.len(), 11);
    assert_eq!(terms[9], terms[10]);
    for t in &terms {
        assert_eq!(t.len(), 3);
        assert!(t.iter().sum::<usize>() <= 2);
    }
    for k in 0..10 {
        for l in (k + 1)..10 {
            assert_ne!(terms[k], terms[l]);
        }
    }
}

#[test]
fn order_zero_has_only_the_constant() {
    let terms = monomial_exponents(2, 0);
    let expected: Vec<Vec<usize>> = vec![vec![0, 0], vec![0, 0]];
    assert_eq!(terms, expected);
}
