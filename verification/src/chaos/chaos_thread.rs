use vstd::prelude::*;

verus! {

/// The commands that the chaos worker takes from its user.
#[derive(Clone, Copy, PartialEq, Eq, Structural, Debug)]
pub enum ChaosCommand {
    CreateNew,
    RestartCurrent,
    Pause,
    Step,
}

/// What the chaos worker is doing: searching for a chaotic map (with the
/// number of iterations the current candidate has survived), displaying
/// one, paused, or about to take a single step.
#[derive(Clone, Copy, PartialEq, Eq, Structural, Debug)]
pub enum RunState {
    Searching(u32),
    Displaying,
    Paused,
    Step,
}

/// What the worker must do to its points after a decision.
#[derive(Clone, Copy, PartialEq, Eq, Structural, Debug)]
pub enum ChaosAction {
    /// Keep the points as they are.
    Keep,
    /// Replace the points and the map by a new candidate for the search.
    NewSearch,
    /// Replace the points by a fresh cloud for display, keeping the map.
    RestartDisplay,
}

/// The iterations that survive before a candidate is put on display.
pub const SEARCH_ITERATIONS: u32 = 500;

/// Whether the points move this tick.
pub open spec fn spec_should_step(state: RunState, max_iterations: Option<u32>, iter_num: u32) -> bool {
    state != RunState::Paused && match max_iterations {
        None => true,
        Some(i) => i < iter_num,
    }
}

/// The state and action after a tick's step.
pub open spec fn spec_after_step(state: RunState, heuristic_ok: bool) -> (RunState, ChaosAction) {
    match state {
        RunState::Searching(n) => if !heuristic_ok {
            (RunState::Searching(0), ChaosAction::NewSearch)
        } else if n > SEARCH_ITERATIONS {
            (RunState::Displaying, ChaosAction::RestartDisplay)
        } else {
            (RunState::Searching((n + 1) as u32), ChaosAction::Keep)
        },
        RunState::Displaying => (RunState::Displaying, ChaosAction::Keep),
        RunState::Paused => (RunState::Paused, ChaosAction::Keep),
        RunState::Step => (RunState::Paused, ChaosAction::Keep),
    }
}

/// The state and action after a command.
pub open spec fn spec_apply_command(state: RunState, command: ChaosCommand) -> (RunState, ChaosAction) {
    match command {
        ChaosCommand::CreateNew => (RunState::Searching(0), ChaosAction::NewSearch),
        ChaosCommand::RestartCurrent => (state, ChaosAction::RestartDisplay),
        ChaosCommand::Pause => if state == RunState::Paused {
            (RunState::Displaying, ChaosAction::Keep)
        } else {
            (RunState::Paused, ChaosAction::Keep)
        },
        ChaosCommand::Step => (RunState::Step, ChaosAction::Keep),
    }
}

impl RunState {
    /// Whether the worker is searching, the only state in which the chaos
    /// heuristic is consulted.
    pub fn is_searching(&self) -> (r: bool)
        ensures
            r == (*self is Searching),
    {
        match self {
            RunState::Searching(_) => true,
            _ => false,
        }
    }
}

/// Whether the points move this tick: not while paused, and only while the
/// iteration limit, if there is one, lies below the iteration count.
pub fn should_step(state: RunState, max_iterations: Option<u32>, iter_num: u32) -> (r: bool)
    ensures
        r == spec_should_step(state, max_iterations, iter_num),
{
    state != RunState::Paused && match max_iterations {
        None => true,
        Some(i) => i < iter_num,
    }
}

/// The state after a tick's step. A searching worker counts the iteration;
/// when the heuristic rejects the points it starts a new search, and once
/// the candidate has survived more than `SEARCH_ITERATIONS` iterations it
/// puts a fresh cloud on display. A single step ends paused. `heuristic_ok`
/// is only read while searching.
pub fn after_step(state: RunState, heuristic_ok: bool) -> (r: (RunState, ChaosAction))
    requires
        state matches RunState::Searching(n) ==> n < u32::MAX,
    ensures
        r == spec_after_step(state, heuristic_ok),
{
    match state {
        RunState::Searching(iter_count) => {
            let mut next = RunState::Searching(iter_count + 1);
            let mut action = ChaosAction::Keep;
            if !heuristic_ok {
                next = RunState::Searching(0);
                action = ChaosAction::NewSearch;
            } else if iter_count > SEARCH_ITERATIONS {
                next = RunState::Displaying;
                action = ChaosAction::RestartDisplay;
            }
            (next, action)
        },
        RunState::Displaying => (RunState::Displaying, ChaosAction::Keep),
        RunState::Paused => (RunState::Paused, ChaosAction::Keep),
        RunState::Step => (RunState::Paused, ChaosAction::Keep),
    }
}

/// The state after a command. `CreateNew` starts a new search, `RestartCurrent`
/// puts a fresh cloud through the current map, `Pause` toggles between
/// paused and displaying, and `Step` asks for a single step.
pub fn apply_command(state: RunState, command: ChaosCommand) -> (r: (RunState, ChaosAction))
    ensures
        r == spec_apply_command(state, command),
{
    match command {
        ChaosCommand::CreateNew => (RunState::Searching(0), ChaosAction::NewSearch),
        ChaosCommand::RestartCurrent => (state, ChaosAction::RestartDisplay),
        ChaosCommand::Pause => {
            if state == RunState::Paused {
                (RunState::Displaying, ChaosAction::Keep)
            } else {
                (RunState::Paused, ChaosAction::Keep)
            }
        },
        ChaosCommand::Step => (RunState::Step, ChaosAction::Keep),
    }
}

/// The state after `k` ticks in which the heuristic accepts the points.
pub open spec fn accepted_ticks(state: RunState, k: nat) -> RunState
    decreases k,
{
    if k == 0 {
        state
    } else {
        spec_after_step(accepted_ticks(state, (k - 1) as nat), true).0
    }
}

/// Pausing twice leaves a paused or displaying worker as it was; any other
/// worker ends up displaying.
pub proof fn lemma_pause_twice(state: RunState)
    ensures
        ({
            let once = spec_apply_command(state, ChaosCommand::Pause).0;
            let twice = spec_apply_command(once, ChaosCommand::Pause).0;
            &&& (state == RunState::Paused || state == RunState::Displaying) ==> twice == state
            &&& !(state == RunState::Paused || state == RunState::Displaying) ==> twice
                == RunState::Displaying
            &&& once != state
        }),
{
}

/// A step command moves the points exactly once, where the iteration limit
/// allows it, and then the worker is paused and stays still.
pub proof fn lemma_single_step(state: RunState, max_iterations: Option<u32>, iter_num: u32, next_iter_num: u32, heuristic_ok: bool)
    ensures
        ({
            let stepping = spec_apply_command(state, ChaosCommand::Step).0;
            &&& stepping == RunState::Step
            &&& spec_should_step(stepping, max_iterations, iter_num) == match max_iterations {
                None => true,
                Some(i) => i < iter_num,
            }
            &&& spec_after_step(stepping, heuristic_ok) == (RunState::Paused, ChaosAction::Keep)
            &&& !spec_should_step(spec_after_step(stepping, heuristic_ok).0, max_iterations, next_iter_num)
        }),
{
}

/// A rejected candidate always restarts the search with a new one.
pub proof fn lemma_rejection_restarts(n: u32)
    ensures
        spec_after_step(RunState::Searching(n), false) == (RunState::Searching(0), ChaosAction::NewSearch),
{
}

/// A new search whose points the heuristic keeps accepting counts up one
/// iteration per tick, and goes on display at tick `SEARCH_ITERATIONS + 2`,
/// not before.
pub proof fn lemma_search_reaches_display(k: nat)
    ensures
        k <= SEARCH_ITERATIONS + 1 ==> accepted_ticks(RunState::Searching(0), k) == RunState::Searching(
            k as u32,
        ),
        k == SEARCH_ITERATIONS + 2 ==> accepted_ticks(RunState::Searching(0), k) == RunState::Displaying,
    decreases k,
{
    if k > 0 {
        lemma_search_reaches_display((k - 1) as nat);
    }
}

/// The points move on every tick except while paused, whatever else the
/// worker is doing (searching, displaying or taking a single step): then
/// exactly when there is no iteration limit or the limit lies below the
/// iteration count.
pub proof fn lemma_should_step_only_pauses(state: RunState, max_iterations: Option<u32>, iter_num: u32)
    ensures
        state == RunState::Paused ==> !spec_should_step(state, max_iterations, iter_num),
        state != RunState::Paused ==> (spec_should_step(state, max_iterations, iter_num) <==> (
        max_iterations is None || max_iterations.unwrap() < iter_num)),
        forall|other: RunState|
            state != RunState::Paused && other != RunState::Paused ==> spec_should_step(
                state,
                max_iterations,
                iter_num,
            ) == spec_should_step(other, max_iterations, iter_num),
{
}

/// Outside a search the heuristic is ignored: a displaying worker keeps
/// displaying and keeps its points, a paused worker stays paused with its
/// points, and a single step ends paused, whatever the heuristic says.
pub proof fn lemma_heuristic_only_while_searching(state: RunState, heuristic_ok: bool)
    ensures
        !(state is Searching) ==> spec_after_step(state, heuristic_ok) == spec_after_step(state, !heuristic_ok),
        !(state is Searching) ==> spec_after_step(state, heuristic_ok).1 == ChaosAction::Keep,
        spec_after_step(RunState::Displaying, heuristic_ok) == (RunState::Displaying, ChaosAction::Keep),
        spec_after_step(RunState::Paused, heuristic_ok) == (RunState::Paused, ChaosAction::Keep),
        spec_after_step(RunState::Step, heuristic_ok) == (RunState::Paused, ChaosAction::Keep),
{
}

/// Restarting the current map puts a fresh cloud through it and leaves the
/// worker in the state it was in; asking for a new map always starts a new
/// search from its first iteration.
pub proof fn lemma_restart_keeps_state(state: RunState)
    ensures
        spec_apply_command(state, ChaosCommand::RestartCurrent) == (state, ChaosAction::RestartDisplay),
        spec_apply_command(state, ChaosCommand::CreateNew) == (RunState::Searching(0), ChaosAction::NewSearch),
        spec_apply_command(state, ChaosCommand::Pause).1 == ChaosAction::Keep,
        spec_apply_command(state, ChaosCommand::Step).1 == ChaosAction::Keep,
{
}

} // verus!

