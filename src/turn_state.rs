use vstd::prelude::*;
use crate::geometry::Point;

verus! {

/// The phase the simulation runs this tick.
#[derive(Clone, Copy, Debug, PartialEq, Eq, Structural)]
pub enum TurnState {
    AwaitingInput,
    PlayerTurn,
    EnemyTurn,
    NextLevel,
    GameOver,
    Victory,
}

/// What the end-of-turn evaluation reads about the player.
#[derive(Clone, Copy, Debug, PartialEq, Eq, Structural)]
pub struct EndTurnCheck {
    pub player_health: i32,
    pub player_pos: Point,
    /// Where the goal lies; only the final level has one.
    pub goal: Option<Point>,
    /// Whether the player stands on an exit tile.
    pub on_exit: bool,
}

/// Death first, then reaching the goal, then taking the exit.
pub open spec fn end_of_turn_outcome(c: EndTurnCheck) -> TurnState {
    if c.player_health <= 0 {
        TurnState::GameOver
    } else if c.goal == Some(c.player_pos) {
        TurnState::Victory
    } else if c.on_exit {
        TurnState::NextLevel
    } else {
        TurnState::AwaitingInput
    }
}

pub open spec fn end_turn_spec(current: TurnState, c: EndTurnCheck) -> TurnState {
    match current {
        TurnState::PlayerTurn => TurnState::EnemyTurn,
        TurnState::EnemyTurn => end_of_turn_outcome(c),
        _ => current,
    }
}

pub open spec fn input_outcome_spec(current: TurnState, acted: bool) -> TurnState {
    if acted {
        TurnState::PlayerTurn
    } else {
        current
    }
}

pub fn evaluate_end_of_turn(c: &EndTurnCheck) -> (r: TurnState)
    ensures
        r == end_of_turn_outcome(*c),
{
    if c.player_health <= 0 {
        TurnState::GameOver
    } else if c.goal == Some(c.player_pos) {
        TurnState::Victory
    } else if c.on_exit {
        TurnState::NextLevel
    } else {
        TurnState::AwaitingInput
    }
}

/// The state after a phase's systems have run: the player's turn hands over
/// to the enemies, and the enemies' turn ends in the evaluation above.
pub fn end_turn(current: TurnState, c: &EndTurnCheck) -> (r: TurnState)
    ensures
        r == end_turn_spec(current, *c),
{
    match current {
        TurnState::PlayerTurn => TurnState::EnemyTurn,
        TurnState::EnemyTurn => evaluate_end_of_turn(c),
        _ => current,
    }
}

/// The state after input handling: an action starts the player's turn,
/// no action leaves the state as it was.
pub fn input_outcome(current: TurnState, acted: bool) -> (r: TurnState)
    ensures
        r == input_outcome_spec(current, acted),
{
    if acted {
        TurnState::PlayerTurn
    } else {
        current
    }
}

/// The state once a level has been rebuilt, or a finished game restarted.
pub fn after_reset(current: TurnState, restart_pressed: bool) -> (r: TurnState)
    ensures
        current == TurnState::NextLevel ==> r == TurnState::AwaitingInput,
        (current == TurnState::GameOver || current == TurnState::Victory) ==> r == (
        if restart_pressed {
            TurnState::AwaitingInput
        } else {
            current
        }),
        (current == TurnState::AwaitingInput || current == TurnState::PlayerTurn || current
            == TurnState::EnemyTurn) ==> r == current,
{
    match current {
        TurnState::NextLevel => TurnState::AwaitingInput,
        TurnState::GameOver | TurnState::Victory => {
            if restart_pressed {
                TurnState::AwaitingInput
            } else {
                current
            }
        },
        _ => current,
    }
}

/// What a tick runs in each state.
#[derive(Clone, Copy, Debug, PartialEq, Eq, Structural)]
pub enum Phase {
    InputSystems,
    PlayerSystems,
    EnemySystems,
    AdvanceLevel,
    GameOverScreen,
    VictoryScreen,
}

/// Exactly one system group, or one terminal screen, per state.
pub fn phase_for(state: TurnState) -> (p: Phase)
    ensures
        p == match state {
            TurnState::AwaitingInput => Phase::InputSystems,
            TurnState::PlayerTurn => Phase::PlayerSystems,
            TurnState::EnemyTurn => Phase::EnemySystems,
            TurnState::NextLevel => Phase::AdvanceLevel,
            TurnState::GameOver => Phase::GameOverScreen,
            TurnState::Victory => Phase::VictoryScreen,
        },
{
    match state {
        TurnState::AwaitingInput => Phase::InputSystems,
        TurnState::PlayerTurn => Phase::PlayerSystems,
        TurnState::EnemyTurn => Phase::EnemySystems,
        TurnState::NextLevel => Phase::AdvanceLevel,
        TurnState::GameOver => Phase::GameOverScreen,
        TurnState::Victory => Phase::VictoryScreen,
    }
}

/// The transition table: waiting without an action stays waiting, the
/// player's turn always hands over to the enemies, and the enemies' turn
/// ends in exactly one of waiting, defeat, victory or the next level, in
/// that order of precedence: death over the goal, the goal over the exit.
pub proof fn lemma_transition_table(c: EndTurnCheck)
    ensures
        input_outcome_spec(TurnState::AwaitingInput, false) == TurnState::AwaitingInput,
        end_turn_spec(TurnState::PlayerTurn, c) == TurnState::EnemyTurn,
        ({
            let r = end_turn_spec(TurnState::EnemyTurn, c);
            r == TurnState::AwaitingInput || r == TurnState::GameOver || r == TurnState::Victory
                || r == TurnState::NextLevel
        }),
        c.player_health <= 0 ==> end_turn_spec(TurnState::EnemyTurn, c) == TurnState::GameOver,
        c.player_health > 0 && c.goal == Some(c.player_pos) ==> end_turn_spec(
            TurnState::EnemyTurn,
            c,
        ) == TurnState::Victory,
        c.player_health > 0 && c.goal != Some(c.player_pos) && c.on_exit ==> end_turn_spec(
            TurnState::EnemyTurn,
            c,
        ) == TurnState::NextLevel,
        c.player_health > 0 && c.goal != Some(c.player_pos) && !c.on_exit ==> end_turn_spec(
            TurnState::EnemyTurn,
            c,
        ) == TurnState::AwaitingInput,
{
}

/// A dead player loses even when standing on the goal or an exit.
pub proof fn lemma_death_overrides(c: EndTurnCheck)
    requires
        c.player_health <= 0,
    ensures
        end_turn_spec(TurnState::EnemyTurn, c) == TurnState::GameOver,
        end_turn_spec(TurnState::EnemyTurn, c) != TurnState::Victory,
{
}

} // verus!
