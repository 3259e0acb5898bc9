use dungeoncrawl::geometry::Point;
use dungeoncrawl::level::{advance_level_entities, EntityRecord};
use dungeoncrawl::turn_state::{after_reset, end_turn, input_outcome, EndTurnCheck, TurnState};

fn check(hp: i32, pos: Point, goal: Option<Point>, on_exit: bool) -> EndTurnCheck {
    EndTurnCheck { player_health: hp, player_pos: pos, goal, on_exit }
}

#[test]
fn death_on_goal_is_game_over() {
    let p = Point::new(4, 4);
    let c = check(0, p, Some(p), true);
    assert_eq!(end_turn(TurnState::EnemyTurn, &c), TurnState::GameOver);
}

#[test]
fn enemy_turn_precedence() {
    let p = Point::new(4, 4);
    assert_eq!(end_turn(TurnState::EnemyTurn, &check(5, p, Some(p), true)), TurnState::Victory);
    assert_eq!(
        end_turn(TurnState::EnemyTurn, &check(5, p, Some(Point::new(1, 1)), true)),
        TurnState::NextLevel
    );
    assert_eq!(end_turn(TurnState::EnemyTurn, &check(5, p, None, false)), TurnState::AwaitingInput);
    assert_eq!(end_turn(TurnState::EnemyTurn, &check(-3, p, None, false)), TurnState::GameOver);
}

#[test]
fn player_turn_hands_over_to_enemies() {
    let p = Point::new(4, 4);
    assert_eq!(end_turn(TurnState::PlayerTurn, &check(0, p, Some(p), true)), TurnState::EnemyTurn);
    assert_eq!(end_turn(TurnState::AwaitingInput, &check(0, p, None, false)), TurnState::AwaitingInput);
    assert_eq!(end_turn(TurnState::Victory, &check(0, p, None, false)), TurnState::Victory);
}

#[test]
fn waiting_without_action_stays() {
    assert_eq!(input_outcome(TurnState::AwaitingInput, false), TurnState::AwaitingInput);
    assert_eq!(input_outcome(TurnState::AwaitingInput, true), TurnState::PlayerTurn);
    assert_eq!(input_outcome(TurnState::EnemyTurn, true), TurnState::PlayerTurn);
}

#[test]
fn resets_return_to_waiting() {
    assert_eq!(after_reset(TurnState::NextLevel, false), TurnState::AwaitingInput);
    assert_eq!(after_reset(TurnState::GameOver, true), TurnState::AwaitingInput);
    assert_eq!(after_reset(TurnState::GameOver, false), TurnState::GameOver);
    assert_eq!(after_reset(TurnState::Victory, true), TurnState::AwaitingInput);
    assert_eq!(after_reset(TurnState::PlayerTurn, true), TurnState::PlayerTurn);
}

#[test]
fn level_change_keeps_player_and_inventory() {
    let entities = vec![
        EntityRecord { id: 1, carried_by: None },
        EntityRecord { id: 2, carried_by: Some(1) },
        EntityRecord { id: 3, carried_by: None },
        EntityRecord { id: 4, carried_by: Some(3) },
        EntityRecord { id: 5, carried_by: Some(1) },
    ];
    let (keep, remove) = advance_level_entities(1, &entities);
    let mut keep = keep;
    keep.sort();
    let mut remove = remove;
    remove.sort();
    assert_eq!(keep, vec![1, 2, 5]);
    assert_eq!(remove, vec![3, 4]);
}
