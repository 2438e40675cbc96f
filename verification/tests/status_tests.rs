use crewgame::entities::Color;
use crewgame::game::GameState;
use crewgame::status::{DayState, GameStatus, PlayState, Team, VoteTarget};
use crewgame::uuid::UUID;
use crewgame::vec2::Position;

fn uuid(tag: u8) -> UUID {
    let mut v = [0u8; 16];
    v[0] = tag;
    UUID { v }
}

#[test]
fn countdown_saturates_at_zero() {
    let mut status = GameStatus::Playing(PlayState::Day(DayState::new(100)));
    status.progress_time(250);
    match status {
        GameStatus::Playing(PlayState::Day(d)) => assert_eq!(d.time_remaining, 0),
        _ => panic!("the phase must stay a day"),
    }
}

#[test]
fn countdown_drops_by_the_elapsed_time() {
    let mut status = GameStatus::Playing(PlayState::Day(DayState::new(120_000_000)));
    status.progress_time(16_000);
    match status {
        GameStatus::Playing(PlayState::Day(d)) => assert_eq!(d.time_remaining, 119_984_000),
        _ => panic!("the phase must stay a day"),
    }
}

#[test]
fn countdown_leaves_other_statuses_alone() {
    let mut status = GameStatus::Lobby;
    status.progress_time(1_000_000);
    assert_eq!(status, GameStatus::Lobby);
}

#[test]
fn only_won_and_disconnected_are_finished() {
    assert!(!GameStatus::Connecting.finished());
    assert!(!GameStatus::Lobby.finished());
    assert!(!GameStatus::Playing(PlayState::Night).finished());
    assert!(GameStatus::Won(Team::Crew).finished());
    assert!(GameStatus::Won(Team::Impostors).finished());
    assert!(GameStatus::Disconnected.finished());
}

#[test]
fn same_kind_ignores_what_a_status_carries() {
    let day = GameStatus::Playing(PlayState::Day(DayState::new(5)));
    let night = GameStatus::Playing(PlayState::Night);
    assert!(day.is_same_kind(&night));
    assert!(GameStatus::Won(Team::Crew).is_same_kind(&GameStatus::Won(Team::Impostors)));
    assert!(!GameStatus::Lobby.is_same_kind(&night));
}

fn roster_of_two() -> GameState {
    let mut g = GameState::new();
    g.status = GameStatus::Lobby;
    let joined = g.add_player(crewgame::entities::Player::new(
        uuid(1),
        "ada".to_string(),
        Color::Red,
        Position { x: 1_000_000, y: 1_000_000 },
    ));
    assert!(joined);
    let joined = g.add_player(crewgame::entities::Player::new(
        uuid(2),
        "grace".to_string(),
        Color::Blue,
        Position { x: 2_000_000, y: 1_000_000 },
    ));
    assert!(joined);
    g
}

#[test]
fn day_does_not_end_while_time_remains_and_a_living_player_has_not_voted() {
    let g = roster_of_two();
    let mut day = DayState::new(120_000_000);
    day.cast_vote(uuid(1), VoteTarget::Skip);
    assert!(!g.is_day_over(&day));
}

#[test]
fn day_ends_when_every_living_player_has_voted() {
    let g = roster_of_two();
    let mut day = DayState::new(120_000_000);
    day.cast_vote(uuid(1), VoteTarget::Skip);
    day.cast_vote(uuid(2), VoteTarget::Skip);
    assert!(g.is_day_over(&day));
}

#[test]
fn day_ends_when_the_countdown_runs_out_even_with_no_votes() {
    let g = roster_of_two();
    let day = DayState::new(0);
    assert!(g.is_day_over(&day));
}

#[test]
fn the_dead_are_not_waited_for() {
    let mut g = roster_of_two();
    g.players[1].dead = true;
    let mut day = DayState::new(120_000_000);
    day.cast_vote(uuid(1), VoteTarget::Skip);
    assert!(g.is_day_over(&day));
}
