use crewgame::entities::{Color, DeadBody, Player, Task};
use crewgame::game::{FinishedTask, GameError, GameState, PlayerStartInfo, StartInfo};
use crewgame::status::{DayState, GameStatus, PlayState, Team, VoteTarget};
use crewgame::uuid::UUID;
use crewgame::vec2::Position;

fn uuid(tag: u8) -> UUID {
    let mut v = [0u8; 16];
    v[0] = tag;
    UUID { v }
}

fn player(tag: u8, color: Color) -> Player {
    Player::new(
        uuid(tag),
        format!("player {}", tag),
        color,
        Position { x: 1_000_000 + 100_000 * tag as i64, y: 1_000_000 },
    )
}

fn unfinished_task() -> Task {
    Task { position: Position { x: 2_000_000, y: 2_000_000 }, finished: false }
}

#[test]
fn a_fresh_session_is_connecting_and_empty() {
    let g = GameState::new();
    assert_eq!(g.status, GameStatus::Connecting);
    assert!(g.players.is_empty());
    assert!(g.bodies.is_empty());
    assert_eq!(g.settings.speed, 2);
    assert_eq!(g.settings.task_distance, 512_000);
    assert_eq!(g.settings.kill_distance, 1_024_000);
    assert_eq!(g.settings.report_distance, 1_536_000);
    assert_eq!(g.settings.voting_time, 120_000_000);
    assert_eq!(g.map.width(), 16_384_000);
    assert_eq!(g.map.height(), 12_288_000);
}

#[test]
fn a_taken_identifier_cannot_join_twice() {
    let mut g = GameState::new();
    assert!(g.add_player(player(1, Color::Red)));
    assert!(!g.add_player(player(1, Color::Blue)));
    assert_eq!(g.players.len(), 1);
}

#[test]
fn a_taken_color_cannot_join_twice() {
    let mut g = GameState::new();
    assert!(g.add_player(player(1, Color::Red)));
    assert!(!g.add_player(player(2, Color::Red)));
    assert!(g.add_player(player(2, Color::Blue)));
    assert_eq!(g.players.len(), 2);
}

#[test]
fn unanimous_crew_completion_hands_the_crew_the_win() {
    let mut g = GameState::new();
    let mut a = player(1, Color::Red);
    a.tasks = vec![unfinished_task()];
    let mut b = player(2, Color::Blue);
    b.tasks = vec![Task { position: Position { x: 0, y: 0 }, finished: true }];
    let mut c = player(3, Color::Green);
    c.impostor = true;
    assert!(g.add_player(a));
    assert!(g.add_player(b));
    assert!(g.add_player(c));
    g.status = GameStatus::Playing(PlayState::Night);
    let r = g.note_finished_task(uuid(1), FinishedTask { index: 0 });
    assert!(r.is_ok());
    assert!(g.players[0].tasks[0].finished);
    assert_eq!(g.status, GameStatus::Won(Team::Crew));
}

#[test]
fn an_unknown_task_report_is_ignored() {
    let mut g = GameState::new();
    let mut a = player(1, Color::Red);
    a.tasks = vec![unfinished_task()];
    let mut c = player(3, Color::Green);
    c.impostor = true;
    assert!(g.add_player(a));
    assert!(g.add_player(c));
    g.status = GameStatus::Playing(PlayState::Night);
    assert!(g.note_finished_task(uuid(9), FinishedTask { index: 0 }).is_ok());
    assert!(g.note_finished_task(uuid(1), FinishedTask { index: 5 }).is_ok());
    assert!(!g.players[0].tasks[0].finished);
    assert_eq!(g.status, GameStatus::Playing(PlayState::Night));
}

#[test]
fn impostor_parity_hands_the_impostors_the_win() {
    let mut g = GameState::new();
    let mut a = player(1, Color::Red);
    a.tasks = vec![unfinished_task()];
    let mut b = player(2, Color::Blue);
    b.tasks = vec![unfinished_task()];
    let mut c = player(3, Color::Green);
    c.impostor = true;
    assert!(g.add_player(a));
    assert!(g.add_player(b));
    assert!(g.add_player(c));
    g.status = GameStatus::Playing(PlayState::Night);
    let body = DeadBody { color: Color::Blue, position: Position { x: 0, y: 0 } };
    assert!(g.note_death(body).is_ok());
    assert!(g.players[1].dead);
    assert_eq!(g.bodies.len(), 1);
    assert_eq!(g.status, GameStatus::Won(Team::Impostors));
}

#[test]
fn a_death_that_keeps_the_crew_ahead_changes_no_status() {
    let mut g = GameState::new();
    for tag in 1..=3u8 {
        let mut p = player(tag, [Color::Red, Color::Blue, Color::Green][tag as usize - 1]);
        p.tasks = vec![unfinished_task()];
        assert!(g.add_player(p));
    }
    let mut c = player(4, Color::Yellow);
    c.impostor = true;
    assert!(g.add_player(c));
    g.status = GameStatus::Playing(PlayState::Night);
    let body = DeadBody { color: Color::Red, position: Position { x: 0, y: 0 } };
    assert!(g.note_death(body).is_ok());
    assert_eq!(g.status, GameStatus::Playing(PlayState::Night));
}

#[test]
fn disconnection_purges_votes_for_the_leaver() {
    let mut g = GameState::new();
    let mut a = player(1, Color::Red);
    a.tasks = vec![unfinished_task()];
    let b = player(2, Color::Blue);
    let mut c = player(3, Color::Green);
    c.impostor = true;
    let d = player(4, Color::Yellow);
    assert!(g.add_player(a));
    assert!(g.add_player(b));
    assert!(g.add_player(c));
    assert!(g.add_player(d));
    let mut day = DayState::new(120_000_000);
    day.cast_vote(uuid(1), VoteTarget::Player { uuid: uuid(4) });
    day.cast_vote(uuid(2), VoteTarget::Player { uuid: uuid(4) });
    day.cast_vote(uuid(3), VoteTarget::Skip);
    g.status = GameStatus::Playing(PlayState::Day(day));
    g.handle_disconnection(uuid(4));
    assert_eq!(g.players.len(), 3);
    match &g.status {
        GameStatus::Playing(PlayState::Day(day)) => {
            assert_eq!(day.votes.len(), 1);
            for vote in day.votes.iter() {
                match &vote.target {
                    VoteTarget::Player { uuid: t } => assert_ne!(t.v, uuid(4).v),
                    VoteTarget::Skip => {}
                }
            }
        }
        other => panic!("the day must go on, found {:?}", other),
    }
}

#[test]
fn disconnecting_the_last_player_ends_the_session() {
    let mut g = GameState::new();
    assert!(g.add_player(player(1, Color::Red)));
    g.status = GameStatus::Playing(PlayState::Night);
    g.handle_disconnection(uuid(1));
    assert_eq!(g.status, GameStatus::Disconnected);
}

#[test]
fn disconnecting_the_last_player_overrides_even_a_won_session() {
    let mut g = GameState::new();
    assert!(g.add_player(player(1, Color::Red)));
    g.status = GameStatus::Won(Team::Crew);
    g.handle_disconnection(uuid(1));
    assert_eq!(g.status, GameStatus::Disconnected);
}

#[test]
fn a_game_cannot_start_outside_the_lobby() {
    let mut g = GameState::new();
    let info = StartInfo { assignments: vec![] };
    assert_eq!(g.note_game_started(&info), Err(GameError::InvalidStateForStart));
    assert_eq!(g.status, GameStatus::Connecting);
}

#[test]
fn a_start_naming_an_unknown_player_is_refused_whole() {
    let mut g = GameState::new();
    g.status = GameStatus::Lobby;
    assert!(g.add_player(player(1, Color::Red)));
    let info = StartInfo {
        assignments: vec![
            (uuid(1), PlayerStartInfo { team: Team::Impostors, tasks: vec![unfinished_task()] }),
            (uuid(9), PlayerStartInfo { team: Team::Crew, tasks: vec![] }),
        ],
    };
    assert_eq!(g.note_game_started(&info), Err(GameError::UnknownPlayer));
    assert_eq!(g.status, GameStatus::Lobby);
    assert!(!g.players[0].impostor);
    assert!(g.players[0].tasks.is_empty());
}

#[test]
fn a_started_game_deals_factions_tasks_and_seats() {
    let mut g = GameState::new();
    g.status = GameStatus::Lobby;
    assert!(g.add_player(player(1, Color::Red)));
    assert!(g.add_player(player(2, Color::Blue)));
    let info = StartInfo {
        assignments: vec![
            (uuid(1), PlayerStartInfo { team: Team::Impostors, tasks: vec![unfinished_task()] }),
            (uuid(2), PlayerStartInfo { team: Team::Crew, tasks: vec![unfinished_task()] }),
        ],
    };
    assert_eq!(g.note_game_started(&info), Ok(()));
    assert_eq!(g.status, GameStatus::Playing(PlayState::Night));
    assert!(g.players[0].impostor);
    assert!(!g.players[1].impostor);
    assert_eq!(g.players[0].tasks.len(), 1);
    // Seats for two players: straight up from the table center, and
    // straight down on the far side.
    assert_eq!(g.players[0].position, Position { x: 4_400_000, y: 6_000_000 });
    assert_eq!(g.players[1].position, Position { x: 4_400_000, y: 2_800_000 });
    assert_eq!(g.players[0].speed.dx, 0);
    assert_eq!(g.players[0].speed.dy, 0);
}

#[test]
fn the_start_deal_has_exactly_one_impostor_and_six_tasks_each() {
    let mut g = GameState::new();
    g.status = GameStatus::Lobby;
    assert!(g.add_player(player(1, Color::Red)));
    assert!(g.add_player(player(2, Color::Blue)));
    assert!(g.add_player(player(3, Color::Green)));
    let info = g.get_game_start_info();
    assert_eq!(info.assignments.len(), 3);
    let mut impostors = 0;
    for (i, (u, deal)) in info.assignments.iter().enumerate() {
        assert_eq!(u.v, g.players[i].uuid.v);
        assert_eq!(deal.tasks.len(), 6);
        for t in deal.tasks.iter() {
            assert!(!t.finished);
            assert!(t.position.x >= 480_000 && t.position.x < 16_384_000 - 480_000);
            assert!(t.position.y >= 480_000 && t.position.y < 12_288_000 - 480_000);
        }
        if matches!(deal.team, Team::Impostors) {
            impostors += 1;
        }
    }
    assert_eq!(impostors, 1);
}

#[test]
fn a_repeated_death_report_is_safe() {
    let mut g = GameState::new();
    for tag in 1..=3u8 {
        let mut p = player(tag, [Color::Red, Color::Blue, Color::Green][tag as usize - 1]);
        p.tasks = vec![unfinished_task()];
        assert!(g.add_player(p));
    }
    let mut c = player(4, Color::Yellow);
    c.impostor = true;
    assert!(g.add_player(c));
    g.status = GameStatus::Playing(PlayState::Night);
    let body = DeadBody { color: Color::Red, position: Position { x: 0, y: 0 } };
    assert!(g.note_death(body).is_ok());
    assert!(g.note_death(body).is_ok());
    assert!(g.players[0].dead);
    assert_eq!(g.bodies.len(), 2);
    assert_eq!(g.status, GameStatus::Playing(PlayState::Night));
}

#[test]
fn a_day_tick_runs_the_countdown_and_nothing_else() {
    let mut g = GameState::new();
    let mut a = player(1, Color::Red);
    a.tasks = vec![unfinished_task()];
    let mut c = player(3, Color::Green);
    c.impostor = true;
    assert!(g.add_player(a));
    assert!(g.add_player(c));
    g.status = GameStatus::Playing(PlayState::Day(crewgame::status::DayState::new(120_000_000)));
    let before = g.players[0].position;
    assert!(!g.simulate(16_000));
    match &g.status {
        GameStatus::Playing(PlayState::Day(d)) => assert_eq!(d.time_remaining, 119_984_000),
        other => panic!("the day must go on, found {:?}", other),
    }
    assert_eq!(g.players[0].position, before);
}

#[test]
fn the_crew_evaluation_fires_exactly_on_unanimous_completion() {
    let mut g = GameState::new();
    let mut a = player(1, Color::Red);
    a.tasks = vec![Task { position: Position { x: 0, y: 0 }, finished: true }];
    let mut b = player(2, Color::Blue);
    b.tasks = vec![unfinished_task()];
    let mut c = player(3, Color::Green);
    c.impostor = true;
    c.tasks = vec![unfinished_task()];
    assert!(g.add_player(a));
    assert!(g.add_player(b));
    assert!(g.add_player(c));
    g.status = GameStatus::Playing(PlayState::Night);
    // One crew task is still open: no win. The impostor's open task does
    // not count.
    g.check_for_crew_win();
    assert_eq!(g.status, GameStatus::Playing(PlayState::Night));
    g.players[1].tasks[0].finished = true;
    g.check_for_crew_win();
    assert_eq!(g.status, GameStatus::Won(Team::Crew));
}

#[test]
fn the_impostor_evaluation_fires_exactly_on_parity() {
    let mut g = GameState::new();
    assert!(g.add_player(player(1, Color::Red)));
    assert!(g.add_player(player(2, Color::Blue)));
    let mut c = player(3, Color::Green);
    c.impostor = true;
    assert!(g.add_player(c));
    g.status = GameStatus::Playing(PlayState::Night);
    // Two live crew against one live impostor: no win yet.
    g.check_for_impostor_win();
    assert_eq!(g.status, GameStatus::Playing(PlayState::Night));
    g.players[0].dead = true;
    g.check_for_impostor_win();
    assert_eq!(g.status, GameStatus::Won(Team::Impostors));
}
