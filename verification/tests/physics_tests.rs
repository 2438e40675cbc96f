use crewgame::entities::{Color, Player, Task};
use crewgame::game::GameState;
use crewgame::status::{DayState, GameStatus, PlayState, Team, VoteTarget};
use crewgame::trig::{cos_milli, sin_milli};
use crewgame::uuid::UUID;
use crewgame::vec2::{Position, Speed};

fn uuid(tag: u8) -> UUID {
    let mut v = [0u8; 16];
    v[0] = tag;
    UUID { v }
}

#[test]
fn a_free_run_moves_linearly_with_elapsed_time() {
    let mut g = GameState::new();
    let mut p = Player::new(uuid(1), "ada".to_string(), Color::Red, Position {
        x: 1_000_000,
        y: 1_000_000,
    });
    p.speed = Speed { dx: 2, dy: 0 };
    assert!(g.add_player(p));
    g.status = GameStatus::Playing(PlayState::Night);
    assert!(!g.simulate(16_000));
    assert_eq!(g.players[0].position, Position { x: 1_032_000, y: 1_000_000 });
}

#[test]
fn two_short_runs_land_where_one_long_run_does() {
    let mut one = GameState::new();
    let mut p = Player::new(uuid(1), "ada".to_string(), Color::Red, Position {
        x: 1_000_000,
        y: 1_000_000,
    });
    p.speed = Speed { dx: 2, dy: 3 };
    assert!(one.add_player(p.clone()));
    one.status = GameStatus::Playing(PlayState::Night);
    let mut two = GameState::new();
    assert!(two.add_player(p));
    two.status = GameStatus::Playing(PlayState::Night);
    one.simulate(6_000);
    one.simulate(10_000);
    two.simulate(16_000);
    assert_eq!(one.players[0].position, two.players[0].position);
    assert_eq!(one.players[0].position, Position { x: 1_032_000, y: 1_048_000 });
}

#[test]
fn a_run_at_the_table_stops_at_first_contact() {
    let mut g = GameState::new();
    let mut p = Player::new(uuid(1), "ada".to_string(), Color::Red, Position {
        x: 2_400_000,
        y: 4_400_000,
    });
    p.speed = Speed { dx: 100, dy: 0 };
    assert!(g.add_player(p));
    g.status = GameStatus::Playing(PlayState::Night);
    g.simulate(16_000);
    // The table's surface lies the radius sum, 1_360_000 fine units, from
    // its center at x = 4_400_000; a free run would overshoot it.
    assert_eq!(g.players[0].position, Position { x: 3_040_000, y: 4_400_000 });
}

#[test]
fn a_run_at_the_wall_is_clamped_to_the_playable_box() {
    let mut g = GameState::new();
    let mut p = Player::new(uuid(1), "ada".to_string(), Color::Red, Position {
        x: 16_200_000,
        y: 1_000_000,
    });
    p.speed = Speed { dx: 100, dy: 0 };
    assert!(g.add_player(p));
    g.status = GameStatus::Playing(PlayState::Night);
    g.simulate(16_000);
    assert_eq!(g.players[0].position, Position { x: 16_224_000, y: 1_000_000 });
}

#[test]
fn terminal_sessions_do_not_simulate() {
    let mut g = GameState::new();
    g.status = GameStatus::Won(Team::Crew);
    assert!(g.simulate(16_000));
    assert_eq!(g.status, GameStatus::Won(Team::Crew));
}

#[test]
fn a_finished_day_ejects_the_elected_player_and_night_falls() {
    let mut g = GameState::new();
    let mut a = Player::new(uuid(1), "ada".to_string(), Color::Red, Position {
        x: 1_000_000,
        y: 1_000_000,
    });
    a.tasks = vec![Task { position: Position { x: 0, y: 0 }, finished: false }];
    let mut b = Player::new(uuid(2), "grace".to_string(), Color::Blue, Position {
        x: 2_000_000,
        y: 1_000_000,
    });
    b.tasks = vec![Task { position: Position { x: 0, y: 0 }, finished: false }];
    let mut c = Player::new(uuid(3), "mallory".to_string(), Color::Green, Position {
        x: 3_000_000,
        y: 1_000_000,
    });
    c.impostor = true;
    assert!(g.add_player(a));
    assert!(g.add_player(b));
    assert!(g.add_player(c));
    let mut day = DayState::new(120_000_000);
    day.cast_vote(uuid(1), VoteTarget::Player { uuid: uuid(3) });
    day.cast_vote(uuid(2), VoteTarget::Player { uuid: uuid(3) });
    day.cast_vote(uuid(3), VoteTarget::Player { uuid: uuid(1) });
    g.status = GameStatus::Playing(PlayState::Day(day));
    g.bodies.push(crewgame::entities::DeadBody {
        color: Color::Gray,
        position: Position { x: 0, y: 0 },
    });
    assert!(!g.simulate(16_000));
    assert_eq!(g.status, GameStatus::Playing(PlayState::Night));
    assert!(g.players[2].dead);
    assert!(!g.players[0].dead);
    assert!(g.bodies.is_empty());
    // Everyone sits around the table, a third of a turn apart.
    assert_eq!(g.players[0].position, Position { x: 4_400_000, y: 6_000_000 });
    assert_eq!(g.players[1].position, Position { x: 5_782_400, y: 3_600_000 });
    assert_eq!(g.players[2].position, Position { x: 3_017_600, y: 3_600_000 });
    assert_eq!(g.players[0].speed, Speed { dx: 0, dy: 0 });
}

#[test]
fn the_sine_table_hits_its_anchor_points() {
    assert_eq!(sin_milli(0), 0);
    assert_eq!(sin_milli(30), 500);
    assert_eq!(sin_milli(90), 1000);
    assert_eq!(sin_milli(180), 0);
    assert_eq!(sin_milli(270), -1000);
    assert_eq!(sin_milli(360), 0);
    assert_eq!(cos_milli(0), 1000);
    assert_eq!(cos_milli(90), 0);
    assert_eq!(cos_milli(180), -1000);
}

#[test]
fn vector_arithmetic_matches_the_textbook() {
    let a = Position { x: 7, y: 10 };
    let b = Position { x: 4, y: 6 };
    let d = a.sub(b);
    assert_eq!(d.x, 3);
    assert_eq!(d.y, 4);
    assert_eq!(a.distance_squared(b), 25);
    let s = Speed { dx: 3, dy: 4 };
    assert_eq!(s.magnitude_squared(), 25);
    assert_eq!(s.dot(Speed { dx: 2, dy: -1 }), 2);
}

#[test]
fn the_clamp_pushes_a_circle_back_inside_the_map() {
    let map = crewgame::map::GameMap::first_map();
    let c = map.constrain_circle_within_bounds(Position { x: 100, y: 50_000_000 }, 160_000);
    assert_eq!(c, Position { x: 160_000, y: 12_128_000 });
    let inside = map.constrain_circle_within_bounds(Position { x: 500_000, y: 700_000 }, 160_000);
    assert_eq!(inside, Position { x: 500_000, y: 700_000 });
}

#[test]
fn every_color_has_a_hex_form_and_the_roster_has_ten() {
    let all = Color::all();
    assert_eq!(all.len(), 10);
    assert_eq!(all[0].to_str(), "#ff0102");
    assert_eq!(Color::White.to_str(), "#ffffff");
    assert_eq!(Color::Gray.to_str(), "#333333");
}

#[test]
fn a_random_spawn_keeps_its_margin() {
    let map = crewgame::map::GameMap::first_map();
    let p = Position::random(&map);
    assert!(p.x >= 480_000 && p.x < 16_384_000 - 480_000);
    assert!(p.y >= 480_000 && p.y < 12_288_000 - 480_000);
}

#[test]
fn the_standard_map_has_the_conference_table() {
    let map = crewgame::map::GameMap::first_map();
    assert_eq!(map.static_geometry.len(), 1);
    match &map.static_geometry[0] {
        crewgame::map::Shape::Circle { radius, center, fill_color, outline_width, outline_color } => {
            assert_eq!(*radius, 1_200_000);
            assert_eq!(*center, Position { x: 4_400_000, y: 4_400_000 });
            assert_eq!(fill_color, "#358");
            assert_eq!(*outline_width, 16_000);
            assert_eq!(outline_color, "#000");
        }
    }
}
