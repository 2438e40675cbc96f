use vstd::prelude::*;
use crate::rng::random_below;
use crate::uuid::UUID;
use crate::vec2::{Position, Speed};

verus! {

/// The collision radius of every player, in fine units (10 map units).
pub const PLAYER_RADIUS: i64 = 160_000;

/// A player skin. The colors also serve as the only cross reference between
/// a dead body and the player it stood for, so a session keeps them unique
/// among its players.
#[derive(Clone, Copy, Debug, PartialEq, Eq, Structural, PartialOrd, Ord, Hash)]
pub enum Color {
    Red,
    Pink,
    Blue,
    Orange,
    White,
    Black,
    Green,
    Yellow,
    Purple,
    Gray,
}

impl Color {
    /// Every color, in a fixed order.
    pub fn all() -> (r: Vec<Color>)
        ensures
            r@ =~= seq![
                Color::Red,
                Color::Pink,
                Color::Blue,
                Color::Orange,
                Color::White,
                Color::Black,
                Color::Green,
                Color::Yellow,
                Color::Purple,
                Color::Gray,
            ],
            r@.len() == 10,
    {
        let mut v: Vec<Color> = Vec::new();
        v.push(Color::Red);
        v.push(Color::Pink);
        v.push(Color::Blue);
        v.push(Color::Orange);
        v.push(Color::White);
        v.push(Color::Black);
        v.push(Color::Green);
        v.push(Color::Yellow);
        v.push(Color::Purple);
        v.push(Color::Gray);
        v
    }

    /// The hex form of this color, for clients that draw it.
    pub fn to_str(&self) -> (r: &'static str)
        ensures
            r@ == color_hex_form(*self),
    {
        match self {
            Color::Red => "#ff0102",
            Color::Pink => "#ff69b4",
            Color::Blue => "#1601ff",
            Color::Orange => "#ffa502",
            Color::White => "#ffffff",
            Color::Black => "#000000",
            Color::Green => "#01ff02",
            Color::Yellow => "#ffff66",
            Color::Purple => "#8a2be2",
            Color::Gray => "#333333",
        }
    }

    /// One of the ten colors, drawn at random.
    pub fn random() -> Color {
        let all = Color::all();
        let i = random_below(all.len());
        all[i]
    }
}

/// The hex form of each color.
pub open spec fn color_hex_form(c: Color) -> Seq<char> {
    match c {
        Color::Red => "#ff0102"@,
        Color::Pink => "#ff69b4"@,
        Color::Blue => "#1601ff"@,
        Color::Orange => "#ffa502"@,
        Color::White => "#ffffff"@,
        Color::Black => "#000000"@,
        Color::Green => "#01ff02"@,
        Color::Yellow => "#ffff66"@,
        Color::Purple => "#8a2be2"@,
        Color::Gray => "#333333"@,
    }
}

/// The per-session configuration. Distances are in fine units, the speed in
/// fine units per microsecond, and the voting time in microseconds.
#[derive(Clone, Debug, PartialEq)]
pub struct Settings {
    pub speed: i64,
    pub kill_distance: i64,
    pub task_distance: i64,
    pub report_distance: i64,
    pub voting_time: u64,
}

impl Default for Settings {
    /// Speed of 2 map units per step; task, kill and report distances of 32,
    /// 64 and 96 map units; 120 seconds of voting time.
    fn default() -> (r: Settings)
        ensures
            r.speed == 2,
            r.task_distance == 512_000,
            r.kill_distance == 1_024_000,
            r.report_distance == 1_536_000,
            r.voting_time == 120_000_000,
    {
        Settings {
            speed: 2,
            task_distance: 512_000,
            kill_distance: 1_024_000,
            report_distance: 1_536_000,
            voting_time: 120_000_000,
        }
    }
}

/// A chore at a fixed place; a player marks it finished by visiting it.
#[derive(Clone, Copy, Debug, PartialEq)]
pub struct Task {
    pub position: Position,
    pub finished: bool,
}

/// The record a death leaves behind: the color of the fallen player and
/// where the body lies.
#[derive(Clone, Copy, Debug, PartialEq)]
pub struct DeadBody {
    pub color: Color,
    pub position: Position,
}

/// A participant of the session and everything the simulation tracks of
/// them.
#[derive(Clone, Debug, PartialEq)]
pub struct Player {
    pub name: String,
    pub uuid: UUID,
    pub color: Color,
    pub position: Position,
    pub dead: bool,
    pub impostor: bool,
    pub tasks: Vec<Task>,
    pub speed: Speed,
}

impl Player {
    /// A freshly joined player: alive, crew, no tasks yet, standing still.
    pub fn new(uuid: UUID, name: String, color: Color, position: Position) -> (r: Player)
        ensures
            r.uuid == uuid,
            r.name == name,
            r.color == color,
            r.position == position,
            !r.dead,
            !r.impostor,
            r.tasks@.len() == 0,
            r.speed.dx == 0 && r.speed.dy == 0,
    {
        Player {
            name,
            uuid,
            color,
            dead: false,
            position,
            impostor: false,
            tasks: Vec::new(),
            speed: Speed::zero(),
        }
    }

    /// Only the living vote.
    pub fn eligable_to_vote(&self) -> (r: bool)
        ensures
            r == !self.dead,
    {
        !self.dead
    }

    /// The collision radius shared by every player, in fine units.
    pub fn radius() -> (r: i64)
        ensures
            r == PLAYER_RADIUS,
    {
        PLAYER_RADIUS
    }
}

} // verus!
