use vstd::prelude::*;
use crate::entities::{Color, DeadBody, Player, Settings, Task, PLAYER_RADIUS};
use crate::map::{clamp_within, GameMap, Shape, MAX_MOVE};
use crate::rng::random_below;
use crate::status::{
    day_after_time, has_voted, voters_unique, wins_election, DayState, GameStatus, PlayState, Team,
    Vote, VoteTarget,
};
use crate::status::uuid_eq;
use crate::trig::{cos_milli, sin_milli, spec_sin_milli};
use crate::uuid::UUID;
use crate::vec2::{Position, Speed, MAX_ELAPSED_MICROS, MAX_SPEED};

verus! {

/// The report that a player finished one of their tasks, by its index in
/// the player's task list.
#[derive(Clone, Copy, Debug, PartialEq)]
pub struct FinishedTask {
    pub index: usize,
}

/// What a game start deals to one player: a faction and a task list.
#[derive(Clone, Debug, PartialEq)]
pub struct PlayerStartInfo {
    pub team: Team,
    pub tasks: Vec<Task>,
}

/// The full deal of a game start, one entry per player.
#[derive(Clone, Debug, PartialEq)]
pub struct StartInfo {
    pub assignments: Vec<(UUID, PlayerStartInfo)>,
}

/// What can go wrong handling a session event.
#[derive(Clone, Copy, Debug, PartialEq, Eq, Structural)]
pub enum GameError {
    /// A game start was asked for outside the lobby.
    InvalidStateForStart,
    /// A game start named a player who is not in the roster.
    UnknownPlayer,
}

/// The authoritative state of one session.
#[derive(Clone, Debug, PartialEq)]
pub struct GameState {
    pub status: GameStatus,
    pub settings: Settings,
    pub map: GameMap,
    pub players: Vec<Player>,
    pub bodies: Vec<DeadBody>,
}

/// Whether a player is alive and an impostor.
pub open spec fn is_live_impostor(p: Player) -> bool {
    !p.dead && p.impostor
}

/// Whether a player is alive and crew.
pub open spec fn is_live_crew(p: Player) -> bool {
    !p.dead && !p.impostor
}

/// How many players of a roster are live impostors.
pub open spec fn live_impostor_count(players: Seq<Player>) -> int
    decreases players.len(),
{
    if players.len() == 0 {
        0
    } else {
        live_impostor_count(players.drop_last()) + if is_live_impostor(players.last()) {
            1int
        } else {
            0int
        }
    }
}

/// How many players of a roster are live crew.
pub open spec fn live_crew_count(players: Seq<Player>) -> int
    decreases players.len(),
{
    if players.len() == 0 {
        0
    } else {
        live_crew_count(players.drop_last()) + if is_live_crew(players.last()) {
            1int
        } else {
            0int
        }
    }
}

/// The impostors win as soon as they are no longer outnumbered by the live
/// crew.
pub open spec fn impostors_win(players: Seq<Player>) -> bool {
    live_impostor_count(players) >= live_crew_count(players)
}

/// Whether every task of a player is finished.
pub open spec fn all_tasks_done(p: Player) -> bool {
    forall|j: int| 0 <= j < p.tasks@.len() ==> (#[trigger] p.tasks@[j]).finished
}

/// The crew win when every task of every crew player is finished.
pub open spec fn crew_wins(players: Seq<Player>) -> bool {
    forall|i: int| 0 <= i < players.len() && !(#[trigger] players[i]).impostor ==> all_tasks_done(
        players[i],
    )
}

/// What the win evaluation leaves of a status: during play a win for either
/// team ends the game, the impostors taking precedence; any other status is
/// left alone.
pub open spec fn status_after_victories(st: GameStatus, players: Seq<Player>) -> GameStatus {
    if st matches GameStatus::Playing(_) {
        if impostors_win(players) {
            GameStatus::Won(Team::Impostors)
        } else if crew_wins(players) {
            GameStatus::Won(Team::Crew)
        } else {
            st
        }
    } else {
        st
    }
}

/// No two players of a roster share an identifier.
pub open spec fn uuids_unique(players: Seq<Player>) -> bool {
    forall|i: int, j: int|
        0 <= i < j < players.len() ==> (#[trigger] players[i]).uuid.v@ != (
        #[trigger] players[j]).uuid.v@
}

/// Whether a player sits within the map and moves within the modeled speed
/// range.
pub open spec fn player_ok(map: GameMap, p: Player) -> bool {
    &&& 0 <= p.position.x <= map.width
    &&& 0 <= p.position.y <= map.height
    &&& -MAX_SPEED <= p.speed.dx <= MAX_SPEED
    &&& -MAX_SPEED <= p.speed.dy <= MAX_SPEED
}

impl GameState {
    /// A state the engine can simulate: a well-formed map, distinct player
    /// identities, every player within the modeled ranges, and at most one
    /// vote per voter during a day.
    pub open spec fn wf(self) -> bool {
        &&& self.map.wf()
        &&& uuids_unique(self.players@)
        &&& forall|i: int|
            0 <= i < self.players@.len() ==> player_ok(self.map, #[trigger] self.players@[i])
        &&& (self.status matches GameStatus::Playing(PlayState::Day(d)) ==> voters_unique(
            d.votes@,
        ))
    }

    /// A fresh session: connecting, default settings, the standard map,
    /// nobody joined yet.
    pub fn new() -> (r: GameState)
        ensures
            r.wf(),
            r.status == GameStatus::Connecting,
            r.players@.len() == 0,
            r.bodies@.len() == 0,
            r.map.width == 16_384_000,
            r.map.height == 12_288_000,
            r.map.static_geometry@.len() == 1,
            r.map.static_geometry@[0] matches Shape::Circle {
                radius,
                center,
                fill_color,
                outline_width,
                outline_color,
            } && radius == 1_200_000 && center == (Position { x: 4_400_000, y: 4_400_000 })
                && fill_color@ == "#358"@ && outline_width == 16_000 && outline_color@
                == "#000"@,
            r.settings == (Settings {
                speed: 2,
                task_distance: 512_000,
                kill_distance: 1_024_000,
                report_distance: 1_536_000,
                voting_time: 120_000_000,
            }),
    {
        GameState {
            status: GameStatus::Connecting,
            settings: Settings::default(),
            players: Vec::new(),
            bodies: Vec::new(),
            map: GameMap::first_map(),
        }
    }

    /// Adds a player to the roster, which grows only while the session is
    /// connecting or in the lobby. The join is refused, and nothing
    /// changes, once play has begun, if the identifier or the color is
    /// already taken — colors stay unique, being the key that ties a dead
    /// body to its player — or if the player is outside the modeled
    /// ranges.
    pub fn add_player(&mut self, player: Player) -> (r: bool)
        requires
            old(self).wf(),
        ensures
            final(self).wf(),
            r == (((old(self).status matches GameStatus::Connecting) || (old(
                self,
            ).status matches GameStatus::Lobby)) && !has_player(old(self).players@, player.uuid)
                && !has_color(old(self).players@, player.color) && player_ok(
                old(self).map,
                player,
            )),
            r ==> final(self).status == old(self).status && final(self).settings == old(
                self,
            ).settings && final(self).map == old(self).map && final(self).bodies == old(
                self,
            ).bodies && final(self).players@ == old(self).players@.push(player),
            !r ==> *final(self) == *old(self),
    {
        let joinable = matches!(self.status, GameStatus::Connecting | GameStatus::Lobby);
        if !joinable {
            return false;
        }
        let within = 0 <= player.position.x && player.position.x <= self.map.width && 0
            <= player.position.y && player.position.y <= self.map.height && -MAX_SPEED
            <= player.speed.dx && player.speed.dx <= MAX_SPEED && -MAX_SPEED <= player.speed.dy
            && player.speed.dy <= MAX_SPEED;
        if !within {
            return false;
        }
        let n = self.players.len();
        let mut i: usize = 0;
        while i < n
            invariant
                i <= n == self.players@.len(),
                *self == *old(self),
                self.wf(),
                forall|j: int|
                    0 <= j < i ==> (#[trigger] self.players@[j]).uuid.v@ != player.uuid.v@ && (
                    #[trigger] self.players@[j]).color != player.color,
            decreases n - i,
        {
            if uuid_eq(&self.players[i].uuid, &player.uuid) || self.players[i].color
                == player.color {
                return false;
            }
            i = i + 1;
        }
        self.players.push(player);
        true
    }

    /// Ends the game in favor of a team.
    fn win(&mut self, team: Team)
        ensures
            *final(self) == (GameState { status: GameStatus::Won(team), ..*old(self) }),
    {
        self.status = GameStatus::Won(team);
    }

    /// Evaluates the impostors' win condition: the status becomes won for
    /// the impostors exactly when the live impostors are no longer
    /// outnumbered by the live crew, and is otherwise left alone; nothing
    /// else of the state changes.
    pub fn check_for_impostor_win(&mut self)
        ensures
            *final(self) == (GameState {
                status: if impostors_win(old(self).players@) {
                    GameStatus::Won(Team::Impostors)
                } else {
                    old(self).status
                },
                ..*old(self)
            }),
    {
        let ghost ps = self.players@;
        let n = self.players.len();
        let mut impostor_count: u64 = 0;
        let mut crew_count: u64 = 0;
        let mut i: usize = 0;
        while i < n
            invariant
                i <= n == ps.len(),
                ps == self.players@,
                *self == *old(self),
                impostor_count as int == live_impostor_count(ps.take(i as int)),
                crew_count as int == live_crew_count(ps.take(i as int)),
                impostor_count <= i,
                crew_count <= i,
            decreases n - i,
        {
            proof {
                assert(ps.take(i as int + 1).drop_last() =~= ps.take(i as int));
                assert(ps.take(i as int + 1).last() == ps[i as int]);
            }
            let p = &self.players[i];
            if !p.dead {
                if p.impostor {
                    impostor_count = impostor_count + 1;
                } else {
                    crew_count = crew_count + 1;
                }
            }
            i = i + 1;
        }
        proof {
            assert(ps.take(n as int) =~= ps);
        }
        if impostor_count >= crew_count {
            self.win(Team::Impostors);
        }
    }

    /// Evaluates the crew's win condition: the status becomes won for the
    /// crew exactly when every crew player, dead or alive, has every task
    /// finished, and is otherwise left alone; nothing else of the state
    /// changes.
    pub fn check_for_crew_win(&mut self)
        ensures
            *final(self) == (GameState {
                status: if crew_wins(old(self).players@) {
                    GameStatus::Won(Team::Crew)
                } else {
                    old(self).status
                },
                ..*old(self)
            }),
    {
        let ghost ps = self.players@;
        let n = self.players.len();
        let mut all_done: bool = true;
        let mut i: usize = 0;
        while i < n
            invariant
                i <= n == ps.len(),
                ps == self.players@,
                *self == *old(self),
                all_done == (forall|k: int|
                    0 <= k < i && !(#[trigger] ps[k]).impostor ==> all_tasks_done(ps[k])),
            decreases n - i,
        {
            let p = &self.players[i];
            if !p.impostor && !tasks_all_finished(&p.tasks) {
                all_done = false;
            }
            i = i + 1;
        }
        if all_done {
            self.win(Team::Crew);
        }
    }

    /// Runs the win evaluation, which fires only during play: first the
    /// crew's condition, then the impostors', whose win takes precedence
    /// should both hold at once.
    fn check_for_victories(&mut self)
        ensures
            *final(self) == (GameState {
                status: status_after_victories(old(self).status, old(self).players@),
                ..*old(self)
            }),
    {
        match self.status {
            GameStatus::Connecting
            | GameStatus::Disconnected
            | GameStatus::Lobby
            | GameStatus::Won(_) => {
                return ;
            },
            GameStatus::Playing(_) => {},
        }
        self.check_for_crew_win();
        self.check_for_impostor_win();
    }

    /// Records a reported death: every player wearing the body's color is
    /// marked dead, the body joins the round's list, and the impostors'
    /// win condition is evaluated. Never fails.
    pub fn note_death(&mut self, body: DeadBody) -> (r: Result<(), GameError>)
        requires
            old(self).wf(),
        ensures
            final(self).wf(),
            r is Ok,
            final(self).players@.len() == old(self).players@.len(),
            forall|i: int|
                0 <= i < old(self).players@.len() ==> final(self).players@[i] == (Player {
                    dead: old(self).players@[i].dead || old(self).players@[i].color == body.color,
                    ..old(self).players@[i]
                }),
            final(self).bodies@ == old(self).bodies@.push(body),
            final(self).status == if impostors_win(final(self).players@) {
                GameStatus::Won(Team::Impostors)
            } else {
                old(self).status
            },
            final(self).settings == old(self).settings,
            final(self).map == old(self).map,
    {
        let ghost ops = self.players@;
        let n = self.players.len();
        let mut i: usize = 0;
        while i < n
            invariant
                i <= n == ops.len(),
                self.players@.len() == ops.len(),
                ops == old(self).players@,
                self.status == old(self).status,
                self.settings == old(self).settings,
                self.map == old(self).map,
                self.bodies == old(self).bodies,
                forall|k: int|
                    0 <= k < i ==> self.players@[k] == (Player {
                        dead: ops[k].dead || ops[k].color == body.color,
                        ..ops[k]
                    }),
                forall|k: int| i <= k < n ==> self.players@[k] == ops[k],
            decreases n - i,
        {
            if self.players[i].color == body.color {
                self.players[i].dead = true;
            }
            i = i + 1;
        }
        self.bodies.push(body);
        self.check_for_impostor_win();
        proof {
            lemma_mark_dead_keeps_wf(old(self).map, ops, self.players@, body.color);
        }
        Ok(())
    }

    /// Marks one task of one player finished, silently ignoring an unknown
    /// player or task index, then evaluates the crew's win condition.
    /// Never fails.
    pub fn note_finished_task(&mut self, player_uuid: UUID, finished: FinishedTask) -> (r: Result<
        (),
        GameError,
    >)
        requires
            old(self).wf(),
        ensures
            final(self).wf(),
            r is Ok,
            final(self).players@.len() == old(self).players@.len(),
            forall|i: int|
                0 <= i < old(self).players@.len() && !(old(self).players@[i].uuid.v@
                    == player_uuid.v@ && finished.index < old(self).players@[i].tasks@.len())
                    ==> final(self).players@[i] == old(self).players@[i],
            forall|i: int|
                #![trigger final(self).players@[i]]
                0 <= i < old(self).players@.len() && old(self).players@[i].uuid.v@
                    == player_uuid.v@ && finished.index < old(self).players@[i].tasks@.len() ==> {
                    &&& final(self).players@[i].uuid == old(self).players@[i].uuid
                    &&& final(self).players@[i].name == old(self).players@[i].name
                    &&& final(self).players@[i].color == old(self).players@[i].color
                    &&& final(self).players@[i].position == old(self).players@[i].position
                    &&& final(self).players@[i].dead == old(self).players@[i].dead
                    &&& final(self).players@[i].impostor == old(self).players@[i].impostor
                    &&& final(self).players@[i].speed == old(self).players@[i].speed
                    &&& final(self).players@[i].tasks@ == old(self).players@[i].tasks@.update(
                        finished.index as int,
                        (Task {
                            position: old(self).players@[i].tasks@[finished.index as int].position,
                            finished: true,
                        }),
                    )
                },
            final(self).status == if crew_wins(final(self).players@) {
                GameStatus::Won(Team::Crew)
            } else {
                old(self).status
            },
            final(self).bodies == old(self).bodies,
            final(self).settings == old(self).settings,
            final(self).map == old(self).map,
    {
        let ghost ops = self.players@;
        match find_player(&self.players, &player_uuid) {
            Some(i) => {
                if finished.index < self.players[i].tasks.len() {
                    self.players[i].tasks[finished.index].finished = true;
                    proof {
                        let ghost t0 = ops[i as int].tasks@[finished.index as int];
                        assert(self.players@[i as int].tasks@[finished.index as int] == (Task {
                            position: t0.position,
                            finished: true,
                        }));
                        assert(self.players@[i as int].tasks@ =~= ops[i as int].tasks@.update(
                            finished.index as int,
                            (Task { position: t0.position, finished: true }),
                        ));
                        assert(forall|k: int|
                            0 <= k < ops.len() && k != i ==> self.players@[k] == ops[k]);
                        assert forall|k: int|
                            0 <= k < ops.len() && ops[k].uuid.v@ == player_uuid.v@ implies k
                            == i as int by {
                            if k != i {
                                assert(ops[k].uuid.v@ != ops[i as int].uuid.v@);
                            }
                        }
                        assert forall|k: int| 0 <= k < self.players@.len() implies player_ok(
                            self.map,
                            #[trigger] self.players@[k],
                        ) by {
                            assert(self.players@[k].position == ops[k].position);
                            assert(self.players@[k].speed == ops[k].speed);
                        }
                        assert forall|a: int, b: int|
                            0 <= a < b < self.players@.len() implies (
                        #[trigger] self.players@[a]).uuid.v@ != (
                        #[trigger] self.players@[b]).uuid.v@ by {
                            assert(self.players@[a].uuid == ops[a].uuid);
                            assert(self.players@[b].uuid == ops[b].uuid);
                        }
                    }
                }
            },
            None => {},
        }
        self.check_for_crew_win();
        Ok(())
    }
}

/// The roster with every entry carrying the given identifier removed, the
/// order of the rest kept.
pub open spec fn players_without(players: Seq<Player>, u: UUID) -> Seq<Player>
    decreases players.len(),
{
    if players.len() == 0 {
        Seq::empty()
    } else {
        let rest = players_without(players.drop_last(), u);
        if players.last().uuid.v@ == u.v@ {
            rest
        } else {
            rest.push(players.last())
        }
    }
}

/// The vote list with every vote naming the given player removed, the
/// order of the rest kept.
pub open spec fn votes_without_target(votes: Seq<Vote>, u: UUID) -> Seq<Vote>
    decreases votes.len(),
{
    if votes.len() == 0 {
        Seq::empty()
    } else {
        let rest = votes_without_target(votes.drop_last(), u);
        if votes.last().target matches VoteTarget::Player { uuid: t } && t.v@ == u.v@ {
            rest
        } else {
            rest.push(votes.last())
        }
    }
}

/// Removing an identifier that no roster entry carries changes nothing.
proof fn lemma_players_without_absent(players: Seq<Player>, u: UUID)
    requires
        forall|k: int| 0 <= k < players.len() ==> (#[trigger] players[k]).uuid.v@ != u.v@,
    ensures
        players_without(players, u) =~= players,
    decreases players.len(),
{
    if players.len() > 0 {
        assert(forall|k: int|
            0 <= k < players.len() - 1 ==> (#[trigger] players.drop_last()[k]) == players[k]);
        lemma_players_without_absent(players.drop_last(), u);
    }
}

/// On a roster with distinct identifiers, removing an identifier removes
/// exactly the one entry that carries it.
proof fn lemma_players_without_unique(players: Seq<Player>, u: UUID, i: int)
    requires
        uuids_unique(players),
        0 <= i < players.len(),
        players[i].uuid.v@ == u.v@,
    ensures
        players_without(players, u) =~= players.remove(i),
    decreases players.len(),
{
    assert(forall|k: int|
        0 <= k < players.len() - 1 ==> (#[trigger] players.drop_last()[k]) == players[k]);
    if i == players.len() - 1 {
        assert(forall|k: int|
            0 <= k < players.drop_last().len() ==> (#[trigger] players.drop_last()[k]).uuid.v@
                != u.v@);
        lemma_players_without_absent(players.drop_last(), u);
    } else {
        assert(uuids_unique(players.drop_last()));
        lemma_players_without_unique(players.drop_last(), u, i);
        assert(players.last().uuid.v@ != u.v@);
        assert(players_without(players, u) =~= players.drop_last().remove(i).push(
            players.last(),
        ));
    }
}

/// Filtering the votes that name a player keeps every other vote as it
/// was: no kept vote names that player, every kept voter had voted before,
/// and no voter ends up with two votes.
proof fn lemma_votes_without_target_ok(votes: Seq<Vote>, u: UUID)
    requires
        voters_unique(votes),
    ensures
        voters_unique(votes_without_target(votes, u)),
        forall|w: UUID| has_voted(votes_without_target(votes, u), w) ==> has_voted(votes, w),
        forall|k: int|
            0 <= k < votes_without_target(votes, u).len() ==> !((#[trigger] votes_without_target(
                votes,
                u,
            )[k]).target matches VoteTarget::Player { uuid: t } && t.v@ == u.v@),
    decreases votes.len(),
{
    let filtered = votes_without_target(votes, u);
    if votes.len() > 0 {
        let prefix = votes.drop_last();
        assert(forall|k: int| 0 <= k < votes.len() - 1 ==> (#[trigger] prefix[k]) == votes[k]);
        assert(voters_unique(prefix));
        lemma_votes_without_target_ok(prefix, u);
        let fp = votes_without_target(prefix, u);
        assert forall|w: UUID| has_voted(fp, w) implies has_voted(prefix, w) by {}
        assert forall|w: UUID| has_voted(prefix, w) implies has_voted(votes, w) by {
            if has_voted(prefix, w) {
                let k = choose|k: int| 0 <= k < prefix.len() && prefix[k].voter == w;
                assert(votes[k].voter == w);
            }
        }
        if !(votes.last().target matches VoteTarget::Player { uuid: t } && t.v@ == u.v@) {
            assert(filtered =~= fp.push(votes.last()));
            assert forall|a: int, b: int| 0 <= a < b < filtered.len() implies (
            #[trigger] filtered[a]).voter != (#[trigger] filtered[b]).voter by {
                if b == filtered.len() - 1 {
                    assert(filtered[b] == votes.last());
                    if filtered[a].voter == votes.last().voter {
                        assert(has_voted(fp, votes.last().voter));
                        let k = choose|k: int|
                            0 <= k < prefix.len() && prefix[k].voter == votes.last().voter;
                        assert(votes[k].voter == votes[votes.len() - 1].voter);
                    }
                }
            }
        }
    }
}

/// Removing one roster entry keeps the remaining identifiers distinct and
/// the remaining players within the modeled ranges.
proof fn lemma_remove_keeps_wf(map: GameMap, players: Seq<Player>, i: int)
    requires
        0 <= i < players.len(),
        uuids_unique(players),
        forall|k: int| 0 <= k < players.len() ==> player_ok(map, #[trigger] players[k]),
    ensures
        uuids_unique(players.remove(i)),
        forall|k: int|
            0 <= k < players.remove(i).len() ==> player_ok(map, #[trigger] players.remove(i)[k]),
{
    let removed = players.remove(i);
    assert(forall|k: int| 0 <= k < i ==> (#[trigger] removed[k]) == players[k]);
    assert(forall|k: int|
        i <= k < removed.len() ==> (#[trigger] removed[k]) == players[k + 1]);
}

impl GameState {
    /// Removes a player from the session. An empty roster ends the session
    /// as disconnected, whatever came before; otherwise the win conditions
    /// are evaluated, and any votes cast for the removed player are purged
    /// so their voters may vote again.
    pub fn handle_disconnection(&mut self, disconnected_player: UUID)
        requires
            old(self).wf(),
        ensures
            final(self).wf(),
            final(self).players@ == players_without(old(self).players@, disconnected_player),
            final(self).settings == old(self).settings,
            final(self).map == old(self).map,
            final(self).bodies == old(self).bodies,
            final(self).players@.len() == 0 ==> final(self).status == GameStatus::Disconnected,
            final(self).players@.len() > 0 && !(status_after_victories(
                old(self).status,
                final(self).players@,
            ) matches GameStatus::Playing(PlayState::Day(_))) ==> final(self).status
                == status_after_victories(old(self).status, final(self).players@),
            forall|od: DayState|
                final(self).players@.len() > 0 && old(self).status == GameStatus::Playing(
                    PlayState::Day(od),
                ) && !impostors_win(final(self).players@) && !crew_wins(final(self).players@)
                    ==> (final(self).status matches GameStatus::Playing(PlayState::Day(nd))
                    && nd.time_remaining == od.time_remaining && nd.votes@
                    == votes_without_target(od.votes@, disconnected_player)),
            final(self).status matches GameStatus::Playing(PlayState::Day(nd)) ==> forall|k: int|
                0 <= k < nd.votes@.len() ==> !((#[trigger] nd.votes@[k]).target
                    matches VoteTarget::Player { uuid: t } && t.v@ == disconnected_player.v@),
    {
        let ghost ops = self.players@;
        match find_player(&self.players, &disconnected_player) {
            Some(i) => {
                self.players.remove(i);
                proof {
                    lemma_players_without_unique(ops, disconnected_player, i as int);
                    lemma_remove_keeps_wf(self.map, ops, i as int);
                }
            },
            None => {
                proof {
                    lemma_players_without_absent(ops, disconnected_player);
                }
            },
        }
        if self.players.is_empty() {
            self.status = GameStatus::Disconnected;
        }
        self.check_for_victories();
        let ghost mid = *self;
        if let GameStatus::Playing(PlayState::Day(day)) = &mut self.status {
            let ghost ovs = day.votes@;
            let m = day.votes.len();
            let mut kept: Vec<Vote> = Vec::new();
            let mut k: usize = 0;
            while k < m
                invariant
                    k <= m == ovs.len(),
                    day.votes@ == ovs,
                    kept@ == votes_without_target(ovs.take(k as int), disconnected_player),
                decreases m - k,
            {
                proof {
                    assert(ovs.take(k as int + 1).drop_last() =~= ovs.take(k as int));
                    assert(ovs.take(k as int + 1).last() == ovs[k as int]);
                }
                let v = day.votes[k];
                let keep = match &v.target {
                    VoteTarget::Player { uuid } => !uuid_eq(uuid, &disconnected_player),
                    VoteTarget::Skip => true,
                };
                if keep {
                    kept.push(v);
                }
                k = k + 1;
            }
            proof {
                assert(ovs.take(m as int) =~= ovs);
            }
            day.votes = kept;
            proof {
                lemma_votes_without_target_ok(ovs, disconnected_player);
            }
        }
    }
}

/// The seat of player `i` of `n` at the round table: evenly spread angles,
/// a hundred map units out from the map center of the meeting area, then
/// clamped within the map like any other position.
pub open spec fn seat_position(map: GameMap, i: int, n: int) -> Position {
    let deg = 360 * i / n;
    let sx = spec_sin_milli(deg);
    let sy = spec_sin_milli((deg + 90) % 360);
    Position {
        x: clamp_within(4_400_000 + 1600 * sx, PLAYER_RADIUS as int, map.width - PLAYER_RADIUS)
            as i64,
        y: clamp_within(4_400_000 + 1600 * sy, PLAYER_RADIUS as int, map.height - PLAYER_RADIUS)
            as i64,
    }
}

/// A player moved to their seat with their movement stopped.
pub open spec fn seated_player(map: GameMap, p: Player, i: int, n: int) -> Player {
    Player { position: seat_position(map, i, n), speed: Speed { dx: 0, dy: 0 }, ..p }
}

/// The start info entry for the given identifier, the last one winning
/// where several name the same player.
pub open spec fn assignment_of(assigns: Seq<(UUID, PlayerStartInfo)>, u: UUID) -> Option<
    PlayerStartInfo,
>
    decreases assigns.len(),
{
    if assigns.len() == 0 {
        None
    } else if assigns.last().0.v@ == u.v@ {
        Some(assigns.last().1)
    } else {
        assignment_of(assigns.drop_last(), u)
    }
}

impl GameState {
    /// Seats every player around the round table at evenly spread angles
    /// and stops their movement.
    pub fn place_players_around_table(&mut self)
        requires
            old(self).wf(),
        ensures
            final(self).wf(),
            final(self).status == old(self).status,
            final(self).settings == old(self).settings,
            final(self).map == old(self).map,
            final(self).bodies == old(self).bodies,
            final(self).players@.len() == old(self).players@.len(),
            forall|i: int|
                0 <= i < old(self).players@.len() ==> final(self).players@[i] == seated_player(
                    old(self).map,
                    old(self).players@[i],
                    i,
                    old(self).players@.len() as int,
                ),
    {
        let ghost ops = self.players@;
        let n = self.players.len();
        let mut i: usize = 0;
        while i < n
            invariant
                i <= n == ops.len(),
                self.players@.len() == ops.len(),
                ops == old(self).players@,
                self.status == old(self).status,
                self.settings == old(self).settings,
                self.map == old(self).map,
                self.bodies == old(self).bodies,
                old(self).wf(),
                forall|k: int|
                    0 <= k < i ==> self.players@[k] == seated_player(
                        old(self).map,
                        ops[k],
                        k,
                        n as int,
                    ),
                forall|k: int| i <= k < n ==> self.players@[k] == ops[k],
            decreases n - i,
        {
            let deg: i64 = ((i as u128 * 360) / (n as u128)) as i64;
            proof {
                assert(i as int * 360 <= n as int * 360) by (nonlinear_arith)
                    requires
                        i as int <= n as int,
                ;
                vstd::arithmetic::div_mod::lemma_div_is_ordered(
                    i as int * 360,
                    n as int * 360,
                    n as int,
                );
                vstd::arithmetic::div_mod::lemma_div_by_multiple(360, n as int);
                vstd::arithmetic::div_mod::lemma_div_pos_is_pos(i as int * 360, n as int);
                assert(i as int * 360 == 360 * (i as int)) by (nonlinear_arith);
                assert(360 * (n as int) == n as int * 360) by (nonlinear_arith);
            }
            let sx = sin_milli(deg);
            let sy = cos_milli(deg);
            let seat = self.map.constrain_circle_within_bounds(
                Position { x: 4_400_000 + 1600 * sx, y: 4_400_000 + 1600 * sy },
                Player::radius(),
            );
            self.players[i].position = seat;
            self.players[i].speed = Speed::zero();
            proof {
                assert(self.players@[i as int] == seated_player(
                    old(self).map,
                    ops[i as int],
                    i as int,
                    n as int,
                ));
            }
            i = i + 1;
        }
        proof {
            assert forall|k: int| 0 <= k < self.players@.len() implies player_ok(
                self.map,
                #[trigger] self.players@[k],
            ) by {
                assert(self.players@[k] == seated_player(old(self).map, ops[k], k, n as int));
            }
            assert forall|a: int, b: int| 0 <= a < b < self.players@.len() implies (
            #[trigger] self.players@[a]).uuid.v@ != (#[trigger] self.players@[b]).uuid.v@ by {
                assert(self.players@[a].uuid == ops[a].uuid);
                assert(self.players@[b].uuid == ops[b].uuid);
            }
        }
    }

    /// Deals the start of a game: every player is dealt six fresh tasks at
    /// random places, and exactly one player, drawn at random, is dealt to
    /// the impostors.
    pub fn get_game_start_info(&self) -> (r: StartInfo)
        requires
            self.wf(),
            self.players@.len() >= 1,
            self.map.width > 960_000,
            self.map.height > 960_000,
        ensures
            r.assignments@.len() == self.players@.len(),
            forall|i: int|
                0 <= i < self.players@.len() ==> (#[trigger] r.assignments@[i]).0.v@
                    == self.players@[i].uuid.v@,
            forall|i: int|
                0 <= i < self.players@.len() ==> (#[trigger] r.assignments@[i]).1.tasks@.len()
                    == 6,
            forall|i: int, j: int|
                0 <= i < self.players@.len() && 0 <= j < 6 ==> !(
                #[trigger] r.assignments@[i].1.tasks@[j]).finished,
            forall|i: int, j: int|
                0 <= i < self.players@.len() && 0 <= j < 6 ==> 480_000 <= (
                #[trigger] r.assignments@[i].1.tasks@[j]).position.x < self.map.width - 480_000
                    && 480_000 <= r.assignments@[i].1.tasks@[j].position.y < self.map.height
                    - 480_000,
            exists|k: int|
                0 <= k < self.players@.len() && (#[trigger] r.assignments@[k]).1.team
                    == Team::Impostors && forall|j: int|
                    0 <= j < self.players@.len() && j != k ==> (#[trigger] r.assignments@[j]).1.team
                        == Team::Crew,
    {
        let n = self.players.len();
        let mut assignments: Vec<(UUID, PlayerStartInfo)> = Vec::new();
        let mut i: usize = 0;
        while i < n
            invariant
                i <= n == self.players@.len(),
                self.wf(),
                self.map.width > 960_000,
                self.map.height > 960_000,
                assignments@.len() == i,
                forall|k: int|
                    0 <= k < i ==> (#[trigger] assignments@[k]).0.v@
                        == self.players@[k].uuid.v@,
                forall|k: int| 0 <= k < i ==> (#[trigger] assignments@[k]).1.team == Team::Crew,
                forall|k: int|
                    0 <= k < i ==> (#[trigger] assignments@[k]).1.tasks@.len() == 6,
                forall|k: int, j: int|
                    0 <= k < i && 0 <= j < 6 ==> !(
                    #[trigger] assignments@[k].1.tasks@[j]).finished,
                forall|k: int, j: int|
                    0 <= k < i && 0 <= j < 6 ==> 480_000 <= (
                    #[trigger] assignments@[k].1.tasks@[j]).position.x < self.map.width - 480_000
                        && 480_000 <= assignments@[k].1.tasks@[j].position.y < self.map.height
                        - 480_000,
            decreases n - i,
        {
            let uuid = self.players[i].uuid;
            assignments.push((uuid, PlayerStartInfo::new(&self.map)));
            i = i + 1;
        }
        let impostor_index = random_below(n);
        assignments[impostor_index].1.team = Team::Impostors;
        StartInfo { assignments }
    }

    /// Applies a dealt game start. Fails, leaving the state untouched, when
    /// the session is not in the lobby or an assignment names an unknown
    /// player; otherwise every named player takes their faction and tasks,
    /// play begins at night, and everyone is seated around the table.
    pub fn note_game_started(&mut self, start_info: &StartInfo) -> (r: Result<(), GameError>)
        requires
            old(self).wf(),
        ensures
            final(self).wf(),
            !(old(self).status matches GameStatus::Lobby) ==> r == Result::<(), GameError>::Err(
                GameError::InvalidStateForStart,
            ) && *final(self) == *old(self),
            (old(self).status matches GameStatus::Lobby) && !(forall|k: int|
                0 <= k < start_info.assignments@.len() ==> has_player(
                    old(self).players@,
                    (#[trigger] start_info.assignments@[k]).0,
                )) ==> r == Result::<(), GameError>::Err(GameError::UnknownPlayer) && *final(self)
                == *old(self),
            (old(self).status matches GameStatus::Lobby) && (forall|k: int|
                0 <= k < start_info.assignments@.len() ==> has_player(
                    old(self).players@,
                    (#[trigger] start_info.assignments@[k]).0,
                )) ==> {
                &&& r is Ok
                &&& final(self).status == GameStatus::Playing(PlayState::Night)
                &&& final(self).settings == old(self).settings
                &&& final(self).map == old(self).map
                &&& final(self).bodies == old(self).bodies
                &&& final(self).players@.len() == old(self).players@.len()
                &&& forall|i: int|
                    #![trigger final(self).players@[i]]
                    0 <= i < old(self).players@.len() ==> {
                        let p0 = old(self).players@[i];
                        let a = assignment_of(start_info.assignments@, p0.uuid);
                        let n = old(self).players@.len() as int;
                        &&& final(self).players@[i].uuid == p0.uuid
                        &&& final(self).players@[i].name == p0.name
                        &&& final(self).players@[i].color == p0.color
                        &&& final(self).players@[i].dead == p0.dead
                        &&& final(self).players@[i].position == seat_position(old(self).map, i, n)
                        &&& final(self).players@[i].speed == (Speed { dx: 0, dy: 0 })
                        &&& (a matches Some(a0) ==> final(self).players@[i].impostor == (
                        a0.team == Team::Impostors) && final(self).players@[i].tasks@
                            == a0.tasks@)
                        &&& (a is None ==> final(self).players@[i].impostor == p0.impostor
                            && final(self).players@[i].tasks@ == p0.tasks@)
                    }
            },
    {
        match self.status {
            GameStatus::Lobby => {},
            _ => {
                return Err(GameError::InvalidStateForStart);
            },
        }
        let ghost ops = self.players@;
        let ghost assigns = start_info.assignments@;
        let m = start_info.assignments.len();
        let mut k: usize = 0;
        while k < m
            invariant
                k <= m == assigns.len(),
                assigns == start_info.assignments@,
                ops == old(self).players@,
                *self == *old(self),
                self.wf(),
                old(self).status matches GameStatus::Lobby,
                forall|j: int| 0 <= j < k ==> has_player(ops, (#[trigger] assigns[j]).0),
            decreases m - k,
        {
            match find_player(&self.players, &start_info.assignments[k].0) {
                Some(_) => {},
                None => {
                    return Err(GameError::UnknownPlayer);
                },
            }
            k = k + 1;
        }
        let mut k: usize = 0;
        while k < m
            invariant
                k <= m == assigns.len(),
                assigns == start_info.assignments@,
                self.status == old(self).status,
                self.settings == old(self).settings,
                self.map == old(self).map,
                self.bodies == old(self).bodies,
                self.players@.len() == ops.len(),
                ops == old(self).players@,
                old(self).wf(),
                uuids_unique(self.players@),
                forall|j: int| 0 <= j < ops.len() ==> (#[trigger] self.players@[j]).uuid
                    == ops[j].uuid,
                forall|j: int| 0 <= j < ops.len() ==> (#[trigger] self.players@[j]).name
                    == ops[j].name && self.players@[j].color == ops[j].color
                    && self.players@[j].dead == ops[j].dead && self.players@[j].position
                    == ops[j].position && self.players@[j].speed == ops[j].speed,
                old(self).status matches GameStatus::Lobby,
                forall|j: int| 0 <= j < m ==> has_player(ops, (#[trigger] assigns[j]).0),
                forall|i: int|
                    #![trigger self.players@[i]]
                    0 <= i < ops.len() ==> {
                        let a = assignment_of(assigns.take(k as int), ops[i].uuid);
                        &&& (a matches Some(a0) ==> self.players@[i].impostor == (a0.team
                            == Team::Impostors) && self.players@[i].tasks@ == a0.tasks@)
                        &&& (a is None ==> self.players@[i].impostor == ops[i].impostor
                            && self.players@[i].tasks@ == ops[i].tasks@)
                    },
            decreases m - k,
        {
            proof {
                assert(assigns.take(k as int + 1).drop_last() =~= assigns.take(k as int));
                assert(assigns.take(k as int + 1).last() == assigns[k as int]);
            }
            match find_player(&self.players, &start_info.assignments[k].0) {
                Some(i) => {
                    let is_impostor = matches!(start_info.assignments[k].1.team, Team::Impostors);
                    self.players[i].impostor = is_impostor;
                    let tasks = copy_tasks(&start_info.assignments[k].1.tasks);
                    self.players[i].tasks = tasks;
                    proof {
                        assert forall|j: int|
                            0 <= j < ops.len() && ops[j].uuid.v@ == assigns[k as int].0.v@ implies j
                            == i as int by {
                            if j != i {
                                assert(self.players@[j].uuid.v@ != self.players@[i as int].uuid.v@);
                            }
                        }
                    }
                },
                None => {
                    proof {
                        let w = choose|w: int|
                            0 <= w < ops.len() && (#[trigger] ops[w]).uuid.v@
                                == assigns[k as int].0.v@;
                        assert(self.players@[w].uuid == ops[w].uuid);
                        assert(false);
                    }
                    return Err(GameError::UnknownPlayer);
                },
            }
            k = k + 1;
        }
        proof {
            assert(assigns.take(m as int) =~= assigns);
            assert forall|j: int| 0 <= j < self.players@.len() implies player_ok(
                self.map,
                #[trigger] self.players@[j],
            ) by {
                assert(self.players@[j].position == ops[j].position);
                assert(self.players@[j].speed == ops[j].speed);
            }
        }
        self.status = GameStatus::Playing(PlayState::Night);
        self.place_players_around_table();
        Ok(())
    }
}

/// Whether the day phase is done: the countdown has run out, or every
/// living player has cast a vote.
pub open spec fn spec_day_over(players: Seq<Player>, d: DayState) -> bool {
    d.time_remaining == 0 || forall|i: int|
        0 <= i < players.len() && !(#[trigger] players[i]).dead ==> has_voted(
            d.votes@,
            players[i].uuid,
        )
}

/// A player with the dead flag set if the vote target names them.
pub open spec fn killed_player(p: Player, w: VoteTarget) -> Player {
    if w matches VoteTarget::Player { uuid: t } && t.v@ == p.uuid.v@ {
        Player { dead: true, ..p }
    } else {
        p
    }
}

/// The resolution of one movement against a list of shapes, in order: each
/// shape sees the vector the shapes before it left.
pub open spec fn collide_all(shapes: Seq<Shape>, pos: Position, radius: int, mv: Speed) -> Speed
    decreases shapes.len(),
{
    if shapes.len() == 0 {
        mv
    } else {
        shapes.last().collide_spec(pos, radius, collide_all(shapes.drop_last(), pos, radius, mv))
    }
}

/// One player advanced by one simulation step: a standing player stays
/// put; a moving player's velocity is scaled by the elapsed time, resolved
/// against the map's geometry in order, applied, and the place clamped
/// into the map.
pub open spec fn scaled_movement(p: Player, elapsed: int) -> Speed {
    Speed { dx: (p.speed.dx * elapsed) as i64, dy: (p.speed.dy * elapsed) as i64 }
}

pub open spec fn moved_player(map: GameMap, p: Player, elapsed: int) -> Player {
    if p.speed.dx == 0 && p.speed.dy == 0 {
        p
    } else {
        let raw = scaled_movement(p, elapsed);
        let resolved = collide_all(map.static_geometry@, p.position, PLAYER_RADIUS as int, raw);
        let np = Position {
            x: clamp_within(
                p.position.x + resolved.dx,
                PLAYER_RADIUS as int,
                map.width - PLAYER_RADIUS,
            ) as i64,
            y: clamp_within(
                p.position.y + resolved.dy,
                PLAYER_RADIUS as int,
                map.height - PLAYER_RADIUS,
            ) as i64,
        };
        Player { position: np, ..p }
    }
}

/// What status a finished day hands over: a win stands; otherwise night
/// falls.
pub open spec fn night_or_won(st: GameStatus, players: Seq<Player>) -> GameStatus {
    let st1 = status_after_victories(st, players);
    if st1 matches GameStatus::Won(_) {
        st1
    } else {
        GameStatus::Playing(PlayState::Night)
    }
}

/// Whether the given voter has a vote in the list.
fn has_vote_by(votes: &Vec<Vote>, u: &UUID) -> (r: bool)
    ensures
        r == has_voted(votes@, *u),
{
    let n = votes.len();
    let mut k: usize = 0;
    while k < n
        invariant
            k <= n == votes@.len(),
            forall|j: int| 0 <= j < k ==> (#[trigger] votes@[j]).voter != *u,
        decreases n - k,
    {
        if uuid_eq(&votes[k].voter, u) {
            return true;
        }
        k = k + 1;
    }
    false
}

impl GameState {
    /// Whether the day is over: the countdown has run out, or every living
    /// player has voted.
    pub fn is_day_over(&self, day_state: &DayState) -> (r: bool)
        ensures
            r == spec_day_over(self.players@, *day_state),
    {
        if day_state.time_remaining == 0 {
            return true;
        }
        let n = self.players.len();
        let mut i: usize = 0;
        while i < n
            invariant
                i <= n == self.players@.len(),
                day_state.time_remaining != 0,
                forall|k: int|
                    0 <= k < i && !(#[trigger] self.players@[k]).dead ==> has_voted(
                        day_state.votes@,
                        self.players@[k].uuid,
                    ),
            decreases n - i,
        {
            if self.players[i].eligable_to_vote() {
                if !has_vote_by(&day_state.votes, &self.players[i].uuid) {
                    return false;
                }
            }
            i = i + 1;
        }
        true
    }

    /// Advances every moving player by one step: the velocity scaled by
    /// the elapsed microseconds, resolved against the map's geometry in
    /// order, applied, and the place clamped into the map.
    fn simulate_night(&mut self, elapsed: u64)
        requires
            old(self).wf(),
            elapsed <= MAX_ELAPSED_MICROS,
        ensures
            final(self).wf(),
            final(self).status == old(self).status,
            final(self).settings == old(self).settings,
            final(self).map == old(self).map,
            final(self).bodies == old(self).bodies,
            final(self).players@.len() == old(self).players@.len(),
            forall|i: int|
                0 <= i < old(self).players@.len() ==> final(self).players@[i] == moved_player(
                    old(self).map,
                    old(self).players@[i],
                    elapsed as int,
                ),
    {
        let ghost ops = self.players@;
        let n = self.players.len();
        let mut i: usize = 0;
        while i < n
            invariant
                i <= n == ops.len(),
                self.players@.len() == n,
                ops == old(self).players@,
                self.status == old(self).status,
                self.settings == old(self).settings,
                self.map == old(self).map,
                self.bodies == old(self).bodies,
                old(self).wf(),
                elapsed <= MAX_ELAPSED_MICROS,
                forall|k: int|
                    0 <= k < i ==> self.players@[k] == moved_player(
                        old(self).map,
                        ops[k],
                        elapsed as int,
                    ),
                forall|k: int| i <= k < n ==> self.players@[k] == ops[k],
            decreases n - i,
        {
            let sdx = self.players[i].speed.dx;
            let sdy = self.players[i].speed.dy;
            if sdx != 0 || sdy != 0 {
                proof {
                    assert(player_ok(old(self).map, ops[i as int]));
                    lemma_speed_scale_bound(sdx as int, elapsed as int);
                    lemma_speed_scale_bound(sdy as int, elapsed as int);
                }
                let mvx: i128 = sdx as i128 * elapsed as i128;
                let mvy: i128 = sdy as i128 * elapsed as i128;
                let raw = Speed { dx: mvx as i64, dy: mvy as i64 };
                let pos = self.players[i].position;
                let mut mv = raw;
                let gn = self.map.static_geometry.len();
                let mut k: usize = 0;
                while k < gn
                    invariant
                        k <= gn == self.map.static_geometry@.len(),
                        self.map == old(self).map,
                        old(self).wf(),
                        0 <= pos.x <= self.map.width,
                        0 <= pos.y <= self.map.height,
                        mv == collide_all(
                            self.map.static_geometry@.take(k as int),
                            pos,
                            PLAYER_RADIUS as int,
                            raw,
                        ),
                        -MAX_MOVE <= mv.dx <= MAX_MOVE,
                        -MAX_MOVE <= mv.dy <= MAX_MOVE,
                    decreases gn - k,
                {
                    proof {
                        assert(self.map.static_geometry@.take(k as int + 1).drop_last()
                            =~= self.map.static_geometry@.take(k as int));
                        assert(self.map.static_geometry@.take(k as int + 1).last()
                            == self.map.static_geometry@[k as int]);
                    }
                    mv = self.map.static_geometry[k].collide(pos, Player::radius(), mv);
                    k = k + 1;
                }
                proof {
                    assert(self.map.static_geometry@.take(gn as int)
                        =~= self.map.static_geometry@);
                }
                let np = self.map.constrain_circle_within_bounds(
                    Position { x: pos.x + mv.dx, y: pos.y + mv.dy },
                    Player::radius(),
                );
                self.players[i].position = np;
                proof {
                    assert(self.players@[i as int] == moved_player(
                        old(self).map,
                        ops[i as int],
                        elapsed as int,
                    ));
                }
            }
            i = i + 1;
        }
        proof {
            assert forall|k: int| 0 <= k < self.players@.len() implies player_ok(
                self.map,
                #[trigger] self.players@[k],
            ) by {
                assert(self.players@[k] == moved_player(old(self).map, ops[k], elapsed as int));
                assert(player_ok(old(self).map, ops[k]));
            }
            assert forall|a: int, b: int| 0 <= a < b < self.players@.len() implies (
            #[trigger] self.players@[a]).uuid.v@ != (#[trigger] self.players@[b]).uuid.v@ by {
                assert(self.players@[a].uuid == ops[a].uuid);
                assert(self.players@[b].uuid == ops[b].uuid);
            }
        }
    }

    /// Advances the session by one tick of elapsed microseconds. During the
    /// lobby and at night the players move; during a day the countdown
    /// runs, and once the day is over the election is resolved, its target
    /// dies, the win conditions are evaluated, the bodies are buried, and
    /// everyone is seated for the night — a day-end win stands instead of
    /// the night. Returns whether the session has reached a terminal
    /// status.
    #[verifier::rlimit(60)]
    pub fn simulate(&mut self, elapsed: u64) -> (r: bool)
        requires
            old(self).wf(),
            elapsed <= MAX_ELAPSED_MICROS,
        ensures
            final(self).wf(),
            r == ((final(self).status matches GameStatus::Won(_)) || (final(self).status
                matches GameStatus::Disconnected)),
            final(self).settings == old(self).settings,
            final(self).map == old(self).map,
            ((old(self).status matches GameStatus::Connecting) || (old(
                self,
            ).status matches GameStatus::Won(_)) || (old(
                self,
            ).status matches GameStatus::Disconnected)) ==> *final(self) == *old(self),
            ((old(self).status matches GameStatus::Lobby) || (old(
                self,
            ).status matches GameStatus::Playing(PlayState::Night))) ==> {
                &&& final(self).status == old(self).status
                &&& final(self).bodies == old(self).bodies
                &&& final(self).players@.len() == old(self).players@.len()
                &&& forall|i: int|
                    0 <= i < old(self).players@.len() ==> final(self).players@[i] == moved_player(
                        old(self).map,
                        old(self).players@[i],
                        elapsed as int,
                    )
                &&& !r
            },
            forall|od: DayState|
                old(self).status == GameStatus::Playing(PlayState::Day(od)) && !spec_day_over(
                    old(self).players@,
                    day_after_time(od, elapsed),
                ) ==> {
                    &&& final(self).status == GameStatus::Playing(
                        PlayState::Day(day_after_time(od, elapsed)),
                    )
                    &&& final(self).players == old(self).players
                    &&& final(self).bodies == old(self).bodies
                    &&& !r
                },
            forall|od: DayState|
                old(self).status == GameStatus::Playing(PlayState::Day(od)) && spec_day_over(
                    old(self).players@,
                    day_after_time(od, elapsed),
                ) ==> exists|w: VoteTarget| day_end_ok(*old(self), *final(self), od, elapsed, w),
    {
        self.status.progress_time(elapsed);
        let ghost ops = self.players@;
        let mut day_over: bool = false;
        let mut winner: VoteTarget = VoteTarget::Skip;
        let mut night_tick: bool = false;
        match &self.status {
            GameStatus::Lobby | GameStatus::Playing(PlayState::Night) => {
                night_tick = true;
            },
            GameStatus::Playing(PlayState::Day(day_state)) => {
                if self.is_day_over(day_state) {
                    day_over = true;
                    winner = day_state.determine_winner_of_election();
                }
            },
            GameStatus::Connecting | GameStatus::Disconnected | GameStatus::Won(_) => {},
        }
        if night_tick {
            self.simulate_night(elapsed);
        }
        if day_over {
            match &winner {
                VoteTarget::Skip => {},
                VoteTarget::Player { uuid } => {
                    let target_uuid = *uuid;
                    match find_player(&self.players, &target_uuid) {
                        Some(i) => {
                            self.players[i].dead = true;
                            proof {
                                assert forall|j: int|
                                    0 <= j < ops.len() implies self.players@[j] == killed_player(
                                    ops[j],
                                    winner,
                                ) by {
                                    if j != i && ops[j].uuid.v@ == target_uuid.v@ {
                                        assert(ops[j].uuid.v@ != ops[i as int].uuid.v@);
                                    }
                                }
                            }
                        },
                        None => {},
                    }
                },
            }
            proof {
                assert forall|j: int| 0 <= j < ops.len() implies self.players@[j]
                    == killed_player(ops[j], winner) by {}
                assert(self.players@ =~= Seq::new(
                    ops.len(),
                    |i: int| killed_player(ops[i], winner),
                ));
                assert forall|k: int| 0 <= k < self.players@.len() implies player_ok(
                    self.map,
                    #[trigger] self.players@[k],
                ) by {
                    assert(self.players@[k] == killed_player(ops[k], winner));
                    assert(player_ok(self.map, ops[k]));
                }
                assert forall|a: int, b: int| 0 <= a < b < self.players@.len() implies (
                #[trigger] self.players@[a]).uuid.v@ != (#[trigger] self.players@[b]).uuid.v@ by {
                    assert(self.players@[a].uuid == ops[a].uuid);
                    assert(self.players@[b].uuid == ops[b].uuid);
                }
            }
            self.check_for_victories();
            self.bodies.clear();
            self.place_players_around_table();
            if !matches!(self.status, GameStatus::Won(_)) {
                self.status = GameStatus::Playing(PlayState::Night);
            }
            proof {
                match old(self).status {
                    GameStatus::Playing(PlayState::Day(od0)) => {
                        assert((winner matches VoteTarget::Player { .. }) ==> wins_election(
                            od0.votes@,
                            winner,
                        ));
                        assert(winner == VoteTarget::Skip ==> forall|t: VoteTarget|
                            !wins_election(od0.votes@, t)) by {
                            if winner == VoteTarget::Skip {
                                assert(day_after_time(od0, elapsed).votes == od0.votes);
                                assert forall|t: VoteTarget| !wins_election(od0.votes@, t) by {
                                    assert(!wins_election(
                                        day_after_time(od0, elapsed).votes@,
                                        t,
                                    ));
                                }
                            }
                        }
                        assert(self.players@.len() == old(self).players@.len());
                        assert(forall|i: int|
                            0 <= i < old(self).players@.len() ==> self.players@[i]
                                == seated_player(
                                old(self).map,
                                killed_player(old(self).players@[i], winner),
                                i,
                                old(self).players@.len() as int,
                            ));
                        assert(self.bodies@.len() == 0);
                        assert(self.status == night_or_won(
                            GameStatus::Playing(PlayState::Day(day_after_time(od0, elapsed))),
                            Seq::new(
                                old(self).players@.len(),
                                |i: int| killed_player(old(self).players@[i], winner),
                            ),
                        ));
                        assert(day_end_ok(*old(self), *self, od0, elapsed, winner));
                    },
                    _ => {},
                }
            }
        }
        self.status.finished()
    }
}

/// What one finished day leaves behind, for some election outcome `w`: the
/// outcome is a lawful resolution of the day's votes, its target is dead,
/// the bodies are buried, everyone sits at the table, and the status is
/// night unless a team has won.
pub open spec fn day_end_ok(
    pre: GameState,
    post: GameState,
    od: DayState,
    elapsed: u64,
    w: VoteTarget,
) -> bool {
    &&& ((w matches VoteTarget::Player { .. }) ==> wins_election(od.votes@, w))
    &&& (w == VoteTarget::Skip ==> forall|t: VoteTarget| !wins_election(od.votes@, t))
    &&& post.players@.len() == pre.players@.len()
    &&& (forall|i: int|
        0 <= i < pre.players@.len() ==> post.players@[i] == seated_player(
            pre.map,
            killed_player(pre.players@[i], w),
            i,
            pre.players@.len() as int,
        ))
    &&& post.bodies@.len() == 0
    &&& post.status == night_or_won(
        GameStatus::Playing(PlayState::Day(day_after_time(od, elapsed))),
        Seq::new(pre.players@.len(), |i: int| killed_player(pre.players@[i], w)),
    )
}

/// Moving for two spans of time in turn lands a player exactly where one
/// move over their sum would, whenever the player meets no geometry and no
/// map edge on the way: frame rate does not change the outcome.
pub proof fn lemma_simulate_additive(map: GameMap, p: Player, a: u64, b: u64)
    requires
        map.wf(),
        -MAX_SPEED <= p.speed.dx <= MAX_SPEED,
        -MAX_SPEED <= p.speed.dy <= MAX_SPEED,
        a + b <= MAX_ELAPSED_MICROS,
        collide_all(
            map.static_geometry@,
            p.position,
            PLAYER_RADIUS as int,
            scaled_movement(p, a as int),
        ) == scaled_movement(p, a as int),
        collide_all(
            map.static_geometry@,
            moved_player(map, p, a as int).position,
            PLAYER_RADIUS as int,
            scaled_movement(p, b as int),
        ) == scaled_movement(p, b as int),
        collide_all(
            map.static_geometry@,
            p.position,
            PLAYER_RADIUS as int,
            scaled_movement(p, (a + b) as int),
        ) == scaled_movement(p, (a + b) as int),
        PLAYER_RADIUS <= p.position.x + p.speed.dx * a <= map.width - PLAYER_RADIUS,
        PLAYER_RADIUS <= p.position.y + p.speed.dy * a <= map.height - PLAYER_RADIUS,
        PLAYER_RADIUS <= p.position.x + p.speed.dx * (a + b) <= map.width - PLAYER_RADIUS,
        PLAYER_RADIUS <= p.position.y + p.speed.dy * (a + b) <= map.height - PLAYER_RADIUS,
    ensures
        moved_player(map, moved_player(map, p, a as int), b as int) == moved_player(
            map,
            p,
            (a + b) as int,
        ),
{
    if p.speed.dx == 0 && p.speed.dy == 0 {
    } else {
        let dx = p.speed.dx as int;
        let dy = p.speed.dy as int;
        assert(dx * (a + b) == dx * a + dx * b && dy * (a + b) == dy * a + dy * b)
            by (nonlinear_arith);
        lemma_speed_scale_bound(dx, a as int);
        lemma_speed_scale_bound(dy, a as int);
        lemma_speed_scale_bound(dx, b as int);
        lemma_speed_scale_bound(dy, b as int);
        lemma_speed_scale_bound(dx, (a + b) as int);
        lemma_speed_scale_bound(dy, (a + b) as int);
        let pa = moved_player(map, p, a as int);
        assert(pa.position.x == p.position.x + dx * a && pa.position.y == p.position.y + dy
            * a);
        assert(pa.speed == p.speed);
        let pab = moved_player(map, pa, b as int);
        assert(pab.position.x == p.position.x + dx * (a + b));
        assert(pab.position.y == p.position.y + dy * (a + b));
        let pc = moved_player(map, p, (a + b) as int);
        assert(pc.position.x == p.position.x + dx * (a + b));
        assert(pc.position.y == p.position.y + dy * (a + b));
    }
}

/// A tick leaves every moving player within the map's playable box: each
/// coordinate between the player radius and the matching dimension less
/// the radius.
pub proof fn lemma_tick_stays_in_bounds(map: GameMap, p: Player, elapsed: int)
    requires
        map.wf(),
        p.speed.dx != 0 || p.speed.dy != 0,
    ensures
        PLAYER_RADIUS <= moved_player(map, p, elapsed).position.x <= map.width - PLAYER_RADIUS,
        PLAYER_RADIUS <= moved_player(map, p, elapsed).position.y <= map.height - PLAYER_RADIUS,
{
}

/// A speed component within the cap, scaled by an elapsed time within the
/// cap, stays within one step's movement range.
proof fn lemma_speed_scale_bound(s: int, elapsed: int)
    requires
        -MAX_SPEED <= s <= MAX_SPEED,
        0 <= elapsed <= MAX_ELAPSED_MICROS,
    ensures
        -MAX_MOVE <= s * elapsed <= MAX_MOVE,
{
    assert(-MAX_MOVE <= s * elapsed <= MAX_MOVE) by (nonlinear_arith)
        requires
            -16_000 <= s <= 16_000,
            0 <= elapsed <= 1_000_000,
    ;
}

/// A copy of a task list.
fn copy_tasks(tasks: &Vec<Task>) -> (r: Vec<Task>)
    ensures
        r@ == tasks@,
{
    let n = tasks.len();
    let mut out: Vec<Task> = Vec::new();
    let mut i: usize = 0;
    while i < n
        invariant
            i <= n == tasks@.len(),
            out@.len() == i,
            forall|k: int| 0 <= k < i ==> (#[trigger] out@[k]) == tasks@[k],
        decreases n - i,
    {
        out.push(tasks[i]);
        i = i + 1;
    }
    proof {
        assert(out@ =~= tasks@);
    }
    out
}

impl PlayerStartInfo {
    /// A fresh crew deal: six unfinished tasks at random places in the map.
    pub fn new(map: &GameMap) -> (r: PlayerStartInfo)
        requires
            map.wf(),
            map.width > 960_000,
            map.height > 960_000,
        ensures
            r.team == Team::Crew,
            r.tasks@.len() == 6,
            forall|j: int| 0 <= j < 6 ==> !(#[trigger] r.tasks@[j]).finished,
            forall|j: int|
                0 <= j < 6 ==> 480_000 <= (#[trigger] r.tasks@[j]).position.x < map.width
                    - 480_000 && 480_000 <= r.tasks@[j].position.y < map.height - 480_000,
    {
        let mut tasks: Vec<Task> = Vec::new();
        let mut i: usize = 0;
        while i < 6
            invariant
                i <= 6,
                map.wf(),
                map.width > 960_000,
                map.height > 960_000,
                tasks@.len() == i,
                forall|j: int| 0 <= j < i ==> !(#[trigger] tasks@[j]).finished,
                forall|j: int|
                    0 <= j < i ==> 480_000 <= (#[trigger] tasks@[j]).position.x < map.width
                        - 480_000 && 480_000 <= tasks@[j].position.y < map.height - 480_000,
            decreases 6 - i,
        {
            tasks.push(Task::random_positioned_in_map(map));
            i = i + 1;
        }
        PlayerStartInfo { team: Team::Crew, tasks }
    }
}

/// The roster index of the player with the given identifier, if any.
fn find_player(players: &Vec<Player>, u: &UUID) -> (r: Option<usize>)
    ensures
        match r {
            Some(i) => i < players@.len() && players@[i as int].uuid.v@ == u.v@,
            None => forall|k: int| 0 <= k < players@.len() ==> (#[trigger] players@[k]).uuid.v@
                != u.v@,
        },
{
    let n = players.len();
    let mut i: usize = 0;
    while i < n
        invariant
            i <= n == players@.len(),
            forall|k: int| 0 <= k < i ==> (#[trigger] players@[k]).uuid.v@ != u.v@,
        decreases n - i,
    {
        if uuid_eq(&players[i].uuid, u) {
            return Some(i);
        }
        i = i + 1;
    }
    None
}

impl Default for GameState {
    /// The same fresh session that `new` builds.
    fn default() -> (r: GameState)
        ensures
            r.wf(),
            r.status == GameStatus::Connecting,
            r.players@.len() == 0,
            r.bodies@.len() == 0,
    {
        GameState::new()
    }
}

/// Whether some player of the roster carries the given identifier.
pub open spec fn has_player(players: Seq<Player>, u: UUID) -> bool {
    exists|i: int| 0 <= i < players.len() && (#[trigger] players[i]).uuid.v@ == u.v@
}

/// Whether some player of the roster wears the given color.
pub open spec fn has_color(players: Seq<Player>, c: Color) -> bool {
    exists|i: int| 0 <= i < players.len() && (#[trigger] players[i]).color == c
}

/// Whether every task of a list is finished.
fn tasks_all_finished(tasks: &Vec<Task>) -> (r: bool)
    ensures
        r == (forall|j: int| 0 <= j < tasks@.len() ==> (#[trigger] tasks@[j]).finished),
{
    let n = tasks.len();
    let mut j: usize = 0;
    while j < n
        invariant
            j <= n == tasks@.len(),
            forall|k: int| 0 <= k < j ==> (#[trigger] tasks@[k]).finished,
        decreases n - j,
    {
        if !tasks[j].finished {
            return false;
        }
        j = j + 1;
    }
    true
}

/// Marking players dead by color moves nobody and changes nobody's
/// identity, so a well-formed roster stays well formed.
proof fn lemma_mark_dead_keeps_wf(
    map: GameMap,
    before: Seq<Player>,
    after: Seq<Player>,
    color: Color,
)
    requires
        before.len() == after.len(),
        uuids_unique(before),
        forall|i: int| 0 <= i < before.len() ==> player_ok(map, #[trigger] before[i]),
        forall|i: int|
            0 <= i < before.len() ==> #[trigger] after[i] == (Player {
                dead: before[i].dead || before[i].color == color,
                ..before[i]
            }),
    ensures
        uuids_unique(after),
        forall|i: int| 0 <= i < after.len() ==> player_ok(map, #[trigger] after[i]),
{
    assert forall|i: int| 0 <= i < after.len() implies player_ok(map, #[trigger] after[i]) by {
        assert(after[i].position == before[i].position);
        assert(after[i].speed == before[i].speed);
    }
}

} // verus!
