use vstd::prelude::*;
use crate::uuid::UUID;

verus! {

/// The two factions.
#[derive(Clone, Copy, Debug, PartialEq, Eq)]
pub enum Team {
    Crew,
    Impostors,
}

/// What a vote names: a player, or the choice to eject nobody.
#[derive(Clone, Copy, Debug, PartialEq, Eq, PartialOrd, Ord)]
pub enum VoteTarget {
    Player { uuid: UUID },
    Skip,
}

/// One recorded vote: who cast it and whom it names.
#[derive(Clone, Copy, Debug, PartialEq)]
pub struct Vote {
    pub voter: UUID,
    pub target: VoteTarget,
}

/// The state of a day phase: the votes recorded so far, at most one per
/// voter, and the time left on the countdown, in microseconds.
#[derive(Clone, Debug, PartialEq)]
pub struct DayState {
    pub votes: Vec<Vote>,
    pub time_remaining: u64,
}

/// Whether play is free movement or discussion.
#[derive(Clone, Debug, PartialEq)]
pub enum PlayState {
    Night,
    Day(DayState),
}

/// The top-level phase of a session.
#[derive(Clone, Debug, PartialEq)]
pub enum GameStatus {
    Connecting,
    Lobby,
    Playing(PlayState),
    Won(Team),
    Disconnected,
}

/// Compares two identifiers by their bytes.
pub fn uuid_eq(a: &UUID, b: &UUID) -> (r: bool)
    ensures
        r <==> a.v@ == b.v@,
        r <==> *a == *b,
{
    let mut i: usize = 0;
    while i < 16
        invariant
            i <= 16,
            forall|j: int| 0 <= j < i ==> a.v@[j] == b.v@[j],
        decreases 16 - i,
    {
        if a.v[i] != b.v[i] {
            return false;
        }
        i = i + 1;
    }
    proof {
        assert(a.v@ =~= b.v@);
        assert(a.v =~= b.v);
    }
    true
}

/// Compares two vote targets.
pub fn target_eq(a: &VoteTarget, b: &VoteTarget) -> (r: bool)
    ensures
        r <==> *a == *b,
{
    match (a, b) {
        (VoteTarget::Player { uuid: u1 }, VoteTarget::Player { uuid: u2 }) => uuid_eq(u1, u2),
        (VoteTarget::Skip, VoteTarget::Skip) => true,
        _ => false,
    }
}

/// How many of the recorded votes name the given target.
pub open spec fn vote_count(votes: Seq<Vote>, t: VoteTarget) -> int
    decreases votes.len(),
{
    if votes.len() == 0 {
        0
    } else {
        vote_count(votes.drop_last(), t) + if votes.last().target == t {
            1int
        } else {
            0int
        }
    }
}

/// A target wins an election exactly when it names a player and strictly
/// more votes name it than any other target.
pub open spec fn wins_election(votes: Seq<Vote>, t: VoteTarget) -> bool {
    &&& t matches VoteTarget::Player { .. }
    &&& vote_count(votes, t) >= 1
    &&& forall|t2: VoteTarget| t2 != t ==> vote_count(votes, t2) < vote_count(votes, t)
}

/// The target the first vote of the given voter names, if any.
pub open spec fn target_of(votes: Seq<Vote>, voter: UUID) -> Option<VoteTarget>
    decreases votes.len(),
{
    if votes.len() == 0 {
        None
    } else if votes[0].voter == voter {
        Some(votes[0].target)
    } else {
        target_of(votes.drop_first(), voter)
    }
}

/// Whether some recorded vote was cast by the given voter.
pub open spec fn has_voted(votes: Seq<Vote>, voter: UUID) -> bool {
    exists|i: int| 0 <= i < votes.len() && votes[i].voter == voter
}

/// No two recorded votes come from the same voter.
pub open spec fn voters_unique(votes: Seq<Vote>) -> bool {
    forall|i: int, j: int|
        0 <= i < j < votes.len() ==> (#[trigger] votes[i]).voter != (#[trigger] votes[j]).voter
}

impl DayState {
    /// A fresh day: no votes yet, the full voting time on the clock.
    pub fn new(voting_time: u64) -> (r: DayState)
        ensures
            r.votes@.len() == 0,
            r.time_remaining == voting_time,
    {
        DayState { votes: Vec::new(), time_remaining: voting_time }
    }

    /// Records a vote. A voter who had already voted has their earlier vote
    /// overwritten; anyone else is added to the tally.
    pub fn cast_vote(&mut self, voter: UUID, target: VoteTarget)
        requires
            voters_unique(old(self).votes@),
        ensures
            final(self).time_remaining == old(self).time_remaining,
            voters_unique(final(self).votes@),
            forall|u: UUID|
                target_of(final(self).votes@, u) == if u == voter {
                    (Some(target))
                } else {
                    target_of(old(self).votes@, u)
                },
            forall|u: UUID| has_voted(final(self).votes@, u) <==> (has_voted(old(self).votes@, u)
                || u == voter),
    {
        let ghost old_votes = self.votes@;
        let n = self.votes.len();
        let mut i: usize = 0;
        while i < n
            invariant
                self.votes@ == old_votes,
                old_votes == old(self).votes@,
                self.time_remaining == old(self).time_remaining,
                n == old_votes.len(),
                i <= n,
                voters_unique(old_votes),
                forall|j: int| 0 <= j < i ==> (#[trigger] old_votes[j]).voter != voter,
            decreases n - i,
        {
            if uuid_eq(&self.votes[i].voter, &voter) {
                let v = Vote { voter, target };
                self.votes[i] = v;
                proof {
                    assert(self.votes@ == old_votes.update(i as int, v));
                    assert(forall|j: int|
                        0 <= j < old_votes.len() ==> (#[trigger] self.votes@[j]).voter
                            == old_votes[j].voter);
                    assert forall|u: UUID|
                        target_of(self.votes@, u) == if u == voter {
                            (Some(target))
                        } else {
                            target_of(old_votes, u)
                        } by {
                        lemma_target_of_update(old_votes, i as int, v, u);
                    }
                    assert forall|u: UUID| has_voted(self.votes@, u) <==> (has_voted(old_votes, u)
                        || u == voter) by {
                        lemma_has_voted_iff_some(old_votes, u);
                        lemma_has_voted_iff_some(self.votes@, u);
                    }
                }
                return ;
            }
            i = i + 1;
        }
        let v = Vote { voter, target };
        self.votes.push(v);
        proof {
            assert(self.votes@ == old_votes.push(v));
            assert(forall|j: int|
                0 <= j < old_votes.len() ==> (#[trigger] self.votes@[j]) == old_votes[j]);
            assert forall|u: UUID|
                target_of(self.votes@, u) == if u == voter {
                    (Some(target))
                } else {
                    target_of(old_votes, u)
                } by {
                lemma_target_of_append(old_votes, v, u);
            }
            assert forall|u: UUID| has_voted(self.votes@, u) <==> (has_voted(old_votes, u) || u
                == voter) by {
                lemma_has_voted_iff_some(old_votes, u);
                lemma_has_voted_iff_some(self.votes@, u);
            }
        }
    }
}

/// Whether a tally row exists for the given target.
pub open spec fn tallied(counts: Seq<(VoteTarget, u64)>, t: VoteTarget) -> bool {
    exists|a: int| 0 <= a < counts.len() && (#[trigger] counts[a]).0 == t
}

/// A count of votes never exceeds the number of votes.
pub proof fn lemma_vote_count_le_len(votes: Seq<Vote>, t: VoteTarget)
    ensures
        vote_count(votes, t) <= votes.len(),
    decreases votes.len(),
{
    if votes.len() > 0 {
        lemma_vote_count_le_len(votes.drop_last(), t);
    }
}

/// Extending a prefix of the votes by one vote raises the count of that
/// vote's target by one and leaves every other count alone.
proof fn lemma_vote_count_take_step(votes: Seq<Vote>, i: int, t: VoteTarget)
    requires
        0 <= i < votes.len(),
    ensures
        vote_count(votes.take(i + 1), t) == vote_count(votes.take(i), t) + if votes[i].target
            == t {
            1int
        } else {
            0int
        },
{
    assert(votes.take(i + 1).drop_last() =~= votes.take(i));
    assert(votes.take(i + 1).last() == votes[i]);
}

/// The row of the tally that holds the given target, if any.
fn find_target(counts: &Vec<(VoteTarget, u64)>, t: &VoteTarget) -> (r: Option<usize>)
    ensures
        match r {
            Some(a) => a < counts@.len() && counts@[a as int].0 == *t,
            None => forall|a: int| 0 <= a < counts@.len() ==> (#[trigger] counts@[a]).0 != *t,
        },
{
    let mut j: usize = 0;
    while j < counts.len()
        invariant
            j <= counts@.len(),
            forall|a: int| 0 <= a < j ==> (#[trigger] counts@[a]).0 != *t,
        decreases counts@.len() - j,
    {
        if target_eq(&counts[j].0, t) {
            return Some(j);
        }
        j = j + 1;
    }
    None
}

impl DayState {
    /// Resolves the election over the recorded votes. The player named by
    /// strictly more votes than any other target wins; a tie at the top, a
    /// top count held by the skip choice, or an empty tally resolves to
    /// skip.
    pub fn determine_winner_of_election(&self) -> (r: VoteTarget)
        ensures
            r matches VoteTarget::Player { .. } ==> wins_election(self.votes@, r),
            r == VoteTarget::Skip ==> forall|t: VoteTarget| !wins_election(self.votes@, t),
    {
        let ghost vs = self.votes@;
        let n = self.votes.len();
        let mut counts: Vec<(VoteTarget, u64)> = Vec::new();
        let mut i: usize = 0;
        while i < n
            invariant
                i <= n == vs.len(),
                vs == self.votes@,
                forall|a: int, b: int|
                    0 <= a < b < counts@.len() ==> (#[trigger] counts@[a]).0 != (
                    #[trigger] counts@[b]).0,
                forall|a: int|
                    0 <= a < counts@.len() ==> (#[trigger] counts@[a]).1 as int == vote_count(
                        vs.take(i as int),
                        counts@[a].0,
                    ) && counts@[a].1 >= 1,
                forall|t: VoteTarget|
                    !tallied(counts@, t) ==> #[trigger] vote_count(vs.take(i as int), t) == 0,
            decreases n - i,
        {
            let v = self.votes[i];
            let ghost prev = counts@;
            match find_target(&counts, &v.target) {
                Some(a) => {
                    let c = counts[a].1;
                    proof {
                        lemma_vote_count_le_len(vs.take(i as int), prev[a as int].0);
                    }
                    counts[a] = (v.target, c + 1);
                    proof {
                        assert(counts@[a as int].0 == v.target);
                        assert(tallied(counts@, v.target));
                    }
                },
                None => {
                    counts.push((v.target, 1));
                    proof {
                        assert(counts@[counts@.len() - 1].0 == v.target);
                        assert(tallied(counts@, v.target));
                    }
                },
            }
            proof {
                assert(vs.take(i as int + 1).drop_last() =~= vs.take(i as int));
                assert forall|a: int| 0 <= a < counts@.len() implies (#[trigger] counts@[a]).1
                    as int == vote_count(vs.take(i as int + 1), counts@[a].0) && counts@[a].1
                    >= 1 by {
                    lemma_vote_count_take_step(vs, i as int, counts@[a].0);
                    if a < prev.len() && prev[a].0 != v.target {
                        assert(counts@[a] == prev[a]);
                    }
                    if a == prev.len() {
                        assert(!tallied(prev, v.target));
                    }
                }
                assert forall|t: VoteTarget| !tallied(counts@, t) implies #[trigger] vote_count(
                    vs.take(i as int + 1),
                    t,
                ) == 0 by {
                    lemma_vote_count_take_step(vs, i as int, t);
                    assert(!tallied(prev, t)) by {
                        if tallied(prev, t) {
                            let a = choose|a: int| 0 <= a < prev.len() && (#[trigger] prev[a]).0
                                == t;
                            assert(counts@[a].0 == t);
                        }
                    }
                    assert(t != v.target) by {
                        if t == v.target {
                            assert(tallied(counts@, t));
                        }
                    }
                }
            }
            i = i + 1;
        }
        proof {
            assert(vs.take(n as int) =~= vs);
        }
        if counts.len() == 0 {
            proof {
                assert forall|t: VoteTarget| !wins_election(vs, t) by {
                    assert(!tallied(counts@, t));
                    assert(vote_count(vs.take(n as int), t) == 0);
                }
            }
            return VoteTarget::Skip;
        }
        let mut best: usize = 0;
        let mut tie: bool = false;
        let mut k: usize = 1;
        while k < counts.len()
            invariant
                counts@.len() >= 1,
                best < k <= counts@.len(),
                forall|j: int|
                    0 <= j < k && j != best ==> (#[trigger] counts@[j]).1 <= counts@[best as int].1,
                !tie ==> forall|j: int|
                    0 <= j < k && j != best ==> (#[trigger] counts@[j]).1 < counts@[
                        best as int].1,
                tie ==> exists|j: int|
                    0 <= j < k && j != best && (#[trigger] counts@[j]).1 == counts@[
                        best as int].1,
            decreases counts@.len() - k,
        {
            if counts[k].1 > counts[best].1 {
                best = k;
                tie = false;
            } else if counts[k].1 == counts[best].1 {
                tie = true;
            }
            k = k + 1;
        }
        let winner = counts[best].0;
        proof {
            lemma_election_outcome(vs, counts@, best as int, tie);
        }
        if tie {
            VoteTarget::Skip
        } else {
            match winner {
                VoteTarget::Player { .. } => winner,
                VoteTarget::Skip => VoteTarget::Skip,
            }
        }
    }
}

/// What the scanned tally says of the election: with a tie at the top or a
/// top row held by skip nobody wins; otherwise the top row's player wins.
proof fn lemma_election_outcome(
    vs: Seq<Vote>,
    counts: Seq<(VoteTarget, u64)>,
    best: int,
    tie: bool,
)
    requires
        0 <= best < counts.len(),
        forall|a: int, b: int|
            0 <= a < b < counts.len() ==> (#[trigger] counts[a]).0 != (#[trigger] counts[b]).0,
        forall|a: int|
            0 <= a < counts.len() ==> (#[trigger] counts[a]).1 as int == vote_count(
                vs,
                counts[a].0,
            ) && counts[a].1 >= 1,
        forall|t: VoteTarget| !tallied(counts, t) ==> #[trigger] vote_count(vs, t) == 0,
        forall|j: int|
            0 <= j < counts.len() && j != best ==> (#[trigger] counts[j]).1 <= counts[best].1,
        !tie ==> forall|j: int|
            0 <= j < counts.len() && j != best ==> (#[trigger] counts[j]).1 < counts[best].1,
        tie ==> exists|j: int|
            0 <= j < counts.len() && j != best && (#[trigger] counts[j]).1 == counts[best].1,
    ensures
        tie ==> forall|t: VoteTarget| !wins_election(vs, t),
        !tie && (counts[best].0 matches VoteTarget::Player { .. }) ==> wins_election(
            vs,
            counts[best].0,
        ),
        !tie && counts[best].0 == VoteTarget::Skip ==> forall|t: VoteTarget| !wins_election(
            vs,
            t,
        ),
{
    let w = counts[best].0;
    if tie {
        let j = choose|j: int|
            0 <= j < counts.len() && j != best && (#[trigger] counts[j]).1 == counts[best].1;
        assert forall|t: VoteTarget| !wins_election(vs, t) by {
            if wins_election(vs, t) {
                if !tallied(counts, t) {
                    assert(vote_count(vs, t) == 0);
                } else {
                    let a = choose|a: int|
                        0 <= a < counts.len() && (#[trigger] counts[a]).0 == t;
                    if a == best {
                        assert(counts[j].0 != t);
                        assert(vote_count(vs, counts[j].0) < vote_count(vs, t));
                    } else {
                        assert(counts[best].0 != t);
                        assert(vote_count(vs, counts[best].0) < vote_count(vs, t));
                        assert(counts[a].1 <= counts[best].1);
                    }
                }
            }
        }
    } else {
        if w matches VoteTarget::Player { .. } {
            assert(vote_count(vs, w) == counts[best].1 as int >= 1);
            assert forall|t2: VoteTarget| t2 != w implies vote_count(vs, t2) < vote_count(
                vs,
                w,
            ) by {
                if tallied(counts, t2) {
                    let a = choose|a: int|
                        0 <= a < counts.len() && (#[trigger] counts[a]).0 == t2;
                    assert(a != best);
                    assert(counts[a].1 < counts[best].1);
                } else {
                    assert(vote_count(vs, t2) == 0);
                }
            }
        } else {
            assert forall|t: VoteTarget| !wins_election(vs, t) by {
                if wins_election(vs, t) {
                    assert(t != w);
                    if !tallied(counts, t) {
                        assert(vote_count(vs, t) == 0);
                    } else {
                        let a = choose|a: int|
                            0 <= a < counts.len() && (#[trigger] counts[a]).0 == t;
                        assert(a != best);
                        assert(counts[a].1 < counts[best].1);
                        assert(vote_count(vs, w) < vote_count(vs, t));
                    }
                }
            }
        }
    }
}

/// When two distinct targets share the top vote count, nothing wins the
/// election, so it resolves to skip.
pub proof fn lemma_tie_resolves_to_skip(votes: Seq<Vote>, t1: VoteTarget, t2: VoteTarget)
    requires
        t1 != t2,
        vote_count(votes, t1) == vote_count(votes, t2),
        forall|t: VoteTarget| vote_count(votes, t) <= vote_count(votes, t1),
    ensures
        forall|t: VoteTarget| !wins_election(votes, t),
{
    assert forall|t: VoteTarget| !wins_election(votes, t) by {
        if wins_election(votes, t) {
            if t == t1 {
                assert(vote_count(votes, t2) < vote_count(votes, t1));
            } else {
                assert(vote_count(votes, t1) < vote_count(votes, t));
            }
        }
    }
}

/// A voter appears in a vote list exactly when looking their vote up finds
/// one.
pub proof fn lemma_has_voted_iff_some(votes: Seq<Vote>, voter: UUID)
    ensures
        has_voted(votes, voter) <==> target_of(votes, voter) is Some,
    decreases votes.len(),
{
    if votes.len() > 0 && votes[0].voter != voter {
        lemma_has_voted_iff_some(votes.drop_first(), voter);
        assert(has_voted(votes, voter) ==> has_voted(votes.drop_first(), voter)) by {
            if has_voted(votes, voter) {
                let i = choose|i: int| 0 <= i < votes.len() && votes[i].voter == voter;
                assert(votes.drop_first()[i - 1].voter == voter);
            }
        }
        assert(has_voted(votes.drop_first(), voter) ==> has_voted(votes, voter)) by {
            if has_voted(votes.drop_first(), voter) {
                let i = choose|i: int|
                    0 <= i < votes.drop_first().len() && votes.drop_first()[i].voter == voter;
                assert(votes[i + 1].voter == voter);
            }
        }
    }
}

/// Overwriting the vote at the first position a voter holds changes only
/// that voter's lookup.
proof fn lemma_target_of_update(votes: Seq<Vote>, k: int, v: Vote, u: UUID)
    requires
        0 <= k < votes.len(),
        votes[k].voter == v.voter,
        forall|j: int| 0 <= j < k ==> (#[trigger] votes[j]).voter != v.voter,
    ensures
        target_of(votes.update(k, v), u) == if u == v.voter {
            (Some(v.target))
        } else {
            target_of(votes, u)
        },
    decreases votes.len(),
{
    let updated = votes.update(k, v);
    if k == 0 {
        assert(updated[0] == v);
        if u != v.voter {
            assert(updated.drop_first() =~= votes.drop_first());
        }
    } else {
        assert(updated[0] == votes[0]);
        assert(forall|j: int|
            0 <= j < votes.len() - 1 ==> (#[trigger] votes.drop_first()[j]) == votes[j + 1]);
        lemma_target_of_update(votes.drop_first(), k - 1, v, u);
        assert(updated.drop_first() =~= votes.drop_first().update(k - 1, v));
    }
}

/// Appending a vote from a voter who has none changes only that voter's
/// lookup.
proof fn lemma_target_of_append(votes: Seq<Vote>, v: Vote, u: UUID)
    requires
        forall|j: int| 0 <= j < votes.len() ==> (#[trigger] votes[j]).voter != v.voter,
    ensures
        target_of(votes.push(v), u) == if u == v.voter {
            (Some(v.target))
        } else {
            target_of(votes, u)
        },
    decreases votes.len(),
{
    let appended = votes.push(v);
    if votes.len() == 0 {
        assert(appended.len() == 1);
        assert(appended[0] == v);
        if u == v.voter {
            assert(target_of(appended, u) == Some(v.target));
        } else {
            assert(appended.drop_first() =~= Seq::<Vote>::empty());
            assert(target_of(appended.drop_first(), u) is None);
            assert(target_of(appended, u) is None);
            assert(target_of(votes, u) is None);
        }
    } else {
        assert(appended[0] == votes[0]);
        assert(forall|j: int|
            0 <= j < votes.len() - 1 ==> (#[trigger] votes.drop_first()[j]) == votes[j + 1]);
        lemma_target_of_append(votes.drop_first(), v, u);
        assert(appended.drop_first() =~= votes.drop_first().push(v));
        if votes[0].voter == u {
            assert(target_of(appended, u) == Some(votes[0].target));
            assert(target_of(votes, u) == Some(votes[0].target));
            assert(u != v.voter);
        } else {
            assert(target_of(appended, u) == target_of(appended.drop_first(), u));
            assert(target_of(votes, u) == target_of(votes.drop_first(), u));
        }
    }
}

/// A day after some time has passed: the countdown drops by the elapsed
/// microseconds, never below zero; the votes stay.
pub open spec fn day_after_time(d: DayState, elapsed: u64) -> DayState {
    DayState {
        time_remaining: if d.time_remaining >= elapsed {
            ((d.time_remaining - elapsed) as u64)
        } else {
            (0u64)
        },
        ..d
    }
}

impl GameStatus {
    /// Runs the day countdown. During a day phase the time remaining drops
    /// by the elapsed microseconds, never below zero; nothing else changes.
    pub fn progress_time(&mut self, elapsed: u64)
        ensures
            match *old(self) {
                GameStatus::Playing(PlayState::Day(d)) => *final(self) == GameStatus::Playing(
                    PlayState::Day(day_after_time(d, elapsed)),
                ),
                _ => *final(self) == *old(self),
            },
    {
        match self {
            GameStatus::Playing(PlayState::Day(day_state)) => {
                if day_state.time_remaining >= elapsed {
                    day_state.time_remaining = day_state.time_remaining - elapsed;
                } else {
                    day_state.time_remaining = 0;
                }
            },
            _ => {},
        }
    }

    /// Whether two statuses are the same phase, whatever each carries.
    pub fn is_same_kind(&self, other: &GameStatus) -> (r: bool)
        ensures
            r <==> same_kind(*self, *other),
    {
        match self {
            GameStatus::Connecting => matches!(other, GameStatus::Connecting),
            GameStatus::Lobby => matches!(other, GameStatus::Lobby),
            GameStatus::Playing(_) => matches!(other, GameStatus::Playing(_)),
            GameStatus::Won(_) => matches!(other, GameStatus::Won(_)),
            GameStatus::Disconnected => matches!(other, GameStatus::Disconnected),
        }
    }

    /// Whether the session has reached a terminal status.
    pub fn finished(&self) -> (r: bool)
        ensures
            r <==> ((*self matches GameStatus::Won(_)) || *self == GameStatus::Disconnected),
    {
        match self {
            GameStatus::Connecting => false,
            GameStatus::Lobby => false,
            GameStatus::Playing(_) => false,
            GameStatus::Won(_) => true,
            GameStatus::Disconnected => true,
        }
    }
}

/// Whether two statuses are the same phase.
pub open spec fn same_kind(a: GameStatus, b: GameStatus) -> bool {
    match a {
        GameStatus::Connecting => b matches GameStatus::Connecting,
        GameStatus::Lobby => b matches GameStatus::Lobby,
        GameStatus::Playing(_) => b matches GameStatus::Playing(_),
        GameStatus::Won(_) => b matches GameStatus::Won(_),
        GameStatus::Disconnected => b matches GameStatus::Disconnected,
    }
}

} // verus!
