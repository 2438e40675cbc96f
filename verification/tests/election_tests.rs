use crewgame::status::{DayState, VoteTarget};
use crewgame::uuid::UUID;

fn uuid(tag: u8) -> UUID {
    let mut v = [0u8; 16];
    v[0] = tag;
    UUID { v }
}

fn target(tag: u8) -> VoteTarget {
    VoteTarget::Player { uuid: uuid(tag) }
}

#[test]
fn zero_votes_resolve_to_skip() {
    let day = DayState::new(120_000_000);
    assert!(matches!(day.determine_winner_of_election(), VoteTarget::Skip));
}

#[test]
fn strict_majority_wins() {
    let mut day = DayState::new(120_000_000);
    day.cast_vote(uuid(1), target(9));
    day.cast_vote(uuid(2), target(9));
    day.cast_vote(uuid(3), target(8));
    match day.determine_winner_of_election() {
        VoteTarget::Player { uuid: u } => assert_eq!(u.v, uuid(9).v),
        VoteTarget::Skip => panic!("the target with two of three votes must win"),
    }
}

#[test]
fn equal_top_counts_resolve_to_skip() {
    let mut day = DayState::new(120_000_000);
    day.cast_vote(uuid(1), target(9));
    day.cast_vote(uuid(2), target(8));
    assert!(matches!(day.determine_winner_of_election(), VoteTarget::Skip));
}

#[test]
fn skip_on_top_resolves_to_skip() {
    let mut day = DayState::new(120_000_000);
    day.cast_vote(uuid(1), VoteTarget::Skip);
    day.cast_vote(uuid(2), VoteTarget::Skip);
    day.cast_vote(uuid(3), target(9));
    assert!(matches!(day.determine_winner_of_election(), VoteTarget::Skip));
}

#[test]
fn a_later_vote_overwrites_the_earlier_one() {
    let mut day = DayState::new(120_000_000);
    day.cast_vote(uuid(1), target(8));
    day.cast_vote(uuid(2), target(9));
    day.cast_vote(uuid(1), target(9));
    // With the overwrite the only counted votes are two for player 9.
    match day.determine_winner_of_election() {
        VoteTarget::Player { uuid: u } => assert_eq!(u.v, uuid(9).v),
        VoteTarget::Skip => panic!("after the overwrite player 9 holds every vote"),
    }
    assert_eq!(day.votes.len(), 2);
}

#[test]
fn cast_vote_keeps_the_countdown() {
    let mut day = DayState::new(7_500);
    day.cast_vote(uuid(1), VoteTarget::Skip);
    assert_eq!(day.time_remaining, 7_500);
}
