use quadratic_voting::community::{Community, Started, Transition};
use quadratic_voting::ranking::Standing;
use quadratic_voting::rules::{ElectionError, Phase, Rules};

fn voting_on(names: &[&str]) -> Community {
    let mut community = Community::new(1, Rules::standard());
    for name in names {
        assert_eq!(community.propose(name), Ok(name.to_string()));
    }
    assert!(matches!(community.stop(true), Ok(Transition::VotingOpened { .. })));
    community
}

fn standing(id: usize, text: &str, votes: u128) -> Standing {
    Standing { id, text: text.to_string(), votes }
}

#[test]
fn a_new_community_collects_proposals() {
    let community = Community::new(17, Rules::standard());
    assert_eq!(community.id(), 17);
    assert_eq!(community.phase(), Phase::Suggestion);
    assert_eq!(community.rules(), Rules::standard());
    assert_eq!(community.proposals(), Vec::<String>::new());
    assert_eq!(community.standings(), Vec::<Standing>::new());
    assert_eq!(community.balance_of(5), 100);
    assert!(!community.in_suggestion_period());
    assert!(!community.in_vote_period());
}

#[test]
fn stopping_with_proposals_opens_the_vote() {
    let mut community = Community::new(1, Rules::standard());
    assert_eq!(community.propose(" pool "), Ok("pool".to_string()));
    assert_eq!(community.propose("gym"), Ok("gym".to_string()));
    assert!(community.in_suggestion_period());
    assert_eq!(
        community.stop(true),
        Ok(Transition::VotingOpened {
            candidates: vec!["pool".to_string(), "gym".to_string()],
            hours: 24,
        })
    );
    assert_eq!(community.phase(), Phase::Voting);
    assert_eq!(community.proposals(), Vec::<String>::new());
    assert!(!community.in_suggestion_period());
    assert!(community.in_vote_period());
    assert_eq!(community.standings(), vec![standing(0, "pool", 0), standing(1, "gym", 0)]);
}

#[test]
fn stopping_a_vote_announces_the_winners_and_resets() {
    let mut community = voting_on(&["pool", "gym"]);
    assert_eq!(community.cast_vote(7, 2, 4), Ok(84));
    assert_eq!(community.cast_vote(8, 1, 3), Ok(91));
    assert_eq!(
        community.stop(true),
        Ok(Transition::VotingClosed {
            winners: vec![standing(1, "gym", 4), standing(0, "pool", 3)],
        })
    );
    assert_eq!(community.phase(), Phase::Suggestion);
    assert_eq!(community.balance_of(7), 100);
    assert_eq!(community.balance_of(8), 100);
    assert_eq!(community.standings(), Vec::<Standing>::new());
    assert_eq!(community.propose("library"), Ok("library".to_string()));
}

#[test]
fn stopping_with_nothing_to_stop_is_no_active_election() {
    let mut community = Community::new(1, Rules::standard());
    assert_eq!(community.stop(true), Err(ElectionError::NoActiveElection));
    assert_eq!(community.phase(), Phase::Suggestion);
}

#[test]
fn stopping_and_starting_need_authorization() {
    let mut community = Community::new(1, Rules::standard());
    assert_eq!(community.propose("pool"), Ok("pool".to_string()));
    assert_eq!(community.stop(false), Err(ElectionError::NotAuthorized));
    assert_eq!(community.start(false), Err(ElectionError::NotAuthorized));
    assert_eq!(community.phase(), Phase::Suggestion);
    assert_eq!(community.proposals(), vec!["pool".to_string()]);
    let mut empty = Community::new(2, Rules::standard());
    assert_eq!(empty.stop(false), Err(ElectionError::NotAuthorized));
    let mut voting = voting_on(&["pool"]);
    assert_eq!(voting.cast_vote(7, 1, 2), Ok(96));
    assert_eq!(voting.stop(false), Err(ElectionError::NotAuthorized));
    assert_eq!(voting.start(false), Err(ElectionError::NotAuthorized));
    assert_eq!(voting.phase(), Phase::Voting);
    assert_eq!(voting.balance_of(7), 96);
}

#[test]
fn proposing_during_a_vote_is_the_wrong_phase() {
    let mut community = voting_on(&["pool"]);
    assert_eq!(community.propose("gym"), Err(ElectionError::WrongPhase));
    assert_eq!(community.propose("pool"), Err(ElectionError::WrongPhase));
    assert_eq!(community.proposals(), Vec::<String>::new());
    assert_eq!(community.standings(), vec![standing(0, "pool", 0)]);
}

#[test]
fn a_duplicate_proposal_is_reported_and_changes_nothing() {
    let mut community = Community::new(1, Rules::standard());
    assert_eq!(community.propose("Add a pool"), Ok("Add a pool".to_string()));
    assert_eq!(community.propose("Add a pool "), Err(ElectionError::DuplicateProposal));
    assert_eq!(community.propose("add a POOL"), Err(ElectionError::DuplicateProposal));
    assert_eq!(community.proposals(), vec!["Add a pool".to_string()]);
}

#[test]
fn voting_outside_a_vote_is_the_wrong_phase() {
    let mut community = Community::new(1, Rules::standard());
    assert_eq!(community.cast_vote(7, 1, 1), Err(ElectionError::WrongPhase));
    assert_eq!(community.propose("pool"), Ok("pool".to_string()));
    assert_eq!(community.cast_vote(7, 1, 1), Err(ElectionError::WrongPhase));
    assert_eq!(community.cast_vote(7, 0, 0), Err(ElectionError::WrongPhase));
    assert_eq!(community.balance_of(7), 100);
}

#[test]
fn candidates_are_numbered_from_one() {
    let mut community = voting_on(&["pool", "gym", "sauna"]);
    assert_eq!(community.cast_vote(7, 0, 1), Err(ElectionError::UnknownCandidate));
    assert_eq!(community.cast_vote(7, -1, 1), Err(ElectionError::UnknownCandidate));
    assert_eq!(community.cast_vote(7, 4, 1), Err(ElectionError::UnknownCandidate));
    assert_eq!(community.cast_vote(7, i64::MAX, 1), Err(ElectionError::UnknownCandidate));
    assert_eq!(community.cast_vote(7, i64::MIN, 1), Err(ElectionError::UnknownCandidate));
    assert_eq!(community.cast_vote(7, 3, 2), Ok(96));
    assert_eq!(community.cast_vote(7, 1, 1), Ok(95));
    assert_eq!(
        community.standings(),
        vec![standing(2, "sauna", 2), standing(0, "pool", 1), standing(1, "gym", 0)]
    );
}

#[test]
fn vote_counts_are_between_one_and_the_cap() {
    let mut community = voting_on(&["pool"]);
    assert_eq!(community.cast_vote(7, 1, 0), Err(ElectionError::InvalidVoteCount));
    assert_eq!(community.cast_vote(7, 1, -3), Err(ElectionError::InvalidVoteCount));
    assert_eq!(community.cast_vote(7, 1, 11), Err(ElectionError::InvalidVoteCount));
    assert_eq!(community.cast_vote(7, 1, i64::MAX), Err(ElectionError::InvalidVoteCount));
    assert_eq!(community.cast_vote(7, 1, i64::MIN), Err(ElectionError::InvalidVoteCount));
    assert_eq!(community.cast_vote(7, 1, 4_294_967_297), Err(ElectionError::InvalidVoteCount));
    assert_eq!(community.balance_of(7), 100);
    assert_eq!(community.cast_vote(7, 1, 10), Ok(0));
    assert_eq!(community.cast_vote(7, 1, 1), Ok(99));
}

#[test]
fn an_unknown_candidate_is_reported_before_an_invalid_count() {
    let mut community = voting_on(&["pool"]);
    assert_eq!(community.cast_vote(7, 2, 0), Err(ElectionError::UnknownCandidate));
    assert_eq!(community.cast_vote(7, 0, 99), Err(ElectionError::UnknownCandidate));
}

#[test]
fn revoting_through_the_community() {
    let mut community = voting_on(&["pool"]);
    assert_eq!(community.cast_vote(7, 1, 3), Ok(91));
    assert_eq!(community.cast_vote(7, 1, 5), Ok(75));
    assert_eq!(community.cast_vote(7, 1, 10), Ok(0));
    assert_eq!(community.balance_of(7), 0);
    assert_eq!(community.standings(), vec![standing(0, "pool", 10)]);
}

#[test]
fn insufficient_credits_through_the_community() {
    let mut community = voting_on(&["pool", "gym"]);
    assert_eq!(community.cast_vote(7, 1, 5), Ok(75));
    assert_eq!(community.cast_vote(7, 1, 9), Ok(19));
    assert_eq!(community.cast_vote(7, 2, 5), Err(ElectionError::InsufficientCredits));
    assert_eq!(community.balance_of(7), 19);
    assert_eq!(community.cast_vote(7, 2, 4), Ok(3));
    assert_eq!(
        community.standings(),
        vec![standing(0, "pool", 9), standing(1, "gym", 4)]
    );
}

#[test]
fn a_stale_suggestion_timer_changes_nothing() {
    let mut community = Community::new(1, Rules::standard());
    assert_eq!(community.propose("pool"), Ok("pool".to_string()));
    assert!(matches!(community.stop(true), Ok(Transition::VotingOpened { .. })));
    assert_eq!(community.cast_vote(7, 1, 2), Ok(96));
    assert_eq!(community.timer_expired(Phase::Suggestion), None);
    assert_eq!(community.phase(), Phase::Voting);
    assert_eq!(community.standings(), vec![standing(0, "pool", 2)]);
    assert_eq!(community.balance_of(7), 96);
    assert_eq!(community.proposals(), Vec::<String>::new());
    assert_eq!(community.timer_expired(Phase::Suggestion), None);
}

#[test]
fn a_stale_voting_timer_changes_nothing() {
    let mut community = voting_on(&["pool"]);
    assert!(matches!(community.stop(true), Ok(Transition::VotingClosed { .. })));
    assert_eq!(community.propose("gym"), Ok("gym".to_string()));
    assert_eq!(community.timer_expired(Phase::Voting), None);
    assert_eq!(community.phase(), Phase::Suggestion);
    assert_eq!(community.proposals(), vec!["gym".to_string()]);
}

#[test]
fn the_suggestion_timer_opens_the_vote() {
    let mut community = Community::new(1, Rules::standard());
    assert_eq!(community.timer_expired(Phase::Suggestion), None);
    assert_eq!(community.propose("pool"), Ok("pool".to_string()));
    assert_eq!(
        community.timer_expired(Phase::Suggestion),
        Some(Transition::VotingOpened { candidates: vec!["pool".to_string()], hours: 24 })
    );
    assert_eq!(community.phase(), Phase::Voting);
    assert_eq!(community.timer_expired(Phase::Suggestion), None);
}

#[test]
fn the_voting_timer_closes_the_vote() {
    let mut community = voting_on(&["pool", "gym"]);
    assert_eq!(community.cast_vote(7, 2, 1), Ok(99));
    assert_eq!(
        community.timer_expired(Phase::Voting),
        Some(Transition::VotingClosed {
            winners: vec![standing(1, "gym", 1), standing(0, "pool", 0)],
        })
    );
    assert_eq!(community.phase(), Phase::Suggestion);
    assert_eq!(community.balance_of(7), 100);
    assert_eq!(community.timer_expired(Phase::Voting), None);
    assert_eq!(community.stop(true), Err(ElectionError::NoActiveElection));
}

#[test]
fn starting_during_a_vote_discards_it() {
    let mut community = voting_on(&["pool"]);
    assert_eq!(community.cast_vote(7, 1, 6), Ok(64));
    assert_eq!(community.start(true), Ok(Started { discarded_vote: true, hours: 48 }));
    assert_eq!(community.phase(), Phase::Suggestion);
    assert_eq!(community.balance_of(7), 100);
    assert_eq!(community.standings(), Vec::<Standing>::new());
    assert_eq!(community.propose("pool"), Ok("pool".to_string()));
}

#[test]
fn starting_while_proposals_are_collected_keeps_them() {
    let mut community = Community::new(1, Rules::standard());
    assert_eq!(community.start(true), Ok(Started { discarded_vote: false, hours: 48 }));
    assert_eq!(community.propose("pool"), Ok("pool".to_string()));
    assert_eq!(community.start(true), Ok(Started { discarded_vote: false, hours: 48 }));
    assert_eq!(community.phase(), Phase::Suggestion);
    assert_eq!(community.proposals(), vec!["pool".to_string()]);
}

#[test]
fn the_hours_come_from_the_rules() {
    let rules = Rules { suggestion_hours: 3, voting_hours: 2, ..Rules::standard() };
    let mut community = Community::new(1, rules);
    assert_eq!(community.start(true), Ok(Started { discarded_vote: false, hours: 3 }));
    assert_eq!(community.propose("pool"), Ok("pool".to_string()));
    assert_eq!(
        community.stop(true),
        Ok(Transition::VotingOpened { candidates: vec!["pool".to_string()], hours: 2 })
    );
}

#[test]
fn elections_follow_each_other() {
    let mut community = Community::new(1, Rules::standard());
    for round in 0..3u64 {
        assert_eq!(community.propose("pool"), Ok("pool".to_string()));
        assert_eq!(community.propose("gym"), Ok("gym".to_string()));
        assert!(matches!(community.stop(true), Ok(Transition::VotingOpened { .. })));
        assert_eq!(community.cast_vote(round, 1, 10), Ok(0));
        assert_eq!(community.cast_vote(99, 2, 2), Ok(96));
        assert_eq!(
            community.stop(true),
            Ok(Transition::VotingClosed {
                winners: vec![standing(0, "pool", 10), standing(1, "gym", 2)],
            })
        );
        assert_eq!(community.balance_of(round), 100);
        assert_eq!(community.balance_of(99), 100);
    }
}

#[test]
fn a_vote_without_ballots_changes_no_balance() {
    let mut community = voting_on(&["pool"]);
    assert_eq!(community.cast_vote(7, 1, 6), Ok(64));
    assert!(matches!(community.stop(true), Ok(Transition::VotingClosed { .. })));
    assert_eq!(community.propose("gym"), Ok("gym".to_string()));
    assert_eq!(community.propose("sauna"), Ok("sauna".to_string()));
    assert!(matches!(community.stop(true), Ok(Transition::VotingOpened { .. })));
    assert_eq!(
        community.stop(true),
        Ok(Transition::VotingClosed {
            winners: vec![standing(0, "gym", 0), standing(1, "sauna", 0)],
        })
    );
    assert_eq!(community.phase(), Phase::Suggestion);
    assert_eq!(community.balance_of(7), 100);
    assert_eq!(community.balance_of(8), 100);
    assert_eq!(community.proposals(), Vec::<String>::new());
    assert_eq!(community.standings(), Vec::<Standing>::new());
    assert_eq!(community.stop(true), Err(ElectionError::NoActiveElection));
}
