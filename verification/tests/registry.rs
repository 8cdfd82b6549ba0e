use quadratic_voting::community::{Started, Transition};
use quadratic_voting::ranking::Standing;
use quadratic_voting::registry::Registry;
use quadratic_voting::rules::{ElectionError, Phase, Rules};

fn standing(id: usize, text: &str, votes: u128) -> Standing {
    Standing { id, text: text.to_string(), votes }
}

#[test]
fn the_registry_holds_the_allow_list() {
    let registry = Registry::new(&vec![10, 20, 30], Rules::standard());
    assert_eq!(registry.len(), 3);
    assert!(registry.contains(10));
    assert!(registry.contains(20));
    assert!(registry.contains(30));
    assert!(!registry.contains(40));
    assert_eq!(registry.phase(20), Ok(Phase::Suggestion));
    assert_eq!(registry.community(30).map(|community| community.id()), Some(30));
    assert!(registry.community(31).is_none());
}

#[test]
fn an_identifier_listed_twice_counts_once() {
    let registry = Registry::new(&vec![5, 7, 5, 5, 7], Rules::standard());
    assert_eq!(registry.len(), 2);
    assert!(registry.contains(5));
    assert!(registry.contains(7));
    let ids: Vec<u64> =
        registry.into_communities().iter().map(|community| community.id()).collect();
    assert_eq!(ids, vec![5, 7]);
}

#[test]
fn an_empty_allow_list_knows_no_community() {
    let mut registry = Registry::new(&Vec::new(), Rules::standard());
    assert_eq!(registry.len(), 0);
    assert!(!registry.contains(0));
    assert_eq!(registry.propose(0, "pool"), Err(ElectionError::UnknownCommunity));
    assert_eq!(registry.into_communities().len(), 0);
}

#[test]
fn requests_to_an_unknown_community_are_turned_down() {
    let mut registry = Registry::new(&vec![1], Rules::standard());
    assert_eq!(registry.phase(2), Err(ElectionError::UnknownCommunity));
    assert_eq!(registry.balance_of(2, 7), Err(ElectionError::UnknownCommunity));
    assert_eq!(registry.proposals(2), Err(ElectionError::UnknownCommunity));
    assert_eq!(registry.standings(2), Err(ElectionError::UnknownCommunity));
    assert_eq!(registry.propose(2, "pool"), Err(ElectionError::UnknownCommunity));
    assert_eq!(registry.cast_vote(2, 7, 1, 1), Err(ElectionError::UnknownCommunity));
    assert_eq!(registry.start(2, true), Err(ElectionError::UnknownCommunity));
    assert_eq!(registry.start(2, false), Err(ElectionError::UnknownCommunity));
    assert_eq!(registry.stop(2, true), Err(ElectionError::UnknownCommunity));
    assert_eq!(registry.stop(2, false), Err(ElectionError::UnknownCommunity));
    assert_eq!(registry.timer_expired(2, Phase::Voting), Err(ElectionError::UnknownCommunity));
    assert_eq!(registry.proposals(1), Ok(Vec::new()));
}

#[test]
fn communities_are_isolated() {
    let mut registry = Registry::new(&vec![1, 2], Rules::standard());
    assert_eq!(registry.propose(1, "pool"), Ok("pool".to_string()));
    assert_eq!(registry.propose(2, "pool"), Ok("pool".to_string()));
    assert_eq!(registry.propose(2, "gym"), Ok("gym".to_string()));
    assert_eq!(
        registry.stop(1, true),
        Ok(Transition::VotingOpened { candidates: vec!["pool".to_string()], hours: 24 })
    );
    assert_eq!(registry.phase(1), Ok(Phase::Voting));
    assert_eq!(registry.phase(2), Ok(Phase::Suggestion));
    assert_eq!(registry.proposals(2), Ok(vec!["pool".to_string(), "gym".to_string()]));
    assert_eq!(registry.cast_vote(1, 7, 1, 10), Ok(0));
    assert_eq!(registry.balance_of(1, 7), Ok(0));
    assert_eq!(registry.balance_of(2, 7), Ok(100));
    assert_eq!(registry.cast_vote(2, 7, 1, 1), Err(ElectionError::WrongPhase));
    assert_eq!(registry.standings(1), Ok(vec![standing(0, "pool", 10)]));
    assert_eq!(registry.standings(2), Ok(Vec::new()));
    assert_eq!(
        registry.stop(2, true),
        Ok(Transition::VotingOpened {
            candidates: vec!["pool".to_string(), "gym".to_string()],
            hours: 24,
        })
    );
    assert_eq!(registry.cast_vote(2, 7, 2, 3), Ok(91));
    assert_eq!(registry.balance_of(1, 7), Ok(0));
    assert_eq!(
        registry.stop(1, true),
        Ok(Transition::VotingClosed { winners: vec![standing(0, "pool", 10)] })
    );
    assert_eq!(registry.balance_of(1, 7), Ok(100));
    assert_eq!(registry.balance_of(2, 7), Ok(91));
    assert_eq!(registry.phase(2), Ok(Phase::Voting));
}

#[test]
fn the_registry_passes_every_outcome_on() {
    let mut registry = Registry::new(&vec![1], Rules::standard());
    assert_eq!(registry.stop(1, true), Err(ElectionError::NoActiveElection));
    assert_eq!(registry.stop(1, false), Err(ElectionError::NotAuthorized));
    assert_eq!(registry.start(1, false), Err(ElectionError::NotAuthorized));
    assert_eq!(registry.start(1, true), Ok(Started { discarded_vote: false, hours: 48 }));
    assert_eq!(registry.timer_expired(1, Phase::Suggestion), Ok(None));
    assert_eq!(registry.propose(1, "Add a pool"), Ok("Add a pool".to_string()));
    assert_eq!(registry.propose(1, "add a pool "), Err(ElectionError::DuplicateProposal));
    assert_eq!(
        registry.timer_expired(1, Phase::Suggestion),
        Ok(Some(Transition::VotingOpened {
            candidates: vec!["Add a pool".to_string()],
            hours: 24,
        }))
    );
    assert_eq!(registry.timer_expired(1, Phase::Suggestion), Ok(None));
    assert_eq!(registry.propose(1, "gym"), Err(ElectionError::WrongPhase));
    assert_eq!(registry.cast_vote(1, 7, 2, 1), Err(ElectionError::UnknownCandidate));
    assert_eq!(registry.cast_vote(1, 7, 1, 0), Err(ElectionError::InvalidVoteCount));
    assert_eq!(registry.cast_vote(1, 7, 1, 3), Ok(91));
    assert_eq!(registry.cast_vote(1, 7, 1, 5), Ok(75));
    assert_eq!(registry.start(1, true), Ok(Started { discarded_vote: true, hours: 48 }));
    assert_eq!(registry.phase(1), Ok(Phase::Suggestion));
    assert_eq!(registry.balance_of(1, 7), Ok(100));
}

#[test]
fn handed_out_communities_carry_their_state() {
    let mut registry = Registry::new(&vec![3, 4], Rules::standard());
    assert_eq!(registry.propose(4, "pool"), Ok("pool".to_string()));
    let mut communities = registry.into_communities();
    assert_eq!(communities.len(), 2);
    assert_eq!(communities[0].id(), 3);
    assert_eq!(communities[1].id(), 4);
    assert_eq!(communities[0].proposals(), Vec::<String>::new());
    assert_eq!(communities[1].proposals(), vec!["pool".to_string()]);
    assert!(matches!(communities[1].stop(true), Ok(Transition::VotingOpened { .. })));
    assert_eq!(communities[0].phase(), Phase::Suggestion);
}
