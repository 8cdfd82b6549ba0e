//! Sums over ballots: the votes a candidate holds and the credits a member has spent.

use vstd::prelude::*;

verus! {

/// Credits that placing `votes` votes on one candidate costs.
pub open spec fn vote_cost(votes: nat) -> nat {
    votes * votes
}

/// The sum of all votes in `ballots`, a map from member to votes.
pub open spec fn ballot_total(ballots: Map<u64, nat>) -> nat
    decreases ballots.dom().len(),
    when ballots.dom().finite()
{
    if ballots.dom().len() == 0 {
        0
    } else {
        let voter = ballots.dom().choose();
        ballots[voter] + ballot_total(ballots.remove(voter))
    }
}

/// Computes the quadratic cost of a ballot.
pub fn cost_of(votes: u32) -> (cost: u64)
    ensures
        cost == vote_cost(votes as nat),
{
    let v: u64 = votes as u64;
    assert(v * v <= u64::MAX) by (nonlinear_arith)
        requires
            v <= u32::MAX,
    ;
    v * v
}

/// No votes are held where nobody voted.
pub proof fn lemma_ballot_total_empty()
    ensures
        ballot_total(Map::<u64, nat>::empty()) == 0,
{
    assert(Map::<u64, nat>::empty().dom() =~= Set::<u64>::empty());
}

/// Any one voter's ballot can be split off the total.
pub proof fn lemma_ballot_total_split(ballots: Map<u64, nat>, voter: u64)
    requires
        ballots.dom().finite(),
        ballots.contains_key(voter),
    ensures
        ballot_total(ballots) == ballots[voter] + ballot_total(ballots.remove(voter)),
    decreases ballots.dom().len(),
{
    let first = ballots.dom().choose();
    if first != voter {
        let rest = ballots.remove(first);
        lemma_ballot_total_split(rest, voter);
        let others = ballots.remove(voter);
        lemma_ballot_total_split(others, first);
        assert(rest.remove(voter) =~= others.remove(first));
    }
}

/// Replacing or adding one ballot changes the total by the difference.
pub proof fn lemma_ballot_total_insert(ballots: Map<u64, nat>, voter: u64, votes: nat)
    requires
        ballots.dom().finite(),
    ensures
        ballot_total(ballots.insert(voter, votes)) + (if ballots.contains_key(voter) {
            ballots[voter]
        } else {
            0
        }) == ballot_total(ballots) + votes,
{
    let updated = ballots.insert(voter, votes);
    lemma_ballot_total_split(updated, voter);
    assert(updated.remove(voter) =~= ballots.remove(voter));
    if ballots.contains_key(voter) {
        lemma_ballot_total_split(ballots, voter);
    } else {
        assert(ballots.remove(voter) =~= ballots);
    }
}

/// With every ballot at most `cap`, the total is at most `cap` per voter.
pub proof fn lemma_ballot_total_bound(ballots: Map<u64, nat>, cap: nat)
    requires
        ballots.dom().finite(),
        forall|voter: u64| ballots.contains_key(voter) ==> ballots[voter] <= cap,
    ensures
        ballot_total(ballots) <= ballots.dom().len() * cap,
    decreases ballots.dom().len(),
{
    if ballots.dom().len() != 0 {
        let first = ballots.dom().choose();
        let rest = ballots.remove(first);
        lemma_ballot_total_bound(rest, cap);
        assert(rest.dom().len() * cap + cap == ballots.dom().len() * cap) by (nonlinear_arith)
            requires
                rest.dom().len() + 1 == ballots.dom().len(),
        ;
    }
}

} // verus!
