//! The ledger of one community: credit balances and the candidate table.
//!
//! `LedgerView` is the mathematical ledger and says what every operation
//! does; `Ledger` is the executable one, and each of its methods is proved
//! to do to its view what the corresponding function of `LedgerView` says.

use crate::rules::{ElectionError, Rules};
use crate::text::text_views;
use crate::tally::{
    ballot_total, cost_of, lemma_ballot_total_bound, lemma_ballot_total_empty,
    lemma_ballot_total_insert, lemma_ballot_total_split, vote_cost,
};
use std::collections::HashMap;
use vstd::prelude::*;
use vstd::std_specs::iter::IteratorSpec;

verus! {

/// A candidate as the contracts see it.
#[verifier::ext_equal]
pub struct CandidateView {
    /// The text that was proposed.
    pub text: Seq<char>,
    /// The votes the candidate holds.
    pub tally: nat,
    /// The votes of each member who voted for it.
    pub ballots: Map<u64, nat>,
}

impl CandidateView {
    /// A candidate for which nobody has voted yet.
    pub open spec fn fresh(text: Seq<char>) -> CandidateView {
        CandidateView { text, tally: 0, ballots: Map::empty() }
    }

    /// The votes that `user` has on this candidate, 0 if none.
    pub open spec fn votes_of(self, user: u64) -> nat {
        if self.ballots.contains_key(user) {
            self.ballots[user]
        } else {
            0
        }
    }

    /// Every ballot is between 1 and `max_votes`, and the tally is their sum.
    pub open spec fn wf(self, max_votes: nat) -> bool {
        &&& self.ballots.dom().finite()
        &&& forall|user: u64| self.ballots.contains_key(user) ==> 1 <= self.ballots[user] <= max_votes
        &&& self.tally == ballot_total(self.ballots)
    }

    /// The candidate once `user` holds exactly `votes` votes on it.
    pub open spec fn with_ballot(self, user: u64, votes: nat) -> CandidateView {
        CandidateView {
            text: self.text,
            tally: (self.tally - self.votes_of(user) + votes) as nat,
            ballots: self.ballots.insert(user, votes),
        }
    }
}

/// The credits `user` has spent on `candidates`: the sum of the squares of the
/// votes they hold on each.
pub open spec fn credits_spent(candidates: Seq<CandidateView>, user: u64) -> nat
    decreases candidates.len(),
{
    if candidates.len() == 0 {
        0
    } else {
        credits_spent(candidates.drop_last(), user) + vote_cost(candidates.last().votes_of(user))
    }
}

/// The candidates a list of proposals turns into: one per text, in order, without votes.
pub open spec fn fresh_candidates(texts: Seq<Seq<char>>) -> Seq<CandidateView> {
    Seq::new(texts.len(), |i: int| CandidateView::fresh(texts[i]))
}

/// A request for a ballot: `votes` votes of `user` on the candidate with id
/// `candidate`.
pub struct Ballot {
    /// The member who votes.
    pub user: u64,
    /// The id of the candidate.
    pub candidate: int,
    /// The votes asked for.
    pub votes: int,
}

/// A ledger as the contracts see it.
#[verifier::ext_equal]
pub struct LedgerView {
    /// The parameters the ledger was made with.
    pub rules: Rules,
    /// The balance of every member who has voted at least once.
    pub balances: Map<u64, nat>,
    /// The candidate table; the index of a candidate is its id.
    pub candidates: Seq<CandidateView>,
}

impl LedgerView {
    /// The ledger of a community in which nothing has happened yet.
    pub open spec fn empty(rules: Rules) -> LedgerView {
        LedgerView { rules, balances: Map::empty(), candidates: Seq::empty() }
    }

    /// The credits `user` can still spend; the starting credits for a member
    /// who never voted.
    pub open spec fn balance(self, user: u64) -> nat {
        if self.balances.contains_key(user) {
            self.balances[user]
        } else {
            self.rules.starting_credits as nat
        }
    }

    /// The votes `user` holds on the candidate with id `candidate`.
    pub open spec fn votes_of(self, candidate: int, user: u64) -> nat {
        if 0 <= candidate < self.candidates.len() {
            self.candidates[candidate].votes_of(user)
        } else {
            0
        }
    }

    /// The credits `user` has spent on the candidates of the table.
    pub open spec fn spent(self, user: u64) -> nat {
        credits_spent(self.candidates, user)
    }

    /// What `user` could spend on `candidate`: the balance and the refund of
    /// the votes already placed there.
    pub open spec fn available(self, candidate: int, user: u64) -> nat {
        self.balance(user) + vote_cost(self.votes_of(candidate, user))
    }

    /// The ledger's invariant: every candidate is well formed, and every
    /// member's balance is what the starting credits leave after the squares
    /// of their current votes.
    pub open spec fn wf(self) -> bool {
        &&& self.balances.dom().finite()
        &&& forall|c: int|
            0 <= c < self.candidates.len() ==> (#[trigger] self.candidates[c]).wf(
                self.rules.max_votes as nat,
            )
        &&& forall|user: u64|
            #![trigger self.balance(user)]
            #![trigger self.spent(user)]
            self.balance(user) + self.spent(user) == self.rules.starting_credits
    }

    /// Why a ballot of `votes` votes by `user` for `candidate` is turned down,
    /// or `None` if it is accepted.
    pub open spec fn cast_error(self, user: u64, candidate: int, votes: int) -> Option<
        ElectionError,
    > {
        if !(0 <= candidate < self.candidates.len()) {
            Some(ElectionError::UnknownCandidate)
        } else if !(1 <= votes <= self.rules.max_votes) {
            Some(ElectionError::InvalidVoteCount)
        } else if self.available(candidate, user) < vote_cost(votes as nat) {
            Some(ElectionError::InsufficientCredits)
        } else {
            None
        }
    }

    /// The ledger after `user` asked for `votes` votes on `candidate`:
    /// unchanged if the ballot is turned down; else the earlier votes of
    /// `user` on that candidate are refunded and replaced.
    pub open spec fn cast(self, user: u64, candidate: int, votes: int) -> LedgerView {
        if self.cast_error(user, candidate, votes) is Some {
            self
        } else {
            LedgerView {
                rules: self.rules,
                balances: self.balances.insert(
                    user,
                    (self.available(candidate, user) - vote_cost(votes as nat)) as nat,
                ),
                candidates: self.candidates.update(
                    candidate,
                    self.candidates[candidate].with_ballot(user, votes as nat),
                ),
            }
        }
    }

    /// The ledger after the ballots of `requests` were asked for one after
    /// the other, each accepted or turned down as `cast` says.
    pub open spec fn cast_all(self, requests: Seq<Ballot>) -> LedgerView
        decreases requests.len(),
    {
        if requests.len() == 0 {
            self
        } else {
            self.cast_all(requests.drop_last()).cast(
                requests.last().user,
                requests.last().candidate,
                requests.last().votes,
            )
        }
    }

    /// The ledger after the proposals `texts` were frozen into candidates:
    /// unchanged if the table still holds candidates.
    pub open spec fn freeze(self, texts: Seq<Seq<char>>) -> LedgerView {
        if self.candidates.len() > 0 {
            self
        } else {
            LedgerView {
                rules: self.rules,
                balances: self.balances,
                candidates: fresh_candidates(texts),
            }
        }
    }

    /// The ledger after a vote was concluded: no candidates, and every known
    /// member back at the starting credits.
    pub open spec fn reset(self) -> LedgerView {
        LedgerView {
            rules: self.rules,
            balances: Map::new(
                |user: u64| self.balances.contains_key(user),
                |user: u64| self.rules.starting_credits as nat,
            ),
            candidates: Seq::empty(),
        }
    }
}

/// Replacing one candidate changes what a member has spent by the difference
/// of the costs of their votes on the old and on the new one.
pub proof fn lemma_credits_spent_update(
    candidates: Seq<CandidateView>,
    index: int,
    candidate: CandidateView,
    user: u64,
)
    requires
        0 <= index < candidates.len(),
    ensures
        credits_spent(candidates.update(index, candidate), user) + vote_cost(
            candidates[index].votes_of(user),
        ) == credits_spent(candidates, user) + vote_cost(candidate.votes_of(user)),
    decreases candidates.len(),
{
    let updated = candidates.update(index, candidate);
    if index == candidates.len() - 1 {
        assert(updated.drop_last() =~= candidates.drop_last());
    } else {
        lemma_credits_spent_update(candidates.drop_last(), index, candidate, user);
        assert(updated.drop_last() =~= candidates.drop_last().update(index, candidate));
    }
}

/// What a member has spent covers the cost of their votes on each candidate.
pub proof fn lemma_credits_spent_covers(candidates: Seq<CandidateView>, index: int, user: u64)
    requires
        0 <= index < candidates.len(),
    ensures
        vote_cost(candidates[index].votes_of(user)) <= credits_spent(candidates, user),
    decreases candidates.len(),
{
    if index < candidates.len() - 1 {
        lemma_credits_spent_covers(candidates.drop_last(), index, user);
    }
}

/// A member without votes on any candidate has spent nothing.
pub proof fn lemma_credits_spent_none(candidates: Seq<CandidateView>, user: u64)
    requires
        forall|c: int| 0 <= c < candidates.len() ==> (#[trigger] candidates[c]).votes_of(user) == 0,
    ensures
        credits_spent(candidates, user) == 0,
    decreases candidates.len(),
{
    if candidates.len() > 0 {
        let earlier = candidates.drop_last();
        assert forall|c: int| 0 <= c < earlier.len() implies (#[trigger] earlier[c]).votes_of(user)
            == 0 by {
            assert(earlier[c] == candidates[c]);
        }
        lemma_credits_spent_none(earlier, user);
        assert(candidates.last() == candidates[candidates.len() - 1]);
    }
}

/// An accepted or rejected ballot leaves the ledger well formed.
pub proof fn lemma_cast_preserves_wf(ledger: LedgerView, user: u64, candidate: int, votes: int)
    requires
        ledger.wf(),
    ensures
        ledger.cast(user, candidate, votes).wf(),
{
    if ledger.cast_error(user, candidate, votes) is None {
        let after = ledger.cast(user, candidate, votes);
        let before = ledger.candidates[candidate];
        let chosen = before.with_ballot(user, votes as nat);
        assert(before.wf(ledger.rules.max_votes as nat));
        lemma_ballot_total_insert(before.ballots, user, votes as nat);
        assert(chosen.wf(ledger.rules.max_votes as nat));
        assert forall|c: int| 0 <= c < after.candidates.len() implies (
        #[trigger] after.candidates[c]).wf(after.rules.max_votes as nat) by {
            if c != candidate {
                assert(after.candidates[c] == ledger.candidates[c]);
            }
        }
        assert forall|other: u64|
            #![trigger after.balance(other)]
            #![trigger after.spent(other)]
            after.balance(other) + after.spent(other) == after.rules.starting_credits by {
            lemma_credits_spent_update(ledger.candidates, candidate, chosen, other);
            lemma_credits_spent_covers(ledger.candidates, candidate, other);
            assert(ledger.balance(other) + ledger.spent(other) == ledger.rules.starting_credits);
        }
    }
}

/// Freezing proposals leaves the ledger well formed.
pub proof fn lemma_freeze_preserves_wf(ledger: LedgerView, texts: Seq<Seq<char>>)
    requires
        ledger.wf(),
    ensures
        ledger.freeze(texts).wf(),
{
    if ledger.candidates.len() == 0 {
        let after = ledger.freeze(texts);
        lemma_ballot_total_empty();
        assert forall|user: u64|
            #![trigger after.balance(user)]
            #![trigger after.spent(user)]
            after.balance(user) + after.spent(user) == after.rules.starting_credits by {
            lemma_credits_spent_none(after.candidates, user);
            assert(ledger.balance(user) + ledger.spent(user) == ledger.rules.starting_credits);
        }
    }
}

/// Concluding a vote leaves the ledger well formed.
pub proof fn lemma_reset_preserves_wf(ledger: LedgerView)
    requires
        ledger.wf(),
    ensures
        ledger.reset().wf(),
{
    let after = ledger.reset();
    assert(after.balances.dom() =~= ledger.balances.dom());
}

/// Whatever ballots are asked for during a vote, by one member or by
/// several, after each of them every member's spending is within the
/// starting credits, and the balance is exactly what the spending leaves of
/// them: the starting credits less the squares of the votes the member
/// holds.
pub proof fn lemma_balance_is_budget_less_spending(
    ledger: LedgerView,
    requests: Seq<Ballot>,
    user: u64,
)
    requires
        ledger.wf(),
    ensures
        forall|n: int|
            0 <= n <= requests.len() ==> {
                let reached = #[trigger] ledger.cast_all(requests.take(n));
                &&& reached.wf()
                &&& reached.spent(user) <= ledger.rules.starting_credits
                &&& reached.balance(user) == ledger.rules.starting_credits - reached.spent(user)
            },
{
    assert forall|n: int| 0 <= n <= requests.len() implies {
        let reached = #[trigger] ledger.cast_all(requests.take(n));
        &&& reached.wf()
        &&& reached.spent(user) <= ledger.rules.starting_credits
        &&& reached.balance(user) == ledger.rules.starting_credits - reached.spent(user)
    } by {
        lemma_cast_all_preserves_wf(ledger, requests.take(n));
        let reached = ledger.cast_all(requests.take(n));
        assert(reached.balance(user) + reached.spent(user) == reached.rules.starting_credits);
    }
}

/// Any sequence of ballots leaves the ledger well formed, with its rules.
pub proof fn lemma_cast_all_preserves_wf(ledger: LedgerView, requests: Seq<Ballot>)
    requires
        ledger.wf(),
    ensures
        ledger.cast_all(requests).wf(),
        ledger.cast_all(requests).rules == ledger.rules,
    decreases requests.len(),
{
    if requests.len() > 0 {
        lemma_cast_all_preserves_wf(ledger, requests.drop_last());
        lemma_cast_preserves_wf(
            ledger.cast_all(requests.drop_last()),
            requests.last().user,
            requests.last().candidate,
            requests.last().votes,
        );
    }
}

/// Ballots leave the candidate table as it was frozen: as many candidates,
/// each with its id and its text.
pub proof fn lemma_ballots_keep_the_table(ledger: LedgerView, requests: Seq<Ballot>)
    ensures
        ledger.cast_all(requests).candidates.len() == ledger.candidates.len(),
        forall|c: int|
            0 <= c < ledger.candidates.len() ==> (#[trigger] ledger.cast_all(
                requests,
            ).candidates[c]).text == ledger.candidates[c].text,
    decreases requests.len(),
{
    if requests.len() > 0 {
        lemma_ballots_keep_the_table(ledger, requests.drop_last());
    }
}

/// A ballot that is turned down changes nothing; one that is accepted
/// leaves every other member's balance and votes as they were.
pub proof fn lemma_cast_touches_one_member(
    ledger: LedgerView,
    user: u64,
    candidate: int,
    votes: int,
    other: u64,
)
    requires
        other != user,
    ensures
        ledger.cast_error(user, candidate, votes) is Some ==> ledger.cast(user, candidate, votes)
            == ledger,
        ledger.cast(user, candidate, votes).balance(other) == ledger.balance(other),
        forall|c: int|
            ledger.cast(user, candidate, votes).votes_of(c, other) == ledger.votes_of(c, other),
{
}

/// The ballots of two different members can be taken in either order: the
/// ledger they leave is the same, and each is accepted or turned down as
/// it would be alone.
pub proof fn lemma_ballots_of_different_members_commute(
    ledger: LedgerView,
    first: Ballot,
    second: Ballot,
)
    requires
        ledger.wf(),
        first.user != second.user,
    ensures
        ledger.cast(first.user, first.candidate, first.votes).cast_error(
            second.user,
            second.candidate,
            second.votes,
        ) == ledger.cast_error(second.user, second.candidate, second.votes),
        ledger.cast(second.user, second.candidate, second.votes).cast_error(
            first.user,
            first.candidate,
            first.votes,
        ) == ledger.cast_error(first.user, first.candidate, first.votes),
        ledger.cast(first.user, first.candidate, first.votes).cast(
            second.user,
            second.candidate,
            second.votes,
        ) == ledger.cast(second.user, second.candidate, second.votes).cast(
            first.user,
            first.candidate,
            first.votes,
        ),
{
    let one = ledger.cast(first.user, first.candidate, first.votes);
    let other = ledger.cast(second.user, second.candidate, second.votes);
    let one_then_other = one.cast(second.user, second.candidate, second.votes);
    let other_then_one = other.cast(first.user, first.candidate, first.votes);
    if ledger.cast_error(first.user, first.candidate, first.votes) is None && ledger.cast_error(
        second.user,
        second.candidate,
        second.votes,
    ) is None {
        assert(one_then_other.balances =~= other_then_one.balances);
        if first.candidate == second.candidate {
            let shared = ledger.candidates[first.candidate];
            assert(shared.wf(ledger.rules.max_votes as nat));
            if shared.ballots.contains_key(first.user) {
                lemma_ballot_total_split(shared.ballots, first.user);
                if shared.ballots.contains_key(second.user) {
                    lemma_ballot_total_split(shared.ballots.remove(first.user), second.user);
                }
            } else if shared.ballots.contains_key(second.user) {
                lemma_ballot_total_split(shared.ballots, second.user);
            }
            let ahead = shared.with_ballot(first.user, first.votes as nat).with_ballot(
                second.user,
                second.votes as nat,
            );
            let behind = shared.with_ballot(second.user, second.votes as nat).with_ballot(
                first.user,
                first.votes as nat,
            );
            assert(ahead.ballots =~= behind.ballots);
            assert(ahead =~= behind);
        }
        assert(one_then_other.candidates =~= other_then_one.candidates);
        assert(one_then_other =~= other_then_one);
    }
}

/// Freezing proposals and concluding the vote at once, with no ballot in
/// between, leaves no candidate, every member at the starting credits, and
/// the known members as they were. Where the table was empty before, the
/// ledger is back exactly where it was.
pub proof fn lemma_freeze_then_reset(ledger: LedgerView, texts: Seq<Seq<char>>)
    requires
        ledger.wf(),
    ensures
        ledger.freeze(texts).reset().wf(),
        ledger.freeze(texts).reset().candidates.len() == 0,
        ledger.freeze(texts).reset().balances.dom() == ledger.balances.dom(),
        forall|user: u64| #[trigger]
            ledger.freeze(texts).reset().balance(user) == ledger.rules.starting_credits,
        ledger.candidates.len() == 0 ==> ledger.freeze(texts).reset() == ledger,
{
    let frozen = ledger.freeze(texts);
    let after = frozen.reset();
    lemma_freeze_preserves_wf(ledger, texts);
    lemma_reset_preserves_wf(frozen);
    assert(after.balances.dom() =~= ledger.balances.dom());
    if ledger.candidates.len() == 0 {
        assert forall|user: u64| ledger.balances.contains_key(user) implies ledger.balances[user]
            == ledger.rules.starting_credits by {
            assert(ledger.balance(user) + ledger.spent(user) == ledger.rules.starting_credits);
        }
        assert(after.balances =~= ledger.balances);
        assert(after.candidates =~= ledger.candidates);
        assert(after =~= ledger);
    }
}

/// A candidate of the table: its text, its votes and who placed them.
struct Candidate {
    text: String,
    tally: u128,
    ballots: HashMap<u64, u32>,
}

impl View for Candidate {
    type V = CandidateView;

    closed spec fn view(&self) -> CandidateView {
        CandidateView {
            text: self.text@,
            tally: self.tally as nat,
            ballots: self.ballots@.map_values(|votes: u32| votes as nat),
        }
    }
}

/// The credit balances and the candidate table of one community.
pub struct Ledger {
    rules: Rules,
    balances: HashMap<u64, u64>,
    candidates: Vec<Candidate>,
}

impl View for Ledger {
    type V = LedgerView;

    closed spec fn view(&self) -> LedgerView {
        LedgerView {
            rules: self.rules,
            balances: self.balances@.map_values(|credits: u64| credits as nat),
            candidates: self.candidates@.map_values(|candidate: Candidate| candidate@),
        }
    }
}

impl Ledger {
    /// The invariant that every method keeps: that of the view.
    pub open spec fn wf(&self) -> bool {
        self@.wf()
    }

    /// Makes the ledger of a community in which nothing has happened yet.
    pub fn new(rules: Rules) -> (ledger: Ledger)
        ensures
            ledger@ == LedgerView::empty(rules),
            ledger.wf(),
    {
        let ledger = Ledger { rules, balances: HashMap::new(), candidates: Vec::new() };
        proof {
            assert(ledger@ =~= LedgerView::empty(rules));
            assert forall|user: u64|
                #![trigger ledger@.balance(user)]
                #![trigger ledger@.spent(user)]
                ledger@.balance(user) + ledger@.spent(user) == rules.starting_credits by {}
        }
        ledger
    }

    /// The parameters the ledger was made with.
    pub fn rules(&self) -> (rules: Rules)
        ensures
            rules == self@.rules,
    {
        self.rules
    }

    /// The number of candidates in the table.
    pub fn candidate_count(&self) -> (count: usize)
        ensures
            count == self@.candidates.len(),
    {
        self.candidates.len()
    }

    /// The text of the candidate with id `candidate`, if there is one.
    pub fn text_of(&self, candidate: usize) -> (text: Option<&String>)
        ensures
            match text {
                Some(text) => candidate < self@.candidates.len() && text@
                    == self@.candidates[candidate as int].text,
                None => candidate >= self@.candidates.len(),
            },
    {
        if candidate < self.candidates.len() {
            Some(&self.candidates[candidate].text)
        } else {
            None
        }
    }

    /// The votes that the candidate with id `candidate` holds, if there is
    /// one.
    pub fn tally_of(&self, candidate: usize) -> (tally: Option<u128>)
        ensures
            match tally {
                Some(tally) => candidate < self@.candidates.len() && tally
                    == self@.candidates[candidate as int].tally,
                None => candidate >= self@.candidates.len(),
            },
    {
        if candidate < self.candidates.len() {
            Some(self.candidates[candidate].tally)
        } else {
            None
        }
    }

    /// The text of the candidate with id `candidate`.
    pub(crate) fn text_at(&self, candidate: usize) -> (text: &String)
        requires
            candidate < self@.candidates.len(),
        ensures
            text@ == self@.candidates[candidate as int].text,
    {
        &self.candidates[candidate].text
    }

    /// The votes that the candidate with id `candidate` holds.
    pub(crate) fn tally_at(&self, candidate: usize) -> (tally: u128)
        requires
            candidate < self@.candidates.len(),
        ensures
            tally == self@.candidates[candidate as int].tally,
    {
        self.candidates[candidate].tally
    }

    /// The votes that `user` holds on the candidate with id `candidate`; 0 if
    /// there are none or no such candidate.
    pub fn votes_of(&self, candidate: usize, user: u64) -> (votes: u32)
        ensures
            votes == self@.votes_of(candidate as int, user),
    {
        broadcast use vstd::std_specs::hash::group_hash_axioms;

        if candidate >= self.candidates.len() {
            return 0;
        }
        match self.candidates[candidate].ballots.get(&user) {
            Some(votes) => *votes,
            None => 0,
        }
    }

    /// The credits `user` can still spend; the starting credits for a member
    /// who never voted. Changes nothing.
    pub fn balance_of(&self, user: u64) -> (balance: u64)
        ensures
            balance == self@.balance(user),
    {
        broadcast use vstd::std_specs::hash::group_hash_axioms;

        match self.balances.get(&user) {
            Some(credits) => *credits,
            None => self.rules.starting_credits,
        }
    }

    /// Places `votes` votes of `user` on the candidate with id `candidate`,
    /// in place of the votes `user` held there before, and returns the
    /// balance that is left.
    ///
    /// The ballot is turned down, and nothing changes, with
    /// `UnknownCandidate` if there is no such candidate, else with
    /// `InvalidVoteCount` if `votes` is 0 or above the cap, else with
    /// `InsufficientCredits` if the square of `votes` exceeds the balance
    /// plus the square of the votes held before.
    pub fn cast_vote(&mut self, user: u64, candidate: usize, votes: u32) -> (outcome: Result<
        u64,
        ElectionError,
    >)
        requires
            old(self).wf(),
        ensures
            final(self).wf(),
            final(self)@ == old(self)@.cast(user, candidate as int, votes as int),
            match outcome {
                Ok(balance) => old(self)@.cast_error(user, candidate as int, votes as int) is None
                    && balance == final(self)@.balance(user),
                Err(error) => old(self)@.cast_error(user, candidate as int, votes as int) == Some(
                    error,
                ),
            },
    {
        broadcast use vstd::std_specs::hash::group_hash_axioms;

        if candidate >= self.candidates.len() {
            return Err(ElectionError::UnknownCandidate);
        }
        if votes < 1 || votes > self.rules.max_votes {
            return Err(ElectionError::InvalidVoteCount);
        }
        let balance = self.balance_of(user);
        let held = self.votes_of(candidate, user);
        let refund = cost_of(held);
        let cost = cost_of(votes);
        proof {
            lemma_credits_spent_covers(self@.candidates, candidate as int, user);
            assert(self@.balance(user) + self@.spent(user) == self@.rules.starting_credits);
        }
        let available = balance + refund;
        if available < cost {
            return Err(ElectionError::InsufficientCredits);
        }
        let ghost before = self@;
        let ghost chosen = self.candidates[candidate as int];
        proof {
            assert(before.candidates[candidate as int] == chosen@);
            assert(chosen@.wf(before.rules.max_votes as nat));
            let ballots = chosen@.ballots;
            if ballots.contains_key(user) {
                lemma_ballot_total_split(ballots, user);
            }
            lemma_ballot_total_bound(ballots, u32::MAX as nat);
            assert(ballots.dom() =~= chosen.ballots@.dom());
            assert(chosen.ballots.len() == chosen.ballots@.len());
            assert(ballots.dom().len() <= usize::MAX);
            assert(ballots.dom().len() * (u32::MAX as nat) <= usize::MAX * u32::MAX)
                by (nonlinear_arith)
                requires
                    ballots.dom().len() <= usize::MAX,
            ;
        }
        let entry = &mut self.candidates[candidate];
        entry.ballots.insert(user, votes);
        entry.tally = entry.tally - held as u128 + votes as u128;
        self.balances.insert(user, available - cost);
        proof {
            let after = before.cast(user, candidate as int, votes as int);
            assert(self.candidates[candidate as int]@.ballots =~= chosen@.ballots.insert(
                user,
                votes as nat,
            ));
            assert(self.candidates[candidate as int]@ =~= chosen@.with_ballot(user, votes as nat));
            assert(self@.candidates =~= after.candidates);
            assert(self@.balances =~= after.balances);
            assert(self@ =~= after);
            lemma_cast_preserves_wf(before, user, candidate as int, votes as int);
        }
        Ok(available - cost)
    }

    /// Puts the proposals `texts` into the empty candidate table, in their
    /// order: the candidate with id `i` is `texts[i]`, without votes.
    /// Returns the number of candidates.
    ///
    /// While the table still holds candidates this is turned down with
    /// `WrongPhase`, and nothing changes.
    pub fn freeze_candidates(&mut self, texts: &Vec<String>) -> (outcome: Result<
        usize,
        ElectionError,
    >)
        requires
            old(self).wf(),
        ensures
            final(self).wf(),
            final(self)@ == old(self)@.freeze(text_views(texts@)),
            match outcome {
                Ok(count) => old(self)@.candidates.len() == 0 && count == texts.len(),
                Err(error) => old(self)@.candidates.len() > 0 && error
                    == ElectionError::WrongPhase,
            },
    {
        if self.candidates.len() > 0 {
            return Err(ElectionError::WrongPhase);
        }
        let ghost before = self@;
        let ghost frozen = fresh_candidates(text_views(texts@));
        let mut i: usize = 0;
        while i < texts.len()
            invariant
                i <= texts.len(),
                self.rules == before.rules,
                self@.balances == before.balances,
                self.candidates.len() == i,
                frozen == fresh_candidates(text_views(texts@)),
                forall|c: int| 0 <= c < i ==> (#[trigger] self.candidates[c])@ == frozen[c],
            decreases texts.len() - i,
        {
            let candidate = Candidate {
                text: texts[i].clone(),
                tally: 0,
                ballots: HashMap::new(),
            };
            proof {
                assert(candidate@.ballots =~= Map::<u64, nat>::empty());
                assert(candidate@ =~= frozen[i as int]);
            }
            self.candidates.push(candidate);
            i += 1;
        }
        proof {
            let after = before.freeze(text_views(texts@));
            assert(self@.candidates =~= frozen);
            assert(self@ =~= after);
            lemma_freeze_preserves_wf(before, text_views(texts@));
        }
        Ok(i)
    }

    /// Concludes a vote: empties the candidate table and sets the balance of
    /// every known member to the starting credits.
    pub fn clear_and_reset(&mut self)
        requires
            old(self).wf(),
        ensures
            final(self).wf(),
            final(self)@ == old(self)@.reset(),
    {
        broadcast use vstd::std_specs::hash::group_hash_axioms;

        let ghost before = self@;
        let starting = self.rules.starting_credits;
        let mut members: Vec<u64> = Vec::new();
        let ghost known: Seq<u64> = self.balances.keys().remaining().unref();
        for member in it: self.balances.keys()
            invariant
                members@.len() == it.index(),
                forall|j: int| 0 <= j < members@.len() ==> members@[j] == known[j],
                known == it.seq().unref(),
                known.to_set() == self.balances@.dom(),
        {
            members.push(*member);
        }
        assert(members@ =~= known);
        assert(forall|user: u64| self.balances@.contains_key(user) ==> members@.contains(user));
        assert(forall|j: int|
            0 <= j < members.len() ==> known.to_set().contains(#[trigger] members[j]));
        self.candidates = Vec::new();
        let mut i: usize = 0;
        while i < members.len()
            invariant
                i <= members.len(),
                self.rules == before.rules,
                self.candidates@.len() == 0,
                self.balances@.dom() == before.balances.dom(),
                forall|user: u64| self.balances@.contains_key(user) ==> members@.contains(user),
                forall|j: int|
                    0 <= j < members.len() ==> self.balances@.contains_key(#[trigger] members[j]),
                forall|j: int| 0 <= j < i ==> self.balances@[#[trigger] members[j]] == starting,
            decreases members.len() - i,
        {
            self.balances.insert(members[i], starting);
            i += 1;
        }
        proof {
            assert(self@.balances =~= before.reset().balances);
            assert(self@.candidates =~= before.reset().candidates);
            assert(self@ =~= before.reset());
            lemma_reset_preserves_wf(before);
        }
    }
}

} // verus!
