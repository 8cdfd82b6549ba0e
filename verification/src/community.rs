//! One community: its proposals, its ledger and the phase of its election.
//!
//! `CommunityView` is the state machine: it says, for every request, what
//! the next state is and whether the request goes through. `Community`
//! carries the requests out.

use crate::ledger::{
    lemma_cast_preserves_wf, lemma_freeze_preserves_wf, lemma_freeze_then_reset,
    lemma_reset_preserves_wf, Ledger, LedgerView,
};
use crate::proposals::{lemma_add_preserves_wf, ProposalSet, ProposalsView};
use crate::ranking::{is_leading, rank, standing_views, Standing};
use crate::rules::{ElectionError, Phase, Rules};
use crate::text::{proposal_key, text_views, trimmed};
use vstd::prelude::*;

verus! {

/// A community as the contracts see it.
#[verifier::ext_equal]
pub struct CommunityView {
    /// The community's identifier.
    pub id: u64,
    /// The phase its election is in.
    pub phase: Phase,
    /// The proposals collected in the suggestion phase.
    pub proposals: ProposalsView,
    /// The balances and the candidate table.
    pub ledger: LedgerView,
}

impl CommunityView {
    /// The community `id` before anything has happened: in the suggestion
    /// phase, without proposals, candidates or known members.
    pub open spec fn new(id: u64, rules: Rules) -> CommunityView {
        CommunityView {
            id,
            phase: Phase::Suggestion,
            proposals: ProposalsView::empty(),
            ledger: LedgerView::empty(rules),
        }
    }

    /// The parameters of the community's elections.
    pub open spec fn rules(self) -> Rules {
        self.ledger.rules
    }

    /// The community's invariant: its parts are well formed, it is in the
    /// voting phase exactly while there are candidates, and then it holds
    /// no proposals.
    pub open spec fn wf(self) -> bool {
        &&& self.proposals.wf()
        &&& self.proposals.normalized()
        &&& self.ledger.wf()
        &&& (self.phase == Phase::Voting <==> self.ledger.candidates.len() > 0)
        &&& (self.phase == Phase::Voting ==> self.proposals.len() == 0)
    }

    /// The guard of the step from suggestion to voting: there are proposals.
    pub open spec fn can_open_voting(self) -> bool {
        self.proposals.len() > 0
    }

    /// The guard of the step from voting to suggestion: there are candidates.
    pub open spec fn can_close_voting(self) -> bool {
        self.ledger.candidates.len() > 0
    }

    /// The state after the step from suggestion to voting: the proposals
    /// are the candidates, and no proposal is left.
    pub open spec fn open_voting(self) -> CommunityView {
        CommunityView {
            id: self.id,
            phase: Phase::Voting,
            proposals: ProposalsView::empty(),
            ledger: self.ledger.freeze(self.proposals.texts()),
        }
    }

    /// The state after the step from voting to suggestion: no candidates,
    /// and every known member back at the starting credits.
    pub open spec fn close_voting(self) -> CommunityView {
        CommunityView {
            id: self.id,
            phase: Phase::Suggestion,
            proposals: self.proposals,
            ledger: self.ledger.reset(),
        }
    }

    /// Why proposing `raw` is turned down, or `None` if it is accepted.
    pub open spec fn propose_error(self, raw: Seq<char>) -> Option<ElectionError> {
        if self.phase == Phase::Voting {
            Some(ElectionError::WrongPhase)
        } else if self.proposals.has_key(proposal_key(raw)) {
            Some(ElectionError::DuplicateProposal)
        } else {
            None
        }
    }

    /// The state after `raw` was proposed.
    pub open spec fn propose(self, raw: Seq<char>) -> CommunityView {
        if self.propose_error(raw) is Some {
            self
        } else {
            CommunityView {
                id: self.id,
                phase: self.phase,
                proposals: self.proposals.propose(raw),
                ledger: self.ledger,
            }
        }
    }

    /// Why a ballot of `votes` votes by `user` for the candidate shown as
    /// number `number` (counted from 1) is turned down, or `None` if it is
    /// accepted.
    pub open spec fn vote_error(self, user: u64, number: int, votes: int) -> Option<
        ElectionError,
    > {
        if self.phase != Phase::Voting {
            Some(ElectionError::WrongPhase)
        } else {
            self.ledger.cast_error(user, number - 1, votes)
        }
    }

    /// The state after `user` asked for `votes` votes on candidate number
    /// `number`.
    pub open spec fn vote(self, user: u64, number: int, votes: int) -> CommunityView {
        if self.vote_error(user, number, votes) is Some {
            self
        } else {
            CommunityView {
                id: self.id,
                phase: self.phase,
                proposals: self.proposals,
                ledger: self.ledger.cast(user, number - 1, votes),
            }
        }
    }

    /// Why a request to stop is turned down, or `None` if a step is taken.
    pub open spec fn stop_error(self, authorized: bool) -> Option<ElectionError> {
        if !authorized {
            Some(ElectionError::NotAuthorized)
        } else if !self.can_open_voting() && !self.can_close_voting() {
            Some(ElectionError::NoActiveElection)
        } else {
            None
        }
    }

    /// The state after a request to stop: the step whose guard holds is
    /// taken, if the member is authorized.
    pub open spec fn stop(self, authorized: bool) -> CommunityView {
        if !authorized {
            self
        } else if self.can_open_voting() {
            self.open_voting()
        } else if self.can_close_voting() {
            self.close_voting()
        } else {
            self
        }
    }

    /// Whether the expiry of the timer of `phase` takes a step: that of
    /// the suggestion phase asks for the step to voting, that of the voting
    /// phase for the step back, and each goes by the step's guard alone.
    pub open spec fn timer_fires(self, phase: Phase) -> bool {
        match phase {
            Phase::Suggestion => self.can_open_voting(),
            Phase::Voting => self.can_close_voting(),
        }
    }

    /// The state after the timer of `phase` expired.
    pub open spec fn timer(self, phase: Phase) -> CommunityView {
        if !self.timer_fires(phase) {
            self
        } else {
            match phase {
                Phase::Suggestion => self.open_voting(),
                Phase::Voting => self.close_voting(),
            }
        }
    }

    /// The state after a request to start an election: a vote in progress
    /// is discarded, and the community collects proposals.
    pub open spec fn start(self, authorized: bool) -> CommunityView {
        if authorized && self.can_close_voting() {
            self.close_voting()
        } else {
            self
        }
    }
}

/// Every request leaves a well-formed community well formed: its phase
/// is the voting phase exactly while there are candidates.
pub proof fn lemma_requests_preserve_wf(
    community: CommunityView,
    authorized: bool,
    phase: Phase,
    user: u64,
    number: int,
    votes: int,
    raw: Seq<char>,
)
    requires
        community.wf(),
    ensures
        community.propose(raw).wf(),
        community.vote(user, number, votes).wf(),
        community.stop(authorized).wf(),
        community.timer(phase).wf(),
        community.start(authorized).wf(),
        authorized ==> community.start(authorized).phase == Phase::Suggestion,
{
    lemma_add_preserves_wf(community.proposals, trimmed(raw), proposal_key(raw));
    lemma_cast_preserves_wf(community.ledger, user, number - 1, votes);
    lemma_freeze_preserves_wf(community.ledger, community.proposals.texts());
    lemma_reset_preserves_wf(community.ledger);
}

/// A timer that expires outside its own phase does nothing: the state
/// stays as it is and no step is reported.
pub proof fn lemma_timer_of_other_phase_is_idle(community: CommunityView, timer: Phase)
    requires
        community.wf(),
        community.phase != timer,
    ensures
        !community.timer_fires(timer),
        community.timer(timer) == community,
{
}

/// Once a request to stop has moved a community from suggestion to voting,
/// the suggestion timer that expires afterwards changes nothing and
/// reports no step: the proposals are not frozen a second time. The same
/// holds of the voting timer after a stop that ended the vote.
pub proof fn lemma_stale_timer_is_idle(community: CommunityView)
    requires
        community.wf(),
        community.stop(true).phase != community.phase,
    ensures
        !community.stop(true).timer_fires(community.phase),
        community.stop(true).timer(community.phase) == community.stop(true),
{
    lemma_requests_preserve_wf(community, true, community.phase, 0, 0, 0, Seq::empty());
    lemma_timer_of_other_phase_is_idle(community.stop(true), community.phase);
}

/// A timer that expires twice takes its step once.
pub proof fn lemma_timer_fires_once(community: CommunityView, timer: Phase)
    requires
        community.wf(),
        community.timer_fires(timer),
    ensures
        !community.timer(timer).timer_fires(timer),
        community.timer(timer).timer(timer) == community.timer(timer),
{
    lemma_requests_preserve_wf(community, true, timer, 0, 0, 0, Seq::empty());
    lemma_freeze_preserves_wf(community.ledger, community.proposals.texts());
}

/// A vote that is opened and closed at once, with no ballot in between,
/// leaves the ledger exactly as it was before, and the community ready
/// for new proposals.
pub proof fn lemma_vote_without_ballots_changes_no_balance(community: CommunityView)
    requires
        community.wf(),
        community.can_open_voting(),
    ensures
        community.stop(true).phase == Phase::Voting,
        community.stop(true).stop(true).phase == Phase::Suggestion,
        community.stop(true).stop(true).ledger == community.ledger,
        community.stop(true).stop(true).proposals.len() == 0,
{
    lemma_freeze_then_reset(community.ledger, community.proposals.texts());
}

/// A step between the phases, with what there is to announce.
#[derive(Debug, PartialEq, Eq)]
pub enum Transition {
    /// The proposals were frozen and the vote is open.
    VotingOpened {
        /// The candidates; the one at index `i` is shown as number `i + 1`.
        candidates: Vec<String>,
        /// The hours after which the voting timer is to expire.
        hours: u64,
    },
    /// The vote is over and the community collects proposals again.
    VotingClosed {
        /// The leading candidates, best first.
        winners: Vec<Standing>,
    },
}

/// What a request to start an election did.
#[derive(Clone, Copy, Debug, PartialEq, Eq, Structural)]
pub struct Started {
    /// Whether a vote was in progress, and was discarded.
    pub discarded_vote: bool,
    /// The hours after which the suggestion timer is to expire.
    pub hours: u64,
}

/// Whether `transition` is the step from suggestion to voting out of `before`.
pub open spec fn opens_voting(before: CommunityView, transition: Transition) -> bool {
    &&& before.can_open_voting()
    &&& transition matches Transition::VotingOpened { candidates, hours }
    &&& text_views(candidates@) == before.proposals.texts()
    &&& hours == before.rules().voting_hours
}

/// Whether `transition` is the step from voting to suggestion out of `before`.
pub open spec fn closes_voting(before: CommunityView, transition: Transition) -> bool {
    &&& before.can_close_voting()
    &&& transition matches Transition::VotingClosed { winners }
    &&& is_leading(
        before.ledger.candidates,
        before.rules().winner_count as nat,
        standing_views(winners@),
    )
}

/// A community: the unit that one request at a time acts on.
pub struct Community {
    id: u64,
    phase: Phase,
    proposals: ProposalSet,
    ledger: Ledger,
}

impl View for Community {
    type V = CommunityView;

    closed spec fn view(&self) -> CommunityView {
        CommunityView {
            id: self.id,
            phase: self.phase,
            proposals: self.proposals@,
            ledger: self.ledger@,
        }
    }
}

impl Community {
    /// The invariant that every method keeps: that of the view.
    pub open spec fn wf(&self) -> bool {
        self@.wf()
    }

    /// Makes the community `id`, in the suggestion phase and empty.
    pub fn new(id: u64, rules: Rules) -> (community: Community)
        ensures
            community@ == CommunityView::new(id, rules),
            community.wf(),
    {
        Community {
            id,
            phase: Phase::Suggestion,
            proposals: ProposalSet::new(),
            ledger: Ledger::new(rules),
        }
    }

    /// The community's identifier.
    pub fn id(&self) -> (id: u64)
        ensures
            id == self@.id,
    {
        self.id
    }

    /// The phase the election is in.
    pub fn phase(&self) -> (phase: Phase)
        ensures
            phase == self@.phase,
    {
        self.phase
    }

    /// The parameters of the community's elections.
    pub fn rules(&self) -> (rules: Rules)
        ensures
            rules == self@.rules(),
    {
        self.ledger.rules()
    }

    /// Whether there are proposals at hand, so that a stop would open the
    /// vote.
    pub fn in_suggestion_period(&self) -> (collecting: bool)
        ensures
            collecting == self@.can_open_voting(),
    {
        !self.proposals.is_empty()
    }

    /// Whether there are candidates at hand, so that a stop would close
    /// the vote.
    pub fn in_vote_period(&self) -> (voting: bool)
        ensures
            voting == self@.can_close_voting(),
    {
        self.ledger.candidate_count() > 0
    }

    /// The texts of the proposals, oldest first.
    pub fn proposals(&self) -> (texts: Vec<String>)
        ensures
            text_views(texts@) == self@.proposals.texts(),
    {
        self.proposals.snapshot()
    }

    /// The credits `user` can still spend. Changes nothing.
    pub fn balance_of(&self, user: u64) -> (balance: u64)
        ensures
            balance == self@.ledger.balance(user),
    {
        self.ledger.balance_of(user)
    }

    /// The leading candidates of the vote in progress, best first; none
    /// outside the voting phase.
    pub fn standings(&self) -> (leaders: Vec<Standing>)
        ensures
            is_leading(
                self@.ledger.candidates,
                self@.rules().winner_count as nat,
                standing_views(leaders@),
            ),
    {
        rank(&self.ledger)
    }

    /// Proposes the text `raw` as a candidate and returns it as it is held:
    /// trimmed. Turned down, with nothing changed, with `WrongPhase` during
    /// a vote, else with `DuplicateProposal` if a proposal with the same
    /// trimmed lowercase form is held.
    pub fn propose(&mut self, raw: &str) -> (outcome: Result<String, ElectionError>)
        requires
            old(self).wf(),
        ensures
            final(self).wf(),
            final(self)@ == old(self)@.propose(raw@),
            match outcome {
                Ok(text) => old(self)@.propose_error(raw@) is None && text@ == trimmed(raw@),
                Err(error) => old(self)@.propose_error(raw@) == Some(error),
            },
            old(self)@.phase == Phase::Suggestion ==> final(self)@.proposals.has_key(
                proposal_key(raw@),
            ),
    {
        match self.phase {
            Phase::Voting => Err(ElectionError::WrongPhase),
            Phase::Suggestion => self.proposals.propose(raw),
        }
    }

    /// Places `votes` votes of `user` on the candidate shown as number
    /// `number` (counted from 1), in place of the votes `user` held there,
    /// and returns the balance that is left.
    ///
    /// Turned down, with nothing changed: with `WrongPhase` outside the
    /// voting phase; else with `UnknownCandidate` if there is no candidate
    /// of that number; else with `InvalidVoteCount` if `votes` is below 1
    /// or above the cap; else with `InsufficientCredits` if the square of
    /// `votes` exceeds the balance plus the square of the votes held before.
    pub fn cast_vote(&mut self, user: u64, number: i64, votes: i64) -> (outcome: Result<
        u64,
        ElectionError,
    >)
        requires
            old(self).wf(),
        ensures
            final(self).wf(),
            final(self)@ == old(self)@.vote(user, number as int, votes as int),
            match outcome {
                Ok(balance) => old(self)@.vote_error(user, number as int, votes as int) is None
                    && balance == final(self)@.ledger.balance(user),
                Err(error) => old(self)@.vote_error(user, number as int, votes as int) == Some(
                    error,
                ),
            },
    {
        match self.phase {
            Phase::Suggestion => {
                return Err(ElectionError::WrongPhase);
            },
            Phase::Voting => {},
        }
        if number < 1 {
            return Err(ElectionError::UnknownCandidate);
        }
        let index: u64 = (number - 1) as u64;
        let count = self.ledger.candidate_count();
        if index >= count as u64 {
            return Err(ElectionError::UnknownCandidate);
        }
        if votes < 1 || votes > self.ledger.rules().max_votes as i64 {
            return Err(ElectionError::InvalidVoteCount);
        }
        self.ledger.cast_vote(user, index as usize, votes as u32)
    }

    /// Handles a request to stop the current phase. With proposals at hand
    /// they are frozen into candidates and the vote opens; else, with
    /// candidates at hand, the winners are ranked, the table is cleared and
    /// all balances are reset.
    ///
    /// Turned down, with nothing changed: with `NotAuthorized` unless
    /// `authorized`; else with `NoActiveElection` if there are neither
    /// proposals nor candidates.
    pub fn stop(&mut self, authorized: bool) -> (outcome: Result<Transition, ElectionError>)
        requires
            old(self).wf(),
        ensures
            final(self).wf(),
            final(self)@ == old(self)@.stop(authorized),
            match outcome {
                Ok(transition) => old(self)@.stop_error(authorized) is None && if old(
                    self,
                )@.can_open_voting() {
                    opens_voting(old(self)@, transition)
                } else {
                    closes_voting(old(self)@, transition)
                },
                Err(error) => old(self)@.stop_error(authorized) == Some(error),
            },
    {
        if !authorized {
            return Err(ElectionError::NotAuthorized);
        }
        if !self.proposals.is_empty() {
            Ok(self.open_voting())
        } else if self.ledger.candidate_count() > 0 {
            Ok(self.close_voting())
        } else {
            Err(ElectionError::NoActiveElection)
        }
    }

    /// Handles the expiry of the timer of `phase`. The timer of the
    /// suggestion phase opens the vote if there are proposals; that of the
    /// voting phase closes it if there are candidates. A timer whose step
    /// was taken already finds its guard false: then nothing changes and
    /// there is nothing to announce.
    pub fn timer_expired(&mut self, phase: Phase) -> (outcome: Option<Transition>)
        requires
            old(self).wf(),
        ensures
            final(self).wf(),
            final(self)@ == old(self)@.timer(phase),
            match outcome {
                Some(transition) => old(self)@.timer_fires(phase) && match phase {
                    Phase::Suggestion => opens_voting(old(self)@, transition),
                    Phase::Voting => closes_voting(old(self)@, transition),
                },
                None => !old(self)@.timer_fires(phase),
            },
    {
        match phase {
            Phase::Suggestion => {
                if !self.proposals.is_empty() {
                    Some(self.open_voting())
                } else {
                    None
                }
            },
            Phase::Voting => {
                if self.ledger.candidate_count() > 0 {
                    Some(self.close_voting())
                } else {
                    None
                }
            },
        }
    }

    /// Handles a request to start an election. A vote in progress is
    /// discarded without winners: the table is cleared and all balances are
    /// reset. Afterwards the community collects proposals; those already
    /// held stay.
    ///
    /// Turned down with `NotAuthorized`, and nothing changed, unless
    /// `authorized`.
    pub fn start(&mut self, authorized: bool) -> (outcome: Result<Started, ElectionError>)
        requires
            old(self).wf(),
        ensures
            final(self).wf(),
            final(self)@ == old(self)@.start(authorized),
            authorized ==> final(self)@.phase == Phase::Suggestion,
            match outcome {
                Ok(started) => authorized && started.discarded_vote == old(
                    self,
                )@.can_close_voting() && started.hours == old(self)@.rules().suggestion_hours,
                Err(error) => !authorized && error == ElectionError::NotAuthorized,
            },
    {
        if !authorized {
            return Err(ElectionError::NotAuthorized);
        }
        let discarded_vote = self.ledger.candidate_count() > 0;
        if discarded_vote {
            self.ledger.clear_and_reset();
            self.phase = Phase::Suggestion;
        }
        Ok(Started { discarded_vote, hours: self.ledger.rules().suggestion_hours })
    }

    /// Takes the step from suggestion to voting.
    fn open_voting(&mut self) -> (transition: Transition)
        requires
            old(self).wf(),
            old(self)@.can_open_voting(),
        ensures
            final(self).wf(),
            final(self)@ == old(self)@.open_voting(),
            opens_voting(old(self)@, transition),
    {
        let candidates = self.proposals.snapshot();
        let frozen = self.ledger.freeze_candidates(&candidates);
        assert(frozen is Ok);
        self.proposals.clear();
        self.phase = Phase::Voting;
        Transition::VotingOpened { candidates, hours: self.ledger.rules().voting_hours }
    }

    /// Takes the step from voting to suggestion.
    fn close_voting(&mut self) -> (transition: Transition)
        requires
            old(self).wf(),
            old(self)@.can_close_voting(),
        ensures
            final(self).wf(),
            final(self)@ == old(self)@.close_voting(),
            closes_voting(old(self)@, transition),
    {
        let winners = rank(&self.ledger);
        self.ledger.clear_and_reset();
        self.phase = Phase::Suggestion;
        Transition::VotingClosed { winners }
    }
}

} // verus!
