//! The parameters of an election and the errors its operations report.

use vstd::prelude::*;

verus! {

/// Voice credits every member holds when a voting phase opens.
pub const DEFAULT_STARTING_CREDITS: u64 = 100;

/// Largest number of votes one member may place on one candidate.
pub const DEFAULT_MAX_VOTES: u32 = 10;

/// How many of the leading candidates are listed for display.
pub const DEFAULT_WINNER_COUNT: usize = 5;

/// Hours for which proposals are collected.
pub const DEFAULT_SUGGESTION_HOURS: u64 = 48;

/// Hours for which votes are accepted.
pub const DEFAULT_VOTING_HOURS: u64 = 24;

/// The fixed parameters of the elections of one deployment.
#[derive(Clone, Copy, Debug, PartialEq, Eq, Structural)]
pub struct Rules {
    /// Balance of a member who has no votes placed.
    pub starting_credits: u64,
    /// Upper bound (inclusive) on the votes of one member for one candidate.
    pub max_votes: u32,
    /// Length of the list of winners shown at the end of a vote.
    pub winner_count: usize,
    /// Duration of the suggestion phase, in hours.
    pub suggestion_hours: u64,
    /// Duration of the voting phase, in hours.
    pub voting_hours: u64,
}

impl Rules {
    /// The customary parameters: 100 credits, at most 10 votes per candidate,
    /// 5 winners shown, 48 hours of suggestions and 24 hours of voting.
    pub open spec fn spec_standard() -> Rules {
        Rules {
            starting_credits: DEFAULT_STARTING_CREDITS,
            max_votes: DEFAULT_MAX_VOTES,
            winner_count: DEFAULT_WINNER_COUNT,
            suggestion_hours: DEFAULT_SUGGESTION_HOURS,
            voting_hours: DEFAULT_VOTING_HOURS,
        }
    }

    /// Returns the customary parameters.
    #[verifier::when_used_as_spec(spec_standard)]
    pub fn standard() -> (rules: Rules)
        ensures
            rules == Rules::spec_standard(),
    {
        Rules {
            starting_credits: DEFAULT_STARTING_CREDITS,
            max_votes: DEFAULT_MAX_VOTES,
            winner_count: DEFAULT_WINNER_COUNT,
            suggestion_hours: DEFAULT_SUGGESTION_HOURS,
            voting_hours: DEFAULT_VOTING_HOURS,
        }
    }
}

impl Default for Rules {
    fn default() -> (rules: Rules)
        ensures
            rules == Rules::spec_standard(),
    {
        Rules::standard()
    }
}

/// Why an action was turned down. A rejected action changes nothing.
#[derive(Clone, Copy, Debug, PartialEq, Eq, Structural)]
pub enum ElectionError {
    /// The action does not belong to the phase the community is in.
    WrongPhase,
    /// An equal proposal, up to case and surrounding whitespace, is already held.
    DuplicateProposal,
    /// No candidate has the given number.
    UnknownCandidate,
    /// The vote count is zero, negative or above the cap.
    InvalidVoteCount,
    /// The ballot costs more than the member can spend.
    InsufficientCredits,
    /// The member may not start or stop elections.
    NotAuthorized,
    /// There is neither a proposal nor a candidate, so nothing can be stopped.
    NoActiveElection,
    /// The community is not on the allow-list.
    UnknownCommunity,
}

/// The two stages of an election.
#[derive(Clone, Copy, Debug, PartialEq, Eq, Structural)]
pub enum Phase {
    /// Members propose candidates.
    Suggestion,
    /// Members spend credits on the frozen candidates.
    Voting,
}

} // verus!
