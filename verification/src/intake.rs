//! What a request has to pass before it reaches an election: the texts of
//! proposals and prompts, who may start and stop, and how often a member
//! may ask.

use crate::text::{trim, trimmed};
use serenity::model::permissions::Permissions;
use std::collections::HashMap;
use vstd::prelude::*;
use vstd::utf8::encode_utf8;

verus! {

/// The largest length of a proposal, in bytes of its UTF-8 encoding.
pub const MAX_PROPOSAL_BYTES: usize = 100;

/// The milliseconds that have to pass between two requests of one member.
pub const COOLDOWN_MILLIS: u64 = 2000;

/// Why a text is not taken.
#[derive(Clone, Copy, Debug, PartialEq, Eq, Structural)]
pub enum TextError {
    /// Nothing is left of the text once it is trimmed.
    Empty,
    /// The trimmed text is longer than a proposal may be.
    TooLong,
}

/// Why the text `raw` is not taken as a proposal, or `None` if it is.
pub open spec fn proposal_text_error(raw: Seq<char>) -> Option<TextError> {
    if trimmed(raw).len() == 0 {
        Some(TextError::Empty)
    } else if encode_utf8(trimmed(raw)).len() > MAX_PROPOSAL_BYTES {
        Some(TextError::TooLong)
    } else {
        None
    }
}

/// Checks the text of a proposal and returns it trimmed. It is turned down
/// as `Empty` if nothing but whitespace is in it, else as `TooLong` if the
/// trimmed text has more than 100 bytes.
pub fn proposal_text(raw: &str) -> (outcome: Result<String, TextError>)
    ensures
        match outcome {
            Ok(text) => proposal_text_error(raw@) is None && text@ == trimmed(raw@),
            Err(error) => proposal_text_error(raw@) == Some(error),
        },
{
    let text = trim(raw);
    if text.as_str().is_empty() {
        return Err(TextError::Empty);
    }
    if text.as_str().as_bytes().len() > MAX_PROPOSAL_BYTES {
        return Err(TextError::TooLong);
    }
    Ok(text)
}

/// Checks the prompt of a new election and returns it trimmed; `None` if
/// nothing but whitespace is in it.
pub fn prompt_text(raw: &str) -> (outcome: Option<String>)
    ensures
        match outcome {
            Some(text) => text@ == trimmed(raw@) && text@.len() > 0,
            None => trimmed(raw@).len() == 0,
        },
{
    let text = trim(raw);
    if text.as_str().is_empty() {
        None
    } else {
        Some(text)
    }
}

/// The name of the role whose members may start and stop elections.
pub const VOTING_ROLE: &'static str = "voting";

/// The bit that stands for the administrator permission in a set of
/// permissions.
pub const ADMINISTRATOR: u64 = 0x8;

/// Whether the set of permissions with the bits `bits` holds the
/// administrator permission.
pub open spec fn grants_administrator(bits: u64) -> bool {
    bits & ADMINISTRATOR == ADMINISTRATOR
}

/// Asks serenity whether the set of permissions with the bits `bits`
/// holds the administrator permission. `Permissions::from_bits_retain`
/// makes the set of exactly these bits, and `Permissions::administrator`
/// tells whether it contains `Permissions::ADMINISTRATOR`, which is the
/// bit `1 << 3`.
#[verifier::external_body]
fn is_administrator(bits: u64) -> (granted: bool)
    ensures
        granted == grants_administrator(bits),
{
    Permissions::from_bits_retain(bits).administrator()
}

/// What is known of a member who asks to start or to stop an election.
#[derive(Debug, PartialEq, Eq)]
pub struct Membership {
    /// Whether the community could be looked up at all.
    pub community_known: bool,
    /// The member who owns the community.
    pub owner: u64,
    /// The member who asks.
    pub user: u64,
    /// Whether the member was found among the community's members.
    pub is_member: bool,
    /// The bits of the member's permissions, where they could be worked
    /// out.
    pub permissions: Option<u64>,
    /// The role with the name `VOTING_ROLE`, where the community has one.
    pub voting_role: Option<u64>,
    /// The roles of the member.
    pub roles: Vec<u64>,
}

impl Membership {
    /// Whether the member is known to be an administrator.
    pub open spec fn administrator(&self) -> bool {
        self.permissions matches Some(bits) && grants_administrator(bits)
    }

    /// Whether the member has the voting role.
    pub open spec fn in_voting_role(&self) -> bool {
        self.voting_role matches Some(role) && self.roles@.contains(role)
    }

    /// Who may start and stop elections: the owner of the community, and
    /// every member who is an administrator or has the voting role.
    pub open spec fn authorized(&self) -> bool {
        self.community_known && (self.owner == self.user || (self.is_member && (
        self.administrator() || self.in_voting_role())))
    }

    /// Tells whether the member has the voting role.
    pub fn has_voting_role(&self) -> (held: bool)
        ensures
            held == self.in_voting_role(),
    {
        match self.voting_role {
            None => false,
            Some(role) => {
                let mut i: usize = 0;
                while i < self.roles.len()
                    invariant
                        i <= self.roles.len(),
                        self.voting_role == Some(role),
                        forall|j: int| 0 <= j < i ==> self.roles@[j] != role,
                    decreases self.roles.len() - i,
                {
                    if self.roles[i] == role {
                        assert(self.roles@[i as int] == role);
                        return true;
                    }
                    i += 1;
                }
                false
            },
        }
    }

    /// Decides whether the member may start and stop elections.
    #[verifier::when_used_as_spec(authorized)]
    pub fn is_authorized(&self) -> (allowed: bool)
        ensures
            allowed == self.authorized(),
    {
        if !self.community_known {
            false
        } else if self.owner == self.user {
            true
        } else if !self.is_member {
            false
        } else {
            let administrator = match self.permissions {
                Some(bits) => is_administrator(bits),
                None => false,
            };
            administrator || self.has_voting_role()
        }
    }
}

/// Whether a request of `user` at the time `now` comes too soon after the
/// last one that `last_seen` records: less than the cooldown later. A
/// clock that went backwards counts as no time passed.
pub open spec fn comes_too_soon(last_seen: Map<u64, u64>, user: u64, now: u64) -> bool {
    last_seen.contains_key(user) && (now <= last_seen[user] || now - last_seen[user]
        < COOLDOWN_MILLIS)
}

/// The time of the last request that was let through, for each member.
pub struct Throttle {
    last_seen: HashMap<u64, u64>,
}

impl View for Throttle {
    type V = Map<u64, u64>;

    closed spec fn view(&self) -> Map<u64, u64> {
        self.last_seen@
    }
}

impl Throttle {
    /// Makes a throttle that has seen no request.
    pub fn new() -> (throttle: Throttle)
        ensures
            throttle@ == Map::<u64, u64>::empty(),
    {
        Throttle { last_seen: HashMap::new() }
    }

    /// Takes note of a request of `user` at the time `now`, in
    /// milliseconds of a clock that does not go backwards. Returns `true`
    /// if the request comes too soon and is to be turned away; then nothing
    /// changes. Otherwise `now` is recorded for `user`.
    pub fn check_rate_limit(&mut self, user: u64, now: u64) -> (limited: bool)
        ensures
            limited == comes_too_soon(old(self)@, user, now),
            final(self)@ == if limited {
                old(self)@
            } else {
                old(self)@.insert(user, now)
            },
    {
        broadcast use vstd::std_specs::hash::group_hash_axioms;

        let too_soon = match self.last_seen.get(&user) {
            Some(last) => now <= *last || now - *last < COOLDOWN_MILLIS,
            None => false,
        };
        if !too_soon {
            self.last_seen.insert(user, now);
        }
        too_soon
    }
}

} // verus!
