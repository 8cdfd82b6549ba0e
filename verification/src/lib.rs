//! Quadratic-voting elections for isolated communities.
//!
//! An election runs in two phases. While suggestions are collected, members
//! propose candidates; during the vote, each member spends voice credits on
//! the frozen candidates, and `v` votes on one candidate cost `v * v`
//! credits. A stop request or a timer moves a community from one phase to
//! the other.
//!
//! Every part has a mathematical view with the functions that say what an
//! operation does, and an executable type whose methods are proved to do
//! just that:
//!
//! - `rules`: the parameters of an election, the errors and the phases;
//! - `tally`: the cost of a ballot and the sum of the ballots of a candidate;
//! - `text`: trimming, and the form by which proposals are compared;
//! - `proposals`: the set of proposals of a suggestion phase;
//! - `ledger`: the balances and the candidate table, with the ballot as
//!   one indivisible update of both;
//! - `ranking`: the order of the candidates by their votes;
//! - `community`: the state machine of one community;
//! - `registry`: the communities of the allow-list, each on its own;
//! - `intake`: what a request has to pass before it reaches an election;
//! - `allow_list`: the allow-list as it is written down;
//! - `board`: the texts of the announcements and of the live displays.
//!
//! A value of `Community` is owned by one caller at a time: a method that
//! changes it takes it by `&mut`, so that a ballot, or a step between the
//! phases, is seen by others only when it is complete.

pub mod allow_list;
pub mod board;
pub mod community;
pub mod intake;
pub mod ledger;
pub mod proposals;
pub mod ranking;
pub mod registry;
pub mod rules;
pub mod tally;
pub mod text;
