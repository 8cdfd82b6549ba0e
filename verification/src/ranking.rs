//! The winner selector: candidates ordered by their votes.

use crate::ledger::{CandidateView, Ledger};
use vstd::prelude::*;

verus! {

/// A candidate and the votes it holds, as a ranking lists it.
#[derive(Debug, PartialEq, Eq)]
pub struct Standing {
    /// The candidate's id: its index in the candidate table.
    pub id: usize,
    /// The candidate's text.
    pub text: String,
    /// The votes the candidate holds.
    pub votes: u128,
}

/// A standing as the contracts see it.
#[verifier::ext_equal]
pub struct StandingView {
    /// The candidate's id.
    pub id: int,
    /// The candidate's text.
    pub text: Seq<char>,
    /// The votes the candidate holds.
    pub votes: nat,
}

impl View for Standing {
    type V = StandingView;

    open spec fn view(&self) -> StandingView {
        StandingView { id: self.id as int, text: self.text@, votes: self.votes as nat }
    }
}

/// The standings of a list, in its order.
pub open spec fn standing_views(standings: Seq<Standing>) -> Seq<StandingView> {
    Seq::new(standings.len(), |i: int| standings[i]@)
}

/// The order of a ranking: more votes come first, and of two candidates
/// with equal votes the one with the smaller id.
pub open spec fn outranks(first: StandingView, second: StandingView) -> bool {
    first.votes > second.votes || (first.votes == second.votes && first.id < second.id)
}

/// The standing of the candidate with id `id`.
pub open spec fn standing_of(candidates: Seq<CandidateView>, id: int) -> StandingView {
    StandingView { id, text: candidates[id].text, votes: candidates[id].tally }
}

/// Whether the candidate with id `id` is in `ranking`.
pub open spec fn lists(ranking: Seq<StandingView>, id: int) -> bool {
    exists|i: int| 0 <= i < ranking.len() && (#[trigger] ranking[i]).id == id
}

/// Every entry of `ranking` is the standing of a candidate, and each entry
/// outranks those after it.
pub open spec fn is_ordered(candidates: Seq<CandidateView>, ranking: Seq<StandingView>) -> bool {
    &&& forall|i: int|
        0 <= i < ranking.len() ==> 0 <= (#[trigger] ranking[i]).id < candidates.len()
            && ranking[i] == standing_of(candidates, ranking[i].id)
    &&& forall|i: int, j: int|
        0 <= i < j < ranking.len() ==> outranks(#[trigger] ranking[i], #[trigger] ranking[j])
}

/// `ranking` is the full ranking of `candidates`: it holds every candidate
/// once, in the order of `outranks`.
pub open spec fn is_ranking(candidates: Seq<CandidateView>, ranking: Seq<StandingView>) -> bool {
    &&& ranking.len() == candidates.len()
    &&& is_ordered(candidates, ranking)
    &&& forall|id: int| 0 <= id < candidates.len() ==> lists(ranking, id)
}

/// `leaders` are the first `count` of the ranking of `candidates` (all of
/// them if there are fewer): in order, and each ahead of every candidate
/// that is left out.
pub open spec fn is_leading(
    candidates: Seq<CandidateView>,
    count: nat,
    leaders: Seq<StandingView>,
) -> bool {
    &&& leaders.len() == if count <= candidates.len() {
        count
    } else {
        candidates.len()
    }
    &&& is_ordered(candidates, leaders)
    &&& forall|i: int, id: int|
        0 <= i < leaders.len() && 0 <= id < candidates.len() && !lists(leaders, id) ==> outranks(
            #[trigger] leaders[i],
            #[trigger] standing_of(candidates, id),
        )
}

/// The first `count` entries of a full ranking are the leading candidates.
pub proof fn lemma_ranking_prefix_is_leading(
    candidates: Seq<CandidateView>,
    ranking: Seq<StandingView>,
    count: nat,
)
    requires
        is_ranking(candidates, ranking),
        count <= ranking.len(),
    ensures
        is_leading(candidates, count, ranking.take(count as int)),
{
    let leaders = ranking.take(count as int);
    assert forall|i: int, id: int|
        0 <= i < leaders.len() && 0 <= id < candidates.len() && !lists(leaders, id) implies outranks(
        #[trigger] leaders[i],
        #[trigger] standing_of(candidates, id),
    ) by {
        assert(lists(ranking, id));
        let p = choose|p: int| 0 <= p < ranking.len() && (#[trigger] ranking[p]).id == id;
        if p < count {
            assert(leaders[p].id == id);
        }
        assert(outranks(ranking[i], ranking[p]));
    }
}

/// An entry of a list of leaders outranks every other candidate that
/// is not before it in the list.
proof fn lemma_leader_outranks(
    candidates: Seq<CandidateView>,
    count: nat,
    leaders: Seq<StandingView>,
    i: int,
    id: int,
)
    requires
        is_leading(candidates, count, leaders),
        0 <= i < leaders.len(),
        0 <= id < candidates.len(),
        forall|j: int| 0 <= j <= i ==> (#[trigger] leaders[j]).id != id,
    ensures
        outranks(leaders[i], standing_of(candidates, id)),
{
    if lists(leaders, id) {
        let p = choose|p: int| 0 <= p < leaders.len() && (#[trigger] leaders[p]).id == id;
        assert(outranks(leaders[i], leaders[p]));
    }
}

/// Two lists of leaders of the same candidates agree in every place.
proof fn lemma_leaders_agree_at(
    candidates: Seq<CandidateView>,
    count: nat,
    first: Seq<StandingView>,
    second: Seq<StandingView>,
    i: int,
)
    requires
        is_leading(candidates, count, first),
        is_leading(candidates, count, second),
        0 <= i < first.len(),
    ensures
        first[i] == second[i],
    decreases i,
{
    assert forall|j: int| 0 <= j < i implies first[j] == second[j] by {
        lemma_leaders_agree_at(candidates, count, first, second, j);
    }
    if first[i].id != second[i].id {
        assert forall|j: int| 0 <= j <= i implies (#[trigger] first[j]).id != second[i].id by {
            if j < i {
                assert(outranks(second[j], second[i]));
            }
        }
        lemma_leader_outranks(candidates, count, first, i, second[i].id);
        assert forall|j: int| 0 <= j <= i implies (#[trigger] second[j]).id != first[i].id by {
            if j < i {
                assert(outranks(first[j], first[i]));
            }
        }
        lemma_leader_outranks(candidates, count, second, i, first[i].id);
    }
}

/// The leaders are determined: the candidates and the count admit one
/// list of leaders only.
pub proof fn lemma_leaders_are_unique(
    candidates: Seq<CandidateView>,
    count: nat,
    first: Seq<StandingView>,
    second: Seq<StandingView>,
)
    requires
        is_leading(candidates, count, first),
        is_leading(candidates, count, second),
    ensures
        first == second,
{
    assert forall|i: int| 0 <= i < first.len() implies first[i] == second[i] by {
        lemma_leaders_agree_at(candidates, count, first, second, i);
    }
    assert(first =~= second);
}

/// A full ranking is the list of as many leaders as there are candidates,
/// so the candidates admit one full ranking only.
pub proof fn lemma_ranking_is_unique(
    candidates: Seq<CandidateView>,
    first: Seq<StandingView>,
    second: Seq<StandingView>,
)
    requires
        is_ranking(candidates, first),
        is_ranking(candidates, second),
    ensures
        first == second,
{
    lemma_ranking_prefix_is_leading(candidates, first, candidates.len());
    lemma_ranking_prefix_is_leading(candidates, second, candidates.len());
    assert(first.take(first.len() as int) =~= first);
    assert(second.take(second.len() as int) =~= second);
    lemma_leaders_are_unique(candidates, candidates.len(), first, second);
}

/// Ranks the candidates of `ledger`: all of them, those with more votes
/// first, and of those with equal votes the one with the smaller id first.
pub fn rank_all(ledger: &Ledger) -> (ranking: Vec<Standing>)
    ensures
        is_ranking(ledger@.candidates, standing_views(ranking@)),
{
    let count = ledger.candidate_count();
    let ghost candidates = ledger@.candidates;
    let mut ranking: Vec<Standing> = Vec::new();
    let mut id: usize = 0;
    while id < count
        invariant
            id <= count,
            count == candidates.len(),
            candidates == ledger@.candidates,
            ranking.len() == id,
            is_ordered(candidates, standing_views(ranking@)),
            forall|i: int| 0 <= i < ranking.len() ==> (#[trigger] ranking[i]).id < id,
            forall|k: int| 0 <= k < id ==> lists(standing_views(ranking@), k),
        decreases count - id,
    {
        let votes = ledger.tally_at(id);
        let mut place: usize = 0;
        while place < ranking.len() && ranking[place].votes >= votes
            invariant
                place <= ranking.len(),
                forall|i: int| 0 <= i < place ==> (#[trigger] ranking[i]).votes >= votes,
            decreases ranking.len() - place,
        {
            place += 1;
        }
        let entry = Standing { id, text: ledger.text_at(id).clone(), votes };
        let ghost before = standing_views(ranking@);
        ranking.insert(place, entry);
        proof {
            let after = standing_views(ranking@);
            assert(after =~= before.insert(place as int, entry@));
            assert forall|i: int, j: int| 0 <= i < j < after.len() implies outranks(
                #[trigger] after[i],
                #[trigger] after[j],
            ) by {
                if j < place {
                    assert(after[i] == before[i] && after[j] == before[j]);
                } else if j == place {
                    assert(after[i] == before[i]);
                } else if i < place {
                    assert(after[i] == before[i] && after[j] == before[j - 1]);
                } else if i == place {
                    assert(after[j] == before[j - 1]);
                    if j - 1 > place {
                        assert(outranks(before[place as int], before[j - 1]));
                    }
                } else {
                    assert(after[i] == before[i - 1] && after[j] == before[j - 1]);
                }
            }
            assert forall|i: int| 0 <= i < after.len() implies 0 <= (#[trigger] after[i]).id
                < candidates.len() && after[i] == standing_of(candidates, after[i].id) by {
                if i < place {
                    assert(after[i] == before[i]);
                } else if i > place {
                    assert(after[i] == before[i - 1]);
                }
            }
            assert forall|k: int| 0 <= k < id + 1 implies lists(after, k) by {
                if k == id {
                    assert(after[place as int].id == k);
                } else {
                    assert(lists(before, k));
                    let p = choose|p: int| 0 <= p < before.len() && (#[trigger] before[p]).id == k;
                    if p < place {
                        assert(after[p].id == k);
                    } else {
                        assert(after[p + 1] == before[p]);
                        assert(after[p + 1].id == k);
                    }
                }
            }
            assert forall|i: int| 0 <= i < ranking.len() implies (#[trigger] ranking[i]).id < id
                + 1 by {
                assert(ranking[i]@ == after[i]);
                if i < place {
                    assert(after[i] == before[i]);
                } else if i > place {
                    assert(after[i] == before[i - 1]);
                }
            }
        }
        id += 1;
    }
    ranking
}

/// Ranks the candidates of `ledger` and returns the first of them, as many
/// as the rules show as winners (all if there are fewer).
pub fn rank(ledger: &Ledger) -> (leaders: Vec<Standing>)
    ensures
        is_leading(
            ledger@.candidates,
            ledger@.rules.winner_count as nat,
            standing_views(leaders@),
        ),
{
    let mut ranking = rank_all(ledger);
    let shown = ledger.rules().winner_count;
    let ghost full = standing_views(ranking@);
    if shown < ranking.len() {
        ranking.truncate(shown);
        proof {
            assert(standing_views(ranking@) =~= full.take(shown as int));
            lemma_ranking_prefix_is_leading(ledger@.candidates, full, shown as nat);
        }
    } else {
        proof {
            assert(full.take(full.len() as int) =~= full);
            lemma_ranking_prefix_is_leading(ledger@.candidates, full, full.len());
        }
    }
    ranking
}

} // verus!
