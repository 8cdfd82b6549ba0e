//! The registry: the communities of the allow-list, each an election of
//! its own.

use crate::community::{closes_voting, opens_voting, Community, CommunityView, Started, Transition};
use crate::ranking::{is_leading, standing_views, Standing};
use crate::rules::{ElectionError, Phase, Rules};
use crate::text::{text_views, trimmed};
use vstd::prelude::*;

verus! {

/// The communities of a registry, as the contracts see them: a finite map
/// from identifier to community.
pub type RegistryView = Map<u64, CommunityView>;

/// The registry's invariant: every community is well formed and is filed
/// under its own identifier.
pub open spec fn registry_wf(registry: RegistryView) -> bool {
    &&& registry.dom().finite()
    &&& forall|id: u64|
        registry.contains_key(id) ==> (#[trigger] registry[id]).wf() && registry[id].id == id
}

/// The registry of the allow-list `allowed`: one new community for each
/// identifier on it.
pub open spec fn fresh_registry(allowed: Seq<u64>, rules: Rules) -> RegistryView {
    Map::new(|id: u64| allowed.contains(id), |id: u64| CommunityView::new(id, rules))
}

/// The communities of a deployment. No request to one community changes
/// another.
pub struct Registry {
    communities: Vec<Community>,
}

impl View for Registry {
    type V = RegistryView;

    closed spec fn view(&self) -> RegistryView {
        Map::new(
            |id: u64| self.ids().contains(id),
            |id: u64| self.communities[self.ids().index_of(id)]@,
        )
    }
}

impl Registry {
    /// The identifiers of the stored communities, in their order.
    closed spec fn ids(&self) -> Seq<u64> {
        Seq::new(self.communities.len() as nat, |i: int| self.communities[i]@.id)
    }

    /// The invariant that every method keeps: no identifier is stored
    /// twice, and every community is well formed.
    pub closed spec fn wf(&self) -> bool {
        &&& self.ids().no_duplicates()
        &&& forall|i: int|
            0 <= i < self.communities.len() ==> (#[trigger] self.communities[i]).wf()
    }

    /// A well-formed registry has a well-formed view, with one entry for
    /// each stored community.
    pub proof fn lemma_view_wf(&self)
        requires
            self.wf(),
        ensures
            registry_wf(self@),
    {
        assert forall|id: u64| self@.contains_key(id) implies (#[trigger] self@[id]).wf()
            && self@[id].id == id by {
            let place = self.ids().index_of(id);
            assert(self.ids()[place] == id);
            assert(self.communities[place].wf());
        }
        assert(self@.dom() =~= self.ids().to_set());
        vstd::seq_lib::seq_to_set_is_finite(self.ids());
    }

    /// The community stored at `place` is the one the view files under its
    /// identifier.
    proof fn lemma_stored(&self, place: int)
        requires
            self.ids().no_duplicates(),
            0 <= place < self.communities.len(),
        ensures
            self@.contains_key(self.communities[place]@.id),
            self@[self.communities[place]@.id] == self.communities[place]@,
    {
        let id = self.communities[place]@.id;
        assert(self.ids()[place] == id);
        let chosen = self.ids().index_of(id);
        assert(self.ids()[chosen] == id);
    }

    /// Where one stored community was replaced by one with the same
    /// identifier, the view is the old one with that entry replaced.
    proof fn lemma_replaced(&self, before: &Registry, place: int)
        requires
            before.ids().no_duplicates(),
            0 <= place < before.communities.len(),
            self.communities.len() == before.communities.len(),
            self.communities[place]@.id == before.communities[place]@.id,
            forall|i: int|
                0 <= i < before.communities.len() && i != place ==> self.communities[i]
                    == before.communities[i],
        ensures
            self.ids() == before.ids(),
            self@ == before@.insert(before.communities[place]@.id, self.communities[place]@),
    {
        assert(self.ids() =~= before.ids());
        let after = before@.insert(before.communities[place]@.id, self.communities[place]@);
        before.lemma_stored(place);
        self.lemma_stored(place);
        assert forall|id: u64| self@.contains_key(id) implies self@[id] == after[id] by {
            let i = self.ids().index_of(id);
            assert(self.ids()[i] == id);
            self.lemma_stored(i);
            before.lemma_stored(i);
        }
        assert(self@ =~= after);
    }

    /// Finds the index at which the community `id` is stored.
    fn find(&self, id: u64) -> (place: Option<usize>)
        requires
            self.wf(),
        ensures
            match place {
                Some(i) => i < self.communities.len() && self.communities[i as int]@.id == id
                    && self@.contains_key(id) && self@[id] == self.communities[i as int]@,
                None => !self@.contains_key(id),
            },
    {
        let mut i: usize = 0;
        while i < self.communities.len()
            invariant
                i <= self.communities.len(),
                self.wf(),
                forall|j: int| 0 <= j < i ==> (#[trigger] self.ids()[j]) != id,
            decreases self.communities.len() - i,
        {
            if self.communities[i].id() == id {
                proof {
                    self.lemma_stored(i as int);
                }
                return Some(i);
            }
            assert(self.ids()[i as int] != id);
            i += 1;
        }
        None
    }

    /// Makes the registry of the allow-list `allowed`: one new community,
    /// with the parameters `rules`, for each identifier on it. An
    /// identifier listed twice counts once.
    pub fn new(allowed: &Vec<u64>, rules: Rules) -> (registry: Registry)
        ensures
            registry.wf(),
            registry@ == fresh_registry(allowed@, rules),
    {
        let mut registry = Registry { communities: Vec::new() };
        let mut i: usize = 0;
        while i < allowed.len()
            invariant
                i <= allowed.len(),
                registry.wf(),
                forall|id: u64|
                    registry@.contains_key(id) <==> allowed@.subrange(0, i as int).contains(id),
                forall|id: u64|
                    registry@.contains_key(id) ==> #[trigger] registry@[id] == CommunityView::new(
                        id,
                        rules,
                    ),
            decreases allowed.len() - i,
        {
            let id = allowed[i];
            let ghost before = registry;
            let found = registry.find(id);
            proof {
                let seen = allowed@.subrange(0, i as int);
                let next = allowed@.subrange(0, i + 1);
                assert(next =~= seen.push(id));
                assert forall|k: u64| next.contains(k) <==> (seen.contains(k) || k == id) by {
                    if seen.contains(k) {
                        let p = seen.index_of(k);
                        assert(next[p] == k);
                    }
                    assert(next[i as int] == id);
                }
            }
            if found.is_none() {
                registry.communities.push(Community::new(id, rules));
                proof {
                    let last = before.communities.len() as int;
                    assert(registry.ids() =~= before.ids().push(id));
                    assert(registry.ids().no_duplicates()) by {
                        assert forall|a: int, b: int|
                            0 <= a < registry.ids().len() && 0 <= b < registry.ids().len() && a
                                != b implies registry.ids()[a] != registry.ids()[b] by {
                            if a < last && b < last {
                                assert(before.ids()[a] != before.ids()[b]);
                            } else if a < last {
                                assert(before.ids().contains(before.ids()[a]));
                            } else {
                                assert(before.ids().contains(before.ids()[b]));
                            }
                        }
                    }
                    assert forall|k: u64| registry@.contains_key(k) <==> (before@.contains_key(k)
                        || k == id) by {
                        if registry.ids().contains(k) {
                            let p = registry.ids().index_of(k);
                            if p < last {
                                assert(before.ids()[p] == k);
                            }
                        }
                        if before.ids().contains(k) {
                            let p = before.ids().index_of(k);
                            assert(registry.ids()[p] == k);
                        }
                        assert(registry.ids()[last] == id);
                    }
                    assert forall|k: u64| registry@.contains_key(k) implies #[trigger] registry@[k]
                        == CommunityView::new(k, rules) by {
                        let p = registry.ids().index_of(k);
                        assert(registry.ids()[p] == k);
                        registry.lemma_stored(p);
                        if p < last {
                            assert(registry.communities[p] == before.communities[p]);
                            before.lemma_stored(p);
                        }
                    }
                }
            }
            i += 1;
        }
        proof {
            assert(allowed@.subrange(0, allowed.len() as int) =~= allowed@);
            assert(registry@ =~= fresh_registry(allowed@, rules));
        }
        registry
    }

    /// The number of communities.
    pub fn len(&self) -> (count: usize)
        requires
            self.wf(),
        ensures
            count == self@.dom().len(),
    {
        proof {
            assert(self@.dom() =~= self.ids().to_set());
            self.ids().unique_seq_to_set();
        }
        self.communities.len()
    }

    /// Whether `id` is on the allow-list.
    pub fn contains(&self, id: u64) -> (listed: bool)
        requires
            self.wf(),
        ensures
            listed == self@.contains_key(id),
    {
        self.find(id).is_some()
    }

    /// The community `id`, if it is on the allow-list.
    pub fn community(&self, id: u64) -> (found: Option<&Community>)
        requires
            self.wf(),
        ensures
            match found {
                Some(community) => self@.contains_key(id) && community@ == self@[id]
                    && community.wf(),
                None => !self@.contains_key(id),
            },
    {
        match self.find(id) {
            Some(place) => Some(&self.communities[place]),
            None => None,
        }
    }

    /// Hands the communities out, each to be held on its own.
    pub fn into_communities(self) -> (communities: Vec<Community>)
        requires
            self.wf(),
        ensures
            communities.len() == self@.dom().len(),
            forall|i: int|
                0 <= i < communities.len() ==> (#[trigger] communities[i]).wf()
                    && self@.contains_key(communities[i]@.id) && self@[communities[i]@.id]
                    == communities[i]@,
            forall|i: int, j: int|
                0 <= i < j < communities.len() ==> (#[trigger] communities[i])@.id != (
                #[trigger] communities[j])@.id,
    {
        proof {
            assert(self@.dom() =~= self.ids().to_set());
            self.ids().unique_seq_to_set();
            assert forall|i: int| 0 <= i < self.communities.len() implies self@.contains_key(
                (#[trigger] self.communities[i])@.id,
            ) && self@[self.communities[i]@.id] == self.communities[i]@ by {
                self.lemma_stored(i);
            }
            assert forall|i: int, j: int| 0 <= i < j < self.communities.len() implies (
            #[trigger] self.communities[i])@.id != (#[trigger] self.communities[j])@.id by {
                assert(self.ids()[i] != self.ids()[j]);
            }
        }
        self.communities
    }

    /// The phase of the election of community `id`.
    pub fn phase(&self, id: u64) -> (outcome: Result<Phase, ElectionError>)
        requires
            self.wf(),
        ensures
            match outcome {
                Ok(phase) => self@.contains_key(id) && phase == self@[id].phase,
                Err(error) => !self@.contains_key(id) && error == ElectionError::UnknownCommunity,
            },
    {
        match self.find(id) {
            Some(place) => Ok(self.communities[place].phase()),
            None => Err(ElectionError::UnknownCommunity),
        }
    }

    /// The credits `user` can still spend in community `id`. Changes
    /// nothing.
    pub fn balance_of(&self, id: u64, user: u64) -> (outcome: Result<u64, ElectionError>)
        requires
            self.wf(),
        ensures
            match outcome {
                Ok(balance) => self@.contains_key(id) && balance == self@[id].ledger.balance(user),
                Err(error) => !self@.contains_key(id) && error == ElectionError::UnknownCommunity,
            },
    {
        match self.find(id) {
            Some(place) => Ok(self.communities[place].balance_of(user)),
            None => Err(ElectionError::UnknownCommunity),
        }
    }

    /// The texts of the proposals of community `id`, oldest first.
    pub fn proposals(&self, id: u64) -> (outcome: Result<Vec<String>, ElectionError>)
        requires
            self.wf(),
        ensures
            match outcome {
                Ok(texts) => self@.contains_key(id) && text_views(texts@)
                    == self@[id].proposals.texts(),
                Err(error) => !self@.contains_key(id) && error == ElectionError::UnknownCommunity,
            },
    {
        match self.find(id) {
            Some(place) => Ok(self.communities[place].proposals()),
            None => Err(ElectionError::UnknownCommunity),
        }
    }

    /// The leading candidates of community `id`, best first.
    pub fn standings(&self, id: u64) -> (outcome: Result<Vec<Standing>, ElectionError>)
        requires
            self.wf(),
        ensures
            match outcome {
                Ok(leaders) => self@.contains_key(id) && is_leading(
                    self@[id].ledger.candidates,
                    self@[id].rules().winner_count as nat,
                    standing_views(leaders@),
                ),
                Err(error) => !self@.contains_key(id) && error == ElectionError::UnknownCommunity,
            },
    {
        match self.find(id) {
            Some(place) => Ok(self.communities[place].standings()),
            None => Err(ElectionError::UnknownCommunity),
        }
    }

    /// Proposes `raw` in community `id`, as `Community::propose` does.
    /// Turned down with `UnknownCommunity` if `id` is not on the
    /// allow-list. No other community changes.
    pub fn propose(&mut self, id: u64, raw: &str) -> (outcome: Result<String, ElectionError>)
        requires
            old(self).wf(),
        ensures
            final(self).wf(),
            !old(self)@.contains_key(id) ==> final(self)@ == old(self)@ && outcome == Err::<
                String,
                ElectionError,
            >(ElectionError::UnknownCommunity),
            old(self)@.contains_key(id) ==> final(self)@ == old(self)@.insert(
                id,
                old(self)@[id].propose(raw@),
            ) && match outcome {
                Ok(text) => old(self)@[id].propose_error(raw@) is None && text@ == trimmed(raw@),
                Err(error) => old(self)@[id].propose_error(raw@) == Some(error),
            },
    {
        match self.find(id) {
            Some(place) => {
                let ghost before = *self;
                let community = &mut self.communities[place];
                let outcome = community.propose(raw);
                proof {
                    self.lemma_replaced(&before, place as int);
                }
                outcome
            },
            None => Err(ElectionError::UnknownCommunity),
        }
    }

    /// Places a ballot in community `id`, as `Community::cast_vote` does.
    /// Turned down with `UnknownCommunity` if `id` is not on the
    /// allow-list. No other community changes.
    pub fn cast_vote(&mut self, id: u64, user: u64, number: i64, votes: i64) -> (outcome: Result<
        u64,
        ElectionError,
    >)
        requires
            old(self).wf(),
        ensures
            final(self).wf(),
            !old(self)@.contains_key(id) ==> final(self)@ == old(self)@ && outcome == Err::<
                u64,
                ElectionError,
            >(ElectionError::UnknownCommunity),
            old(self)@.contains_key(id) ==> final(self)@ == old(self)@.insert(
                id,
                old(self)@[id].vote(user, number as int, votes as int),
            ) && match outcome {
                Ok(balance) => old(self)@[id].vote_error(user, number as int, votes as int)
                    is None && balance == final(self)@[id].ledger.balance(user),
                Err(error) => old(self)@[id].vote_error(user, number as int, votes as int)
                    == Some(error),
            },
    {
        match self.find(id) {
            Some(place) => {
                let ghost before = *self;
                let community = &mut self.communities[place];
                let outcome = community.cast_vote(user, number, votes);
                proof {
                    self.lemma_replaced(&before, place as int);
                }
                outcome
            },
            None => Err(ElectionError::UnknownCommunity),
        }
    }

    /// Handles a request to start an election in community `id`, as
    /// `Community::start` does. Turned down with `UnknownCommunity` if
    /// `id` is not on the allow-list. No other community changes.
    pub fn start(&mut self, id: u64, authorized: bool) -> (outcome: Result<Started, ElectionError>)
        requires
            old(self).wf(),
        ensures
            final(self).wf(),
            !old(self)@.contains_key(id) ==> final(self)@ == old(self)@ && outcome == Err::<
                Started,
                ElectionError,
            >(ElectionError::UnknownCommunity),
            old(self)@.contains_key(id) ==> final(self)@ == old(self)@.insert(
                id,
                old(self)@[id].start(authorized),
            ) && match outcome {
                Ok(started) => authorized && started.discarded_vote == old(
                    self,
                )@[id].can_close_voting() && started.hours == old(self)@[id].rules().suggestion_hours,
                Err(error) => !authorized && error == ElectionError::NotAuthorized,
            },
    {
        match self.find(id) {
            Some(place) => {
                let ghost before = *self;
                let community = &mut self.communities[place];
                let outcome = community.start(authorized);
                proof {
                    self.lemma_replaced(&before, place as int);
                }
                outcome
            },
            None => Err(ElectionError::UnknownCommunity),
        }
    }

    /// Handles a request to stop the current phase of community `id`, as
    /// `Community::stop` does. Turned down with `UnknownCommunity` if `id`
    /// is not on the allow-list. No other community changes.
    pub fn stop(&mut self, id: u64, authorized: bool) -> (outcome: Result<
        Transition,
        ElectionError,
    >)
        requires
            old(self).wf(),
        ensures
            final(self).wf(),
            !old(self)@.contains_key(id) ==> final(self)@ == old(self)@ && outcome == Err::<
                Transition,
                ElectionError,
            >(ElectionError::UnknownCommunity),
            old(self)@.contains_key(id) ==> final(self)@ == old(self)@.insert(
                id,
                old(self)@[id].stop(authorized),
            ) && match outcome {
                Ok(transition) => old(self)@[id].stop_error(authorized) is None && if old(
                    self,
                )@[id].can_open_voting() {
                    opens_voting(old(self)@[id], transition)
                } else {
                    closes_voting(old(self)@[id], transition)
                },
                Err(error) => old(self)@[id].stop_error(authorized) == Some(error),
            },
    {
        match self.find(id) {
            Some(place) => {
                let ghost before = *self;
                let community = &mut self.communities[place];
                let outcome = community.stop(authorized);
                proof {
                    self.lemma_replaced(&before, place as int);
                }
                outcome
            },
            None => Err(ElectionError::UnknownCommunity),
        }
    }

    /// Handles the expiry of the timer of `phase` in community `id`, as
    /// `Community::timer_expired` does. Turned down with
    /// `UnknownCommunity` if `id` is not on the allow-list. No other
    /// community changes.
    pub fn timer_expired(&mut self, id: u64, phase: Phase) -> (outcome: Result<
        Option<Transition>,
        ElectionError,
    >)
        requires
            old(self).wf(),
        ensures
            final(self).wf(),
            !old(self)@.contains_key(id) ==> final(self)@ == old(self)@ && outcome == Err::<
                Option<Transition>,
                ElectionError,
            >(ElectionError::UnknownCommunity),
            old(self)@.contains_key(id) ==> final(self)@ == old(self)@.insert(
                id,
                old(self)@[id].timer(phase),
            ) && match outcome {
                Ok(Some(transition)) => old(self)@[id].timer_fires(phase) && match phase {
                    Phase::Suggestion => opens_voting(old(self)@[id], transition),
                    Phase::Voting => closes_voting(old(self)@[id], transition),
                },
                Ok(None) => !old(self)@[id].timer_fires(phase),
                Err(_) => false,
            },
    {
        match self.find(id) {
            Some(place) => {
                let ghost before = *self;
                let community = &mut self.communities[place];
                let outcome = community.timer_expired(phase);
                proof {
                    self.lemma_replaced(&before, place as int);
                }
                Ok(outcome)
            },
            None => Err(ElectionError::UnknownCommunity),
        }
    }
}

} // verus!
