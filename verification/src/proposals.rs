//! The proposals collected during a suggestion phase.

use crate::rules::ElectionError;
use crate::text::{
    lemma_trimmed_ignores_trailing_whitespace, lowercased, proposal_key, text_views, trim, trimmed,
    white_space,
};
use vstd::prelude::*;

verus! {

/// A proposal as the contracts see it.
#[verifier::ext_equal]
pub struct ProposalView {
    /// The text as it is shown.
    pub text: Seq<char>,
    /// The form by which it is compared with other proposals.
    pub key: Seq<char>,
}

/// The proposals of a community as the contracts see them, oldest first.
#[verifier::ext_equal]
pub struct ProposalsView {
    /// The proposals that were accepted, in the order in which they came.
    pub entries: Seq<ProposalView>,
}

impl ProposalsView {
    /// No proposals.
    pub open spec fn empty() -> ProposalsView {
        ProposalsView { entries: Seq::empty() }
    }

    /// The number of proposals.
    pub open spec fn len(self) -> nat {
        self.entries.len()
    }

    /// Whether a proposal with the key `key` is held.
    pub open spec fn has_key(self, key: Seq<char>) -> bool {
        exists|i: int| 0 <= i < self.entries.len() && (#[trigger] self.entries[i]).key == key
    }

    /// The texts of the proposals, oldest first.
    pub open spec fn texts(self) -> Seq<Seq<char>> {
        Seq::new(self.entries.len(), |i: int| self.entries[i].text)
    }

    /// No two proposals have the same key.
    pub open spec fn wf(self) -> bool {
        forall|i: int, j: int|
            0 <= i < j < self.entries.len() ==> (#[trigger] self.entries[i]).key != (
            #[trigger] self.entries[j]).key
    }

    /// Every key is the lowercase form of its text.
    pub open spec fn normalized(self) -> bool {
        forall|i: int|
            0 <= i < self.entries.len() ==> (#[trigger] self.entries[i]).key == lowercased(
                self.entries[i].text,
            )
    }

    /// The proposals after `text` was offered under `key`: unchanged if the
    /// key is held already, else with the new proposal at the end.
    pub open spec fn add(self, text: Seq<char>, key: Seq<char>) -> ProposalsView {
        if self.has_key(key) {
            self
        } else {
            ProposalsView { entries: self.entries.push(ProposalView { text, key }) }
        }
    }

    /// The proposals after the text `raw` was proposed: it is held trimmed,
    /// under its trimmed lowercase form.
    pub open spec fn propose(self, raw: Seq<char>) -> ProposalsView {
        self.add(trimmed(raw), proposal_key(raw))
    }
}

/// Adding a proposal keeps the keys distinct.
pub proof fn lemma_add_preserves_wf(proposals: ProposalsView, text: Seq<char>, key: Seq<char>)
    requires
        proposals.wf(),
    ensures
        proposals.add(text, key).wf(),
        proposals.add(text, key).has_key(key),
        proposals.normalized() && key == lowercased(text) ==> proposals.add(text, key).normalized(),
{
    let after = proposals.add(text, key);
    if proposals.has_key(key) {
    } else {
        assert(after.entries[proposals.entries.len() as int].key == key);
        assert forall|i: int, j: int| 0 <= i < j < after.entries.len() implies (
        #[trigger] after.entries[i]).key != (#[trigger] after.entries[j]).key by {
            assert(after.entries[i] == proposals.entries[i]);
            if j < proposals.entries.len() {
                assert(after.entries[j] == proposals.entries[j]);
            }
        }
    }
}

/// Proposing a text a second time, in any case and with any whitespace
/// around it, is a duplicate: once a text was proposed, one with the same
/// trimmed lowercase form is turned down and the proposals stay as they
/// are, as many as before.
pub proof fn lemma_proposal_is_held_once(
    proposals: ProposalsView,
    first: Seq<char>,
    second: Seq<char>,
)
    requires
        proposals.wf(),
        proposal_key(first) == proposal_key(second),
    ensures
        proposals.propose(first).has_key(proposal_key(second)),
        proposals.propose(first).propose(second) == proposals.propose(first),
        proposals.propose(first).propose(second).len() == proposals.propose(first).len(),
        proposals.len() == 0 ==> proposals.propose(first).propose(second).len() == 1,
{
    lemma_add_preserves_wf(proposals, trimmed(first), proposal_key(first));
    if proposals.len() == 0 {
        assert(!proposals.has_key(proposal_key(first)));
    }
}

/// Proposing a text again with whitespace added at its end is a
/// duplicate: it is turned down and the proposals stay as they are.
pub proof fn lemma_padded_proposal_is_duplicate(
    proposals: ProposalsView,
    text: Seq<char>,
    padding: Seq<char>,
)
    requires
        proposals.wf(),
        forall|i: int| 0 <= i < padding.len() ==> white_space(#[trigger] padding[i]),
    ensures
        proposal_key(text + padding) == proposal_key(text),
        proposals.propose(text).has_key(proposal_key(text + padding)),
        proposals.propose(text).propose(text + padding) == proposals.propose(text),
{
    lemma_trimmed_ignores_trailing_whitespace(text, padding);
    lemma_proposal_is_held_once(proposals, text, text + padding);
}

/// Within a well-formed, normalized set no two texts have the same
/// lowercase form.
pub proof fn lemma_texts_differ_in_lowercase(proposals: ProposalsView, i: int, j: int)
    requires
        proposals.wf(),
        proposals.normalized(),
        0 <= i < j < proposals.entries.len(),
    ensures
        lowercased(proposals.entries[i].text) != lowercased(proposals.entries[j].text),
{
}

/// One accepted proposal.
struct Proposal {
    text: String,
    key: String,
}

impl View for Proposal {
    type V = ProposalView;

    closed spec fn view(&self) -> ProposalView {
        ProposalView { text: self.text@, key: self.key@ }
    }
}

/// The set of proposals of one community: texts that differ pairwise in
/// their keys, in the order in which they were accepted.
pub struct ProposalSet {
    entries: Vec<Proposal>,
}

impl View for ProposalSet {
    type V = ProposalsView;

    closed spec fn view(&self) -> ProposalsView {
        ProposalsView { entries: Seq::new(self.entries@.len(), |i: int| self.entries@[i]@) }
    }
}

impl ProposalSet {
    /// The invariant that every method keeps: that of the view.
    pub open spec fn wf(&self) -> bool {
        self@.wf()
    }

    /// Makes an empty set.
    pub fn new() -> (set: ProposalSet)
        ensures
            set@ == ProposalsView::empty(),
            set.wf(),
            set@.normalized(),
    {
        let set = ProposalSet { entries: Vec::new() };
        assert(set@.entries =~= Seq::empty());
        set
    }

    /// The number of proposals held.
    pub fn len(&self) -> (count: usize)
        ensures
            count == self@.len(),
    {
        self.entries.len()
    }

    /// Whether no proposal is held.
    pub fn is_empty(&self) -> (empty: bool)
        ensures
            empty == (self@.len() == 0),
    {
        self.entries.len() == 0
    }

    /// Whether a proposal with the key `key` is held.
    pub fn has_key(&self, key: &String) -> (held: bool)
        ensures
            held == self@.has_key(key@),
    {
        let mut i: usize = 0;
        while i < self.entries.len()
            invariant
                i <= self.entries.len(),
                forall|j: int| 0 <= j < i ==> (#[trigger] self@.entries[j]).key != key@,
            decreases self.entries.len() - i,
        {
            if self.entries[i].key == *key {
                assert(self@.entries[i as int].key == key@);
                return true;
            }
            i += 1;
        }
        false
    }

    /// Offers `text` under the key `key`. If no proposal with that key is
    /// held, the proposal is added at the end; else the offer is turned down
    /// with `DuplicateProposal` and nothing changes.
    pub fn add(&mut self, text: String, key: String) -> (outcome: Result<(), ElectionError>)
        requires
            old(self).wf(),
        ensures
            final(self).wf(),
            final(self)@ == old(self)@.add(text@, key@),
            match outcome {
                Ok(()) => !old(self)@.has_key(key@),
                Err(error) => old(self)@.has_key(key@) && error == ElectionError::DuplicateProposal,
            },
            final(self)@.has_key(key@),
            old(self)@.normalized() && key@ == lowercased(text@) ==> final(self)@.normalized(),
    {
        if self.has_key(&key) {
            return Err(ElectionError::DuplicateProposal);
        }
        let ghost before = self@;
        self.entries.push(Proposal { text, key });
        proof {
            let after = before.add(text@, key@);
            assert(self@.entries =~= after.entries);
            assert(after.entries[before.entries.len() as int].key == key@);
            assert forall|i: int, j: int| 0 <= i < j < after.entries.len() implies (
            #[trigger] after.entries[i]).key != (#[trigger] after.entries[j]).key by {
                assert(after.entries[i] == before.entries[i]);
                if j < before.entries.len() {
                    assert(after.entries[j] == before.entries[j]);
                }
            }
        }
        Ok(())
    }

    /// Proposes the text `raw`: it is trimmed, and compared by its lowercase
    /// form. Returns the text as it is held. A text whose form is held
    /// already is turned down with `DuplicateProposal`, and nothing changes.
    pub fn propose(&mut self, raw: &str) -> (outcome: Result<String, ElectionError>)
        requires
            old(self).wf(),
        ensures
            final(self).wf(),
            final(self)@ == old(self)@.propose(raw@),
            match outcome {
                Ok(text) => !old(self)@.has_key(proposal_key(raw@)) && text@ == trimmed(raw@),
                Err(error) => old(self)@.has_key(proposal_key(raw@)) && error
                    == ElectionError::DuplicateProposal,
            },
            final(self)@.has_key(proposal_key(raw@)),
            old(self)@.normalized() ==> final(self)@.normalized(),
    {
        let text = trim(raw);
        let key = text.as_str().to_lowercase();
        let held = text.clone();
        match self.add(text, key) {
            Ok(()) => Ok(held),
            Err(error) => Err(error),
        }
    }

    /// The texts of the proposals, oldest first.
    pub fn snapshot(&self) -> (texts: Vec<String>)
        ensures
            text_views(texts@) == self@.texts(),
    {
        let mut texts: Vec<String> = Vec::new();
        let mut i: usize = 0;
        while i < self.entries.len()
            invariant
                i <= self.entries.len(),
                texts.len() == i,
                forall|j: int| 0 <= j < i ==> (#[trigger] texts[j])@ == self@.entries[j].text,
            decreases self.entries.len() - i,
        {
            texts.push(self.entries[i].text.clone());
            i += 1;
        }
        assert(text_views(texts@) =~= self@.texts());
        texts
    }

    /// Removes every proposal.
    pub fn clear(&mut self)
        ensures
            final(self)@ == ProposalsView::empty(),
            final(self).wf(),
            final(self)@.normalized(),
    {
        self.entries = Vec::new();
        assert(self@.entries =~= Seq::empty());
    }
}

} // verus!
