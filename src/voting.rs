use vstd::prelude::*;
use crate::ident::{base58_of, external_key, generate_id, make_external_key};
use crate::keyed::{has_key, keyed, keys_unique, lemma_keyed_lookup, lemma_keyed_push, lemma_keyed_update, position};
use crate::poll::{options_of_pairs, placeholder_model, OptionModel, PollModel, VotingOptions};
use crate::tally::{count_in, lemma_apply_monotone, selections_model, TallyModel, VotingResults};

verus! {

/// The polls and their tallies, each addressed by its external key.
pub struct Voting {
    votings: Vec<(String, VotingOptions)>,
    results: Vec<(String, VotingResults)>,
}

pub struct VotingModel {
    pub polls: Map<Seq<char>, PollModel>,
    pub tallies: Map<Seq<char>, TallyModel>,
}

pub open spec fn poll_entries(s: Seq<(String, VotingOptions)>) -> Seq<(Seq<char>, PollModel)> {
    s.map_values(|p: (String, VotingOptions)| (p.0@, p.1@))
}

pub open spec fn tally_entries(s: Seq<(String, VotingResults)>) -> Seq<(Seq<char>, TallyModel)> {
    s.map_values(|p: (String, VotingResults)| (p.0@, p.1@))
}

/// What a lookup of `key` shows: the poll, or the placeholder if it is unknown.
pub open spec fn show_spec(m: VotingModel, key: Seq<char>) -> PollModel {
    if m.polls.contains_key(key) {
        m.polls[key]
    } else {
        placeholder_model()
    }
}

/// The state after a poll is created, and its external key. The definition
/// is stored under the key, overwriting; an empty tally is added unless one
/// exists under that key already.
pub open spec fn create_spec(
    m: VotingModel,
    creator: Seq<char>,
    owner: Seq<char>,
    poll_id: Seq<char>,
    question: Seq<char>,
    variants: Seq<OptionModel>,
) -> (VotingModel, Seq<char>) {
    let key = external_key(owner, poll_id);
    let def = PollModel { creator, voting_id: poll_id, question, variants };
    let tallies = if m.tallies.contains_key(key) {
        m.tallies
    } else {
        m.tallies.insert(key, TallyModel::empty(poll_id))
    };
    (VotingModel { polls: m.polls.insert(key, def), tallies }, key)
}

/// The state after `voter` casts `sel` on the poll under `key`, and whether
/// the vote was accepted: only where the tally exists and `voter` has not
/// voted on it yet.
pub open spec fn vote_spec(m: VotingModel, key: Seq<char>, voter: Seq<char>, sel: Seq<(Seq<char>, bool)>) -> (
    VotingModel,
    bool,
) {
    if m.tallies.contains_key(key) && !m.tallies[key].voted.contains(voter) {
        (
            VotingModel { polls: m.polls, tallies: m.tallies.insert(key, m.tallies[key].cast(voter, sel)) },
            true,
        )
    } else {
        (m, false)
    }
}

/// A vote on a key that has no tally is refused and changes nothing.
pub proof fn lemma_unknown_poll(m: VotingModel, key: Seq<char>, voter: Seq<char>, sel: Seq<(Seq<char>, bool)>)
    requires
        !m.tallies.contains_key(key),
    ensures
        vote_spec(m, key, voter, sel) == (m, false),
{
}

/// An identity that has voted on a poll is refused there, and the state
/// stays as it was.
pub proof fn lemma_voter_refused(m: VotingModel, key: Seq<char>, voter: Seq<char>, sel: Seq<(Seq<char>, bool)>)
    requires
        m.tallies.contains_key(key),
        m.tallies[key].voted.contains(voter),
    ensures
        vote_spec(m, key, voter, sel) == (m, false),
{
}

/// A vote only adds: no tally disappears, no voter is dropped, and no
/// count goes down.
pub proof fn lemma_vote_only_adds(
    m: VotingModel,
    key: Seq<char>,
    voter: Seq<char>,
    sel: Seq<(Seq<char>, bool)>,
    k: Seq<char>,
    who: Seq<char>,
    option: Seq<char>,
)
    requires
        m.tallies.contains_key(k),
    ensures
        ({
            let m1 = vote_spec(m, key, voter, sel).0;
            &&& m1.polls == m.polls
            &&& m1.tallies.contains_key(k)
            &&& m1.tallies[k].voting_id == m.tallies[k].voting_id
            &&& m.tallies[k].voted.contains(who) ==> m1.tallies[k].voted.contains(who)
            &&& count_in(m.tallies[k].counts, option) <= count_in(m1.tallies[k].counts, option)
        }),
{
    lemma_apply_monotone(m.tallies[k].counts, sel, option);
}

/// Once a poll is created under a fresh key, the first vote of any identity
/// on it is accepted.
pub proof fn lemma_first_vote_accepted(
    m: VotingModel,
    creator: Seq<char>,
    owner: Seq<char>,
    poll_id: Seq<char>,
    question: Seq<char>,
    variants: Seq<OptionModel>,
    voter: Seq<char>,
    sel: Seq<(Seq<char>, bool)>,
)
    requires
        !m.tallies.contains_key(external_key(owner, poll_id)),
    ensures
        ({
            let (m1, key) = create_spec(m, creator, owner, poll_id, question, variants);
            vote_spec(m1, key, voter, sel).1
        }),
{
    let (m1, key) = create_spec(m, creator, owner, poll_id, question, variants);
    assert(m1.tallies[key] == TallyModel::empty(poll_id));
}

/// An identity that has voted on a poll stays marked as voted through any
/// later vote or poll creation.
pub proof fn lemma_voted_persists(
    m: VotingModel,
    key: Seq<char>,
    voter: Seq<char>,
    other_key: Seq<char>,
    other_voter: Seq<char>,
    sel: Seq<(Seq<char>, bool)>,
    creator: Seq<char>,
    owner: Seq<char>,
    poll_id: Seq<char>,
    question: Seq<char>,
    variants: Seq<OptionModel>,
)
    requires
        m.tallies.contains_key(key),
        m.tallies[key].voted.contains(voter),
    ensures
        ({
            let m1 = vote_spec(m, other_key, other_voter, sel).0;
            m1.tallies.contains_key(key) && m1.tallies[key].voted.contains(voter)
        }),
        ({
            let m2 = create_spec(m, creator, owner, poll_id, question, variants).0;
            m2.tallies.contains_key(key) && m2.tallies[key].voted.contains(voter)
        }),
{
}

/// A second vote by the same identity on the same poll is refused and
/// leaves the counts and the voters as they were.
pub proof fn lemma_repeat_vote_rejected(
    m: VotingModel,
    key: Seq<char>,
    voter: Seq<char>,
    first: Seq<(Seq<char>, bool)>,
    second: Seq<(Seq<char>, bool)>,
)
    requires
        m.tallies.contains_key(key),
    ensures
        ({
            let m1 = vote_spec(m, key, voter, first).0;
            vote_spec(m1, key, voter, second) == (m1, false)
        }),
{
    let (m1, r1) = vote_spec(m, key, voter, first);
    if r1 {
        assert(m1.tallies[key].voted.contains(voter));
    }
}

impl View for Voting {
    type V = VotingModel;

    closed spec fn view(&self) -> VotingModel {
        VotingModel {
            polls: keyed(poll_entries(self.votings@)),
            tallies: keyed(tally_entries(self.results@)),
        }
    }
}

impl Voting {
    pub closed spec fn wf(&self) -> bool {
        &&& keys_unique(poll_entries(self.votings@))
        &&& keys_unique(tally_entries(self.results@))
        &&& forall|i: int| 0 <= i < self.results@.len() ==> (#[trigger] self.results@[i]).1.wf()
    }

    /// An empty store.
    pub fn new() -> (r: Voting)
        ensures
            r.wf(),
            r@.polls == Map::<Seq<char>, PollModel>::empty(),
            r@.tallies == Map::<Seq<char>, TallyModel>::empty(),
    {
        let r = Voting { votings: Vec::new(), results: Vec::new() };
        assert(r@.polls =~= Map::empty());
        assert(r@.tallies =~= Map::empty());
        r
    }
    /// Casts the ballot `selections` of `voter` on the poll under `voting_id`.
    /// Returns false, changing nothing, where the poll has no tally or the
    /// voter has voted on it already.
    pub fn vote(&mut self, voting_id: String, voter: String, selections: Vec<(String, bool)>) -> (r: bool)
        requires
            old(self).wf(),
            keys_unique(selections_model(selections@)),
        ensures
            final(self).wf(),
            (final(self)@, r) == vote_spec(old(self)@, voting_id@, voter@, selections_model(selections@)),
    {
        match position(&self.results, &voting_id) {
            Some(j) => {
                let ghost e = tally_entries(self.results@);
                proof {
                    lemma_keyed_lookup(e, j as int);
                }
                let mut entry = self.results.remove(j);
                assert(entry.1.wf()) by {
                    assert(entry == old(self).results@[j as int]);
                }
                let accepted = entry.1.record_vote(&voter, &selections);
                self.results.insert(j, entry);
                proof {
                    assert(tally_entries(self.results@) =~= e.update(j as int, (e[j as int].0, entry.1@)));
                    lemma_keyed_update(e, j as int, entry.1@);
                    if !accepted {
                        assert(keyed(e).insert(e[j as int].0, entry.1@) =~= keyed(e));
                    }
                    assert forall|i: int| 0 <= i < self.results@.len() implies (
                    #[trigger] self.results@[i]).1.wf() by {
                        if i != j {
                            assert(self.results@[i] == old(self).results@[i]);
                        }
                    }
                }
                accepted
            },
            None => {
                assert(!has_key(tally_entries(self.results@), voting_id@)) by {
                    let e = tally_entries(self.results@);
                    if has_key(e, voting_id@) {
                        let i = choose|i: int| 0 <= i < e.len() && #[trigger] e[i].0 == voting_id@;
                        assert(self.results@[i].0@ == voting_id@);
                    }
                }
                false
            },
        }
    }

    /// The definition of the poll under `voting_id`, or the placeholder where
    /// there is none.
    pub fn show_options(&self, voting_id: String) -> (r: VotingOptions)
        requires
            self.wf(),
        ensures
            r@ == show_spec(self@, voting_id@),
    {
        match position(&self.votings, &voting_id) {
            Some(j) => {
                proof {
                    lemma_keyed_lookup(poll_entries(self.votings@), j as int);
                }
                self.votings[j].1.duplicate()
            },
            None => {
                assert(!has_key(poll_entries(self.votings@), voting_id@)) by {
                    let e = poll_entries(self.votings@);
                    if has_key(e, voting_id@) {
                        let i = choose|i: int| 0 <= i < e.len() && #[trigger] e[i].0 == voting_id@;
                        assert(self.votings@[i].0@ == voting_id@);
                    }
                }
                VotingOptions::placeholder()
            },
        }
    }

    /// Creates the poll `poll_id` of `owner`, asked by `creator`, with the
    /// `(id, label)` options `variants`, and returns its external key.
    pub fn register_poll(
        &mut self,
        creator: String,
        owner: String,
        poll_id: String,
        question: String,
        variants: Vec<(String, String)>,
    ) -> (r: String)
        requires
            old(self).wf(),
        ensures
            final(self).wf(),
            (final(self)@, r@) == create_spec(
                old(self)@,
                creator@,
                owner@,
                poll_id@,
                question@,
                options_of_pairs(variants@),
            ),
    {
        let key = make_external_key(&owner, &poll_id);
        let def = VotingOptions::new(creator, poll_id.clone(), question, &variants);
        let ghost pe = poll_entries(self.votings@);
        match position(&self.votings, &key) {
            Some(j) => {
                proof {
                    lemma_keyed_update(pe, j as int, def@);
                }
                self.votings.remove(j);
                self.votings.insert(j, (key.clone(), def));
                assert(poll_entries(self.votings@) =~= pe.update(j as int, (pe[j as int].0, def@)));
            },
            None => {
                assert(!has_key(pe, key@)) by {
                    if has_key(pe, key@) {
                        let i = choose|i: int| 0 <= i < pe.len() && #[trigger] pe[i].0 == key@;
                        assert(self.votings@[i].0@ == key@);
                    }
                }
                proof {
                    lemma_keyed_push(pe, key@, def@);
                }
                self.votings.push((key.clone(), def));
                assert(poll_entries(self.votings@) =~= pe.push((key@, def@)));
            },
        }
        let ghost te = tally_entries(self.results@);
        match position(&self.results, &key) {
            Some(j) => {
                proof {
                    lemma_keyed_lookup(te, j as int);
                }
            },
            None => {
                assert(!has_key(te, key@)) by {
                    if has_key(te, key@) {
                        let i = choose|i: int| 0 <= i < te.len() && #[trigger] te[i].0 == key@;
                        assert(self.results@[i].0@ == key@);
                    }
                }
                let fresh = VotingResults::new(poll_id);
                proof {
                    lemma_keyed_push(te, key@, fresh@);
                }
                self.results.push((key.clone(), fresh));
                assert(tally_entries(self.results@) =~= te.push((key@, fresh@)));
                assert forall|i: int| 0 <= i < self.results@.len() implies (
                #[trigger] self.results@[i]).1.wf() by {
                    if i < te.len() {
                        assert(self.results@[i] == old(self).results@[i]);
                    }
                }
            },
        }
        key
    }

    /// Creates a poll whose identifier is the Base58 text of `digest`, a
    /// digest of fresh randomness, and returns its external key.
    pub fn create_voting(
        &mut self,
        creator: String,
        owner: String,
        digest: Vec<u8>,
        question: String,
        variants: Vec<(String, String)>,
    ) -> (r: String)
        requires
            old(self).wf(),
        ensures
            final(self).wf(),
            (final(self)@, r@) == create_spec(
                old(self)@,
                creator@,
                owner@,
                base58_of(digest@),
                question@,
                options_of_pairs(variants@),
            ),
    {
        let poll_id = generate_id(&digest);
        self.register_poll(creator, owner, poll_id, question, variants)
    }
    /// Index of the tally under `voting_id`, if there is one.
    fn tally_position(&self, voting_id: &String) -> (r: Option<usize>)
        requires
            self.wf(),
        ensures
            r is None <==> !self@.tallies.contains_key(voting_id@),
            r matches Some(j) ==> j < self.results@.len() && self.results@[j as int].1@
                == self@.tallies[voting_id@] && self.results@[j as int].1.wf(),
    {
        let r = position(&self.results, voting_id);
        match r {
            Some(j) => {
                proof {
                    lemma_keyed_lookup(tally_entries(self.results@), j as int);
                }
            },
            None => {
                assert(!has_key(tally_entries(self.results@), voting_id@)) by {
                    let e = tally_entries(self.results@);
                    if has_key(e, voting_id@) {
                        let i = choose|i: int| 0 <= i < e.len() && #[trigger] e[i].0 == voting_id@;
                        assert(self.results@[i].0@ == voting_id@);
                    }
                }
            },
        }
        r
    }

    /// Whether a poll definition exists under `voting_id`.
    pub fn has_poll(&self, voting_id: &String) -> (r: bool)
        requires
            self.wf(),
        ensures
            r == self@.polls.contains_key(voting_id@),
    {
        match position(&self.votings, voting_id) {
            Some(j) => {
                proof {
                    lemma_keyed_lookup(poll_entries(self.votings@), j as int);
                }
                true
            },
            None => {
                assert(!has_key(poll_entries(self.votings@), voting_id@)) by {
                    let e = poll_entries(self.votings@);
                    if has_key(e, voting_id@) {
                        let i = choose|i: int| 0 <= i < e.len() && #[trigger] e[i].0 == voting_id@;
                        assert(self.votings@[i].0@ == voting_id@);
                    }
                }
                false
            },
        }
    }

    /// Whether a tally exists under `voting_id`.
    pub fn has_tally(&self, voting_id: &String) -> (r: bool)
        requires
            self.wf(),
        ensures
            r == self@.tallies.contains_key(voting_id@),
    {
        self.tally_position(voting_id).is_some()
    }

    /// The votes for `option` in the tally under `voting_id`; `None` where
    /// there is no such tally.
    pub fn vote_count(&self, voting_id: &String, option: &String) -> (r: Option<u64>)
        requires
            self.wf(),
        ensures
            r is Some <==> self@.tallies.contains_key(voting_id@),
            r matches Some(c) ==> c == count_in(self@.tallies[voting_id@].counts, option@),
    {
        match self.tally_position(voting_id) {
            Some(j) => Some(self.results[j].1.count(option)),
            None => None,
        }
    }

    /// Whether `voter` has voted on the poll under `voting_id`.
    pub fn has_voted(&self, voting_id: &String, voter: &String) -> (r: bool)
        requires
            self.wf(),
        ensures
            r == (self@.tallies.contains_key(voting_id@) && self@.tallies[voting_id@].voted.contains(voter@)),
    {
        match self.tally_position(voting_id) {
            Some(j) => self.results[j].1.has_voted(voter),
            None => false,
        }
    }
}

impl Default for Voting {
    fn default() -> (r: Voting)
        ensures
            r.wf(),
            r@.polls == Map::<Seq<char>, PollModel>::empty(),
            r@.tallies == Map::<Seq<char>, TallyModel>::empty(),
    {
        Voting::new()
    }
}

} // verus!
