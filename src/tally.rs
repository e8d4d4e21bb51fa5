use vstd::prelude::*;
use crate::keyed::{has_key, keyed, keys_unique, lemma_keyed_lookup, lemma_keyed_push, lemma_keyed_update, position};

verus! {

/// The vote counts of one poll and the identities that have voted on it.
#[derive(Clone, Debug, PartialEq, Eq)]
pub struct VotingResults {
    voting_id: String,
    variants: Vec<(String, u64)>,
    voted: Vec<String>,
}

pub struct TallyModel {
    pub voting_id: Seq<char>,
    /// Option id to number of votes, for the options voted for at least once.
    pub counts: Map<Seq<char>, nat>,
    pub voted: Set<Seq<char>>,
}

pub open spec fn count_entries(s: Seq<(String, u64)>) -> Seq<(Seq<char>, nat)> {
    s.map_values(|p: (String, u64)| (p.0@, p.1 as nat))
}

pub open spec fn voter_set(s: Seq<String>) -> Set<Seq<char>> {
    s.map_values(|x: String| x@).to_set()
}

/// A ballot: option id to whether it is chosen.
pub open spec fn selections_model(s: Seq<(String, bool)>) -> Seq<(Seq<char>, bool)> {
    s.map_values(|p: (String, bool)| (p.0@, p.1))
}

/// The count of option `k`, a missing option counting as zero.
pub open spec fn count_in(m: Map<Seq<char>, nat>, k: Seq<char>) -> nat {
    if m.contains_key(k) {
        m[k]
    } else {
        0
    }
}

/// The counts after one vote for each chosen entry of `sel`, in order.
pub open spec fn apply_selections(counts: Map<Seq<char>, nat>, sel: Seq<(Seq<char>, bool)>) -> Map<
    Seq<char>,
    nat,
>
    decreases sel.len(),
{
    if sel.len() == 0 {
        counts
    } else {
        let prev = apply_selections(counts, sel.drop_last());
        let k = sel.last().0;
        if sel.last().1 {
            prev.insert(k, count_in(prev, k) + 1)
        } else {
            prev
        }
    }
}

impl TallyModel {
    pub open spec fn empty(voting_id: Seq<char>) -> TallyModel {
        TallyModel { voting_id, counts: Map::empty(), voted: Set::empty() }
    }

    /// The tally after `voter` casts the ballot `sel`.
    pub open spec fn cast(self, voter: Seq<char>, sel: Seq<(Seq<char>, bool)>) -> TallyModel {
        TallyModel {
            voting_id: self.voting_id,
            counts: apply_selections(self.counts, sel),
            voted: self.voted.insert(voter),
        }
    }
}

impl View for VotingResults {
    type V = TallyModel;

    closed spec fn view(&self) -> TallyModel {
        TallyModel {
            voting_id: self.voting_id@,
            counts: keyed(count_entries(self.variants@)),
            voted: voter_set(self.voted@),
        }
    }
}

/// An option that no entry of `sel` names keeps its count.
pub proof fn lemma_apply_untouched(counts: Map<Seq<char>, nat>, sel: Seq<(Seq<char>, bool)>, k: Seq<char>)
    requires
        forall|i: int| 0 <= i < sel.len() ==> (#[trigger] sel[i]).0 != k,
    ensures
        count_in(apply_selections(counts, sel), k) == count_in(counts, k),
    decreases sel.len(),
{
    if sel.len() > 0 {
        let p = sel.drop_last();
        assert forall|i: int| 0 <= i < p.len() implies (#[trigger] p[i]).0 != k by {
            assert(p[i] == sel[i]);
        }
        lemma_apply_untouched(counts, p, k);
        assert(sel.last() == sel[sel.len() - 1]);
    }
}

/// A ballot with distinct option ids adds one vote to each option marked
/// true and leaves every other count as it was.
pub proof fn lemma_selective_counting(counts: Map<Seq<char>, nat>, sel: Seq<(Seq<char>, bool)>, k: Seq<char>)
    requires
        keys_unique(sel),
    ensures
        count_in(apply_selections(counts, sel), k) == count_in(counts, k) + if sel.contains((k, true)) {
            1nat
        } else {
            0nat
        },
    decreases sel.len(),
{
    if sel.len() > 0 {
        let p = sel.drop_last();
        let last = sel.last();
        assert(keys_unique(p)) by {
            assert forall|a: int, b: int|
                0 <= a < p.len() && 0 <= b < p.len() && #[trigger] p[a].0 == #[trigger] p[b].0 implies a
                == b by {
                assert(p[a] == sel[a] && p[b] == sel[b]);
            }
        }
        lemma_selective_counting(counts, p, k);
        assert(sel.contains((k, true)) <==> (p.contains((k, true)) || last == (k, true))) by {
            if sel.contains((k, true)) {
                let i = choose|i: int| 0 <= i < sel.len() && sel[i] == (k, true);
                if i < p.len() {
                    assert(p[i] == sel[i]);
                }
            }
            if p.contains((k, true)) {
                let i = choose|i: int| 0 <= i < p.len() && p[i] == (k, true);
                assert(sel[i] == p[i]);
            }
        }
        if last.0 == k {
            assert(!p.contains((k, true))) by {
                if p.contains((k, true)) {
                    let i = choose|i: int| 0 <= i < p.len() && p[i] == (k, true);
                    assert(sel[i].0 == sel[sel.len() - 1].0);
                }
            }
            assert forall|i: int| 0 <= i < p.len() implies (#[trigger] p[i]).0 != k by {
                assert(sel[i] == p[i]);
                if sel[i].0 == sel[sel.len() - 1].0 {
                    assert(i == sel.len() - 1);
                }
            }
            lemma_apply_untouched(counts, p, k);
        }
    }
}

/// Applying a ballot never lowers a count nor drops an option.
pub proof fn lemma_apply_monotone(counts: Map<Seq<char>, nat>, sel: Seq<(Seq<char>, bool)>, k: Seq<char>)
    ensures
        counts.contains_key(k) ==> apply_selections(counts, sel).contains_key(k),
        count_in(counts, k) <= count_in(apply_selections(counts, sel), k),
    decreases sel.len(),
{
    if sel.len() > 0 {
        lemma_apply_monotone(counts, sel.drop_last(), k);
    }
}

proof fn lemma_voter_set_push(s: Seq<String>, v: String)
    ensures
        voter_set(s.push(v)) == voter_set(s).insert(v@),
{
    let f = |x: String| x@;
    assert(s.push(v).map_values(f) =~= s.map_values(f).push(v@));
    let a = s.map_values(f);
    assert forall|x: Seq<char>|
        #[trigger] a.push(v@).to_set().contains(x) == a.to_set().insert(v@).contains(x) by {
        if a.push(v@).contains(x) {
            let i = choose|i: int| 0 <= i < a.push(v@).len() && a.push(v@)[i] == x;
            if i < a.len() {
                assert(a[i] == x);
            }
        }
        if a.contains(x) {
            let i = choose|i: int| 0 <= i < a.len() && a[i] == x;
            assert(a.push(v@)[i] == x);
        }
        if x == v@ {
            assert(a.push(v@)[a.len() as int] == x);
        }
    }
    assert(a.push(v@).to_set() =~= a.to_set().insert(v@));
}

impl VotingResults {
    /// Counts never exceed the number of voters, so they cannot overflow;
    /// no option appears twice.
    pub closed spec fn wf(&self) -> bool {
        &&& keys_unique(count_entries(self.variants@))
        &&& forall|i: int| 0 <= i < self.variants@.len() ==> (#[trigger] self.variants@[i]).1 <= self.voted@.len()
    }

    /// An empty tally for the poll `voting_id`.
    pub fn new(voting_id: String) -> (r: VotingResults)
        ensures
            r.wf(),
            r@ == TallyModel::empty(voting_id@),
    {
        let r = VotingResults { voting_id, variants: Vec::new(), voted: Vec::new() };
        assert(r@.counts =~= Map::empty());
        assert(r@.voted =~= Set::empty());
        r
    }

    pub fn voting_id(&self) -> (r: &String)
        ensures
            r@ == self@.voting_id,
    {
        &self.voting_id
    }

    /// Whether `voter` has voted.
    pub fn has_voted(&self, voter: &String) -> (r: bool)
        ensures
            r == self@.voted.contains(voter@),
    {
        let ghost a = self.voted@.map_values(|x: String| x@);
        let mut i: usize = 0;
        while i < self.voted.len()
            invariant
                i <= self.voted@.len(),
                a == self.voted@.map_values(|x: String| x@),
                forall|j: int| 0 <= j < i ==> (#[trigger] self.voted@[j])@ != voter@,
            decreases self.voted@.len() - i,
        {
            if self.voted[i] == *voter {
                assert(a[i as int] == voter@);
                return true;
            }
            i = i + 1;
        }
        assert(!a.contains(voter@)) by {
            if a.contains(voter@) {
                let j = choose|j: int| 0 <= j < a.len() && a[j] == voter@;
                assert(self.voted@[j]@ == voter@);
            }
        }
        false
    }

    /// The number of votes for `option`, zero if it has none.
    pub fn count(&self, option: &String) -> (r: u64)
        requires
            self.wf(),
        ensures
            r == count_in(self@.counts, option@),
    {
        match position(&self.variants, option) {
            Some(j) => {
                proof {
                    lemma_keyed_lookup(count_entries(self.variants@), j as int);
                }
                self.variants[j].1
            },
            None => {
                assert(!has_key(count_entries(self.variants@), option@)) by {
                    if has_key(count_entries(self.variants@), option@) {
                        let e = count_entries(self.variants@);
                        let j = choose|j: int| 0 <= j < e.len() && #[trigger] e[j].0 == option@;
                        assert(self.variants@[j].0@ == option@);
                    }
                }
                0
            },
        }
    }
    /// Records the ballot `selections` of `voter`. A voter who has voted
    /// already is refused and nothing changes; otherwise the voter is marked
    /// as voted and each chosen option gains one vote.
    pub fn record_vote(&mut self, voter: &String, selections: &Vec<(String, bool)>) -> (r: bool)
        requires
            old(self).wf(),
            keys_unique(selections_model(selections@)),
        ensures
            final(self).wf(),
            r == !old(self)@.voted.contains(voter@),
            r ==> final(self)@ == old(self)@.cast(voter@, selections_model(selections@)),
            !r ==> final(self)@ == old(self)@,
    {
        if self.has_voted(voter) {
            return false;
        }
        let ghost old_counts = self@.counts;
        let ghost sel = selections_model(selections@);
        proof {
            lemma_voter_set_push(self.voted@, *voter);
        }
        self.voted.push(voter.clone());
        let n = self.voted.len();
        assert(forall|key: Seq<char>| #[trigger] old_counts.contains_key(key) ==> old_counts[key] < n) by {
            assert forall|key: Seq<char>| #[trigger] old_counts.contains_key(key) implies old_counts[key]
                < n by {
                let e = count_entries(self.variants@);
                let j = choose|j: int| 0 <= j < e.len() && #[trigger] e[j].0 == key;
                lemma_keyed_lookup(e, j);
                assert(self.variants@[j].1 <= n - 1);
            }
        }
        let mut k: usize = 0;
        while k < selections.len()
            invariant
                k <= selections@.len(),
                sel == selections_model(selections@),
                keys_unique(sel),
                0 < n == self.voted@.len(),
                forall|key: Seq<char>| #[trigger] old_counts.contains_key(key) ==> old_counts[key] < n,
                keys_unique(count_entries(self.variants@)),
                forall|i: int| 0 <= i < self.variants@.len() ==> (#[trigger] self.variants@[i]).1 <= n,
                keyed(count_entries(self.variants@)) == apply_selections(old_counts, sel.take(k as int)),
                self@.voted == old(self)@.voted.insert(voter@),
                self@.voting_id == old(self)@.voting_id,
            decreases selections@.len() - k,
        {
            let ghost prev = apply_selections(old_counts, sel.take(k as int));
            assert(sel.take(k + 1).drop_last() =~= sel.take(k as int));
            assert(sel[k as int] == (selections@[k as int].0@, selections@[k as int].1));
            if selections[k].1 {
                let key = &selections[k].0;
                proof {
                    assert forall|i: int| 0 <= i < sel.take(k as int).len() implies (#[trigger] sel.take(
                        k as int,
                    )[i]).0 != key@ by {
                        assert(sel.take(k as int)[i] == sel[i]);
                        assert(sel[k as int].0 == key@);
                        if sel[i].0 == sel[k as int].0 {
                            assert(i == k);
                        }
                    }
                    assert(count_in(old_counts, key@) < n) by {
                        if old_counts.contains_key(key@) {
                            assert(old_counts[key@] < n);
                        }
                    }
                    lemma_apply_untouched(old_counts, sel.take(k as int), key@);
                }
                match position(&self.variants, key) {
                    Some(j) => {
                        let ghost e = count_entries(self.variants@);
                        proof {
                            lemma_keyed_lookup(e, j as int);
                            assert(e[j as int].0 == key@);
                            assert(e[j as int].1 == self.variants@[j as int].1 as nat);
                            assert(count_in(prev, key@) == e[j as int].1);
                        }
                        let mut entry = self.variants.remove(j);
                        assert(entry.1 < n);
                        entry.1 = entry.1 + 1;
                        self.variants.insert(j, entry);
                        proof {
                            lemma_keyed_update(e, j as int, entry.1 as nat);
                            assert(count_entries(self.variants@) =~= e.update(j as int, (e[j as int].0, entry.1 as nat)));
                        }
                    },
                    None => {
                        let ghost e = count_entries(self.variants@);
                        assert(!has_key(e, key@)) by {
                            if has_key(e, key@) {
                                let j = choose|j: int| 0 <= j < e.len() && #[trigger] e[j].0 == key@;
                                assert(self.variants@[j].0@ == key@);
                            }
                        }
                        proof {
                            lemma_keyed_push(e, key@, 1);
                        }
                        self.variants.push((key.clone(), 1));
                        assert(count_entries(self.variants@) =~= e.push((key@, 1nat)));
                    },
                }
            }
            k = k + 1;
        }
        assert(sel.take(selections@.len() as int) =~= sel);
        true
    }
}

} // verus!
