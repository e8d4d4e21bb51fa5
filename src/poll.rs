use vstd::prelude::*;
use vstd::string::StringExecFns;

verus! {

/// One labelled option of a poll.
#[derive(Clone, Debug, PartialEq, Eq)]
pub struct VotingOption {
    option_id: String,
    message: String,
}

pub struct OptionModel {
    pub option_id: Seq<char>,
    pub message: Seq<char>,
}

impl View for VotingOption {
    type V = OptionModel;

    closed spec fn view(&self) -> OptionModel {
        OptionModel { option_id: self.option_id@, message: self.message@ }
    }
}

/// The immutable definition of a poll.
#[derive(Clone, Debug, PartialEq, Eq)]
pub struct VotingOptions {
    creator: String,
    voting_id: String,
    question: String,
    variants: Vec<VotingOption>,
}

pub struct PollModel {
    pub creator: Seq<char>,
    pub voting_id: Seq<char>,
    pub question: Seq<char>,
    pub variants: Seq<OptionModel>,
}

pub open spec fn options_model(v: Seq<VotingOption>) -> Seq<OptionModel> {
    v.map_values(|o: VotingOption| o@)
}

/// The options of a poll built from `(id, label)` pairs, in their order.
pub open spec fn options_of_pairs(p: Seq<(String, String)>) -> Seq<OptionModel> {
    p.map_values(|e: (String, String)| OptionModel { option_id: e.0@, message: e.1@ })
}

impl View for VotingOptions {
    type V = PollModel;

    closed spec fn view(&self) -> PollModel {
        PollModel {
            creator: self.creator@,
            voting_id: self.voting_id@,
            question: self.question@,
            variants: options_model(self.variants@),
        }
    }
}

/// What a lookup of an unknown poll shows.
pub open spec fn placeholder_model() -> PollModel {
    PollModel {
        creator: "Bogus"@,
        voting_id: "000000000000"@,
        question: "Bogus question"@,
        variants: seq![
            OptionModel { option_id: "variant1"@, message: "Variant 1"@ },
            OptionModel { option_id: "variant2"@, message: "Variant2 2"@ },
        ],
    }
}

impl VotingOption {
    pub fn new(option_id: String, message: String) -> (r: VotingOption)
        ensures
            r@ == (OptionModel { option_id: option_id@, message: message@ }),
    {
        VotingOption { option_id, message }
    }

    pub fn option_id(&self) -> (r: &String)
        ensures
            r@ == self@.option_id,
    {
        &self.option_id
    }

    pub fn message(&self) -> (r: &String)
        ensures
            r@ == self@.message,
    {
        &self.message
    }

    /// A copy with the same view.
    pub fn duplicate(&self) -> (r: VotingOption)
        ensures
            r@ == self@,
    {
        VotingOption { option_id: self.option_id.clone(), message: self.message.clone() }
    }
}

impl VotingOptions {
    /// A definition whose options are the `(id, label)` pairs, in their order.
    pub fn new(creator: String, voting_id: String, question: String, variants: &Vec<(String, String)>) -> (r:
        VotingOptions)
        ensures
            r@ == (PollModel {
                creator: creator@,
                voting_id: voting_id@,
                question: question@,
                variants: options_of_pairs(variants@),
            }),
    {
        let mut opts: Vec<VotingOption> = Vec::new();
        let mut i: usize = 0;
        while i < variants.len()
            invariant
                i <= variants@.len(),
                opts@.len() == i,
                forall|j: int|
                    0 <= j < i ==> (#[trigger] opts@[j])@ == (OptionModel {
                        option_id: variants@[j].0@,
                        message: variants@[j].1@,
                    }),
            decreases variants@.len() - i,
        {
            let o = VotingOption::new(variants[i].0.clone(), variants[i].1.clone());
            opts.push(o);
            i = i + 1;
        }
        assert(options_model(opts@) =~= options_of_pairs(variants@));
        VotingOptions { creator, voting_id, question, variants: opts }
    }

    pub fn placeholder() -> (r: VotingOptions)
        ensures
            r@ == placeholder_model(),
    {
        let mut variants: Vec<VotingOption> = Vec::new();
        variants.push(VotingOption::new(String::from_str("variant1"), String::from_str("Variant 1")));
        variants.push(VotingOption::new(String::from_str("variant2"), String::from_str("Variant2 2")));
        let r = VotingOptions {
            creator: String::from_str("Bogus"),
            voting_id: String::from_str("000000000000"),
            question: String::from_str("Bogus question"),
            variants,
        };
        assert(r@.variants =~= placeholder_model().variants);
        r
    }

    /// A copy with the same view.
    pub fn duplicate(&self) -> (r: VotingOptions)
        ensures
            r@ == self@,
    {
        let mut opts: Vec<VotingOption> = Vec::new();
        let mut i: usize = 0;
        while i < self.variants.len()
            invariant
                i <= self.variants@.len(),
                opts@.len() == i,
                forall|j: int| 0 <= j < i ==> (#[trigger] opts@[j])@ == self.variants@[j]@,
            decreases self.variants@.len() - i,
        {
            opts.push(self.variants[i].duplicate());
            i = i + 1;
        }
        assert(options_model(opts@) =~= options_model(self.variants@));
        VotingOptions {
            creator: self.creator.clone(),
            voting_id: self.voting_id.clone(),
            question: self.question.clone(),
            variants: opts,
        }
    }

    pub fn creator(&self) -> (r: &String)
        ensures
            r@ == self@.creator,
    {
        &self.creator
    }

    pub fn voting_id(&self) -> (r: &String)
        ensures
            r@ == self@.voting_id,
    {
        &self.voting_id
    }

    pub fn question(&self) -> (r: &String)
        ensures
            r@ == self@.question,
    {
        &self.question
    }

    pub fn variants(&self) -> (r: &Vec<VotingOption>)
        ensures
            options_model(r@) == self@.variants,
    {
        &self.variants
    }
}

} // verus!
