//! One poll: its options, when it began, and who voted for what.

use crate::error::PollError;
use crate::options::texts;
use crate::order::ascending;
use crate::text::same_text;
use std::collections::HashMap;
use vstd::prelude::*;

verus! {

broadcast use vstd::std_specs::hash::group_hash_axioms;

/// What a poll record holds, as plain mathematics.
pub struct RecordView {
    /// The clock reading at which the poll began.
    pub start_time: u128,
    /// The labels that can be voted for, in display order.
    pub options: Seq<Seq<char>>,
    /// The ledger: for each voter the label that they chose last.
    pub votes: Map<u64, Seq<char>>,
}

impl RecordView {
    /// The shape that every record keeps: at least one option, the options in
    /// dictionary order without repetition, finitely many voters, and no vote
    /// for anything but an option.
    pub open spec fn valid(self) -> bool {
        &&& self.options.len() > 0
        &&& ascending(self.options)
        &&& self.votes.dom().finite()
        &&& forall|voter: u64| #[trigger]
            self.votes.contains_key(voter) ==> self.options.contains(self.votes[voter])
    }

    /// The record after `voter` has chosen `option`: their earlier choice, if
    /// any, is gone.
    pub open spec fn with_vote(self, voter: u64, option: Seq<char>) -> RecordView {
        RecordView { votes: self.votes.insert(voter, option), ..self }
    }

    /// Tells the voters whose ledger entry is `option` from the others.
    pub open spec fn chose(self, option: Seq<char>) -> spec_fn(u64) -> bool {
        |voter: u64| self.votes[voter] == option
    }

    /// The record after `voter` has made each of `choices` in turn.
    pub open spec fn with_votes(self, voter: u64, choices: Seq<Seq<char>>) -> RecordView
        decreases choices.len(),
    {
        if choices.len() == 0 {
            self
        } else {
            self.with_votes(voter, choices.drop_last()).with_vote(voter, choices.last())
        }
    }

    /// The voters whose ledger entry is `option`.
    pub open spec fn voters_for(self, option: Seq<char>) -> Set<u64> {
        self.votes.dom().filter(self.chose(option))
    }

    /// How many voters' ledger entry is `option`.
    pub open spec fn votes_for(self, option: Seq<char>) -> nat {
        self.voters_for(option).len()
    }

    /// How long the poll has existed at clock reading `now`. A reading from
    /// before the poll began counts as no time at all.
    pub open spec fn age(self, now: u128) -> nat {
        if now >= self.start_time {
            (now - self.start_time) as nat
        } else {
            0
        }
    }

    /// Whether the poll has outlived `max_age` at clock reading `now`.
    pub open spec fn expired(self, now: u128, max_age: u128) -> bool {
        self.age(now) > max_age
    }
}

/// A vote for one of the options keeps a valid record valid.
pub proof fn lemma_vote_keeps_valid(record: RecordView, voter: u64, option: Seq<char>)
    requires
        record.valid(),
        record.options.contains(option),
    ensures
        record.with_vote(voter, option).valid(),
{
    let after = record.with_vote(voter, option);
    assert forall|v: u64| #[trigger] after.votes.contains_key(v) implies after.options.contains(
        after.votes[v],
    ) by {
        if v != voter {
            assert(record.votes.contains_key(v));
        }
    }
}

/// A vote counts for the chosen option and for no other: afterwards the
/// voter is among the voters for `option` alone, and every other voter
/// stands where they stood.
pub proof fn lemma_vote_counts_once(record: RecordView, voter: u64, option: Seq<char>)
    ensures
        forall|label: Seq<char>|
            #![trigger record.with_vote(voter, option).voters_for(label)]
            record.with_vote(voter, option).voters_for(label) == if label == option {
                record.voters_for(label).insert(voter)
            } else {
                record.voters_for(label).remove(voter)
            },
{
    let after = record.with_vote(voter, option);
    assert forall|label: Seq<char>|
        #![trigger after.voters_for(label)]
        after.voters_for(label) == if label == option {
            record.voters_for(label).insert(voter)
        } else {
            record.voters_for(label).remove(voter)
        } by {
        if label == option {
            assert(after.voters_for(label) =~= record.voters_for(label).insert(voter));
        } else {
            assert(after.voters_for(label) =~= record.voters_for(label).remove(voter));
        }
    }
}

/// Casting the same vote again changes nothing.
pub proof fn lemma_same_vote_again_changes_nothing(
    record: RecordView,
    voter: u64,
    option: Seq<char>,
)
    ensures
        record.with_vote(voter, option).with_vote(voter, option) == record.with_vote(
            voter,
            option,
        ),
{
    assert(record.votes.insert(voter, option).insert(voter, option) =~= record.votes.insert(
        voter,
        option,
    ));
}

/// The last vote wins: however often a voter votes, the record is the one
/// that their last choice alone would have given, so only that choice is
/// counted.
pub proof fn lemma_last_vote_wins(record: RecordView, voter: u64, choices: Seq<Seq<char>>)
    requires
        choices.len() > 0,
    ensures
        record.with_votes(voter, choices) == record.with_vote(voter, choices.last()),
        forall|label: Seq<char>|
            #![trigger record.with_votes(voter, choices).voters_for(label)]
            record.with_votes(voter, choices).voters_for(label).contains(voter) <==> label
                == choices.last(),
    decreases choices.len(),
{
    let earlier = record.with_votes(voter, choices.drop_last());
    if choices.len() > 1 {
        lemma_last_vote_wins(record, voter, choices.drop_last());
    }
    assert(earlier.votes.insert(voter, choices.last()) =~= record.votes.insert(
        voter,
        choices.last(),
    ));
    lemma_vote_counts_once(record, voter, choices.last());
}

/// A poll: a fixed list of options, the time it began, and the vote ledger.
pub struct PollRecord {
    start_time: u128,
    options: Vec<String>,
    votes: HashMap<u64, String>,
}

impl View for PollRecord {
    type V = RecordView;

    closed spec fn view(&self) -> RecordView {
        RecordView {
            start_time: self.start_time,
            options: texts(self.options@),
            votes: self.votes@.map_values(|s: String| s@),
        }
    }
}

impl PollRecord {
    /// A poll that begins at `start_time` with the given options and no votes.
    pub(crate) fn new(options: Vec<String>, start_time: u128) -> (record: PollRecord)
        requires
            options@.len() > 0,
            ascending(texts(options@)),
        ensures
            record@ == (RecordView {
                start_time,
                options: texts(options@),
                votes: Map::empty(),
            }),
            record@.valid(),
    {
        let record = PollRecord { start_time, options, votes: HashMap::new() };
        proof {
            assert(record@.votes =~= Map::<u64, Seq<char>>::empty());
        }
        record
    }

    /// The poll's options, in display order.
    pub fn options(&self) -> (options: &Vec<String>)
        ensures
            texts(options@) == self@.options,
    {
        &self.options
    }

    /// The clock reading at which the poll began.
    pub fn start_time(&self) -> (t: u128)
        ensures
            t == self@.start_time,
    {
        self.start_time
    }

    /// How long the poll has existed at clock reading `now`.
    pub fn age(&self, now: u128) -> (age: u128)
        ensures
            age == self@.age(now),
    {
        if now >= self.start_time {
            now - self.start_time
        } else {
            0
        }
    }

    /// Whether the poll has outlived `max_age` at clock reading `now`.
    pub fn is_expired(&self, now: u128, max_age: u128) -> (r: bool)
        ensures
            r == self@.expired(now, max_age),
    {
        self.age(now) > max_age
    }

    /// How many voters the ledger holds.
    pub fn voter_count(&self) -> (n: usize)
        ensures
            n == self@.votes.dom().len(),
    {
        proof {
            assert(self@.votes.dom() =~= self.votes@.dom());
        }
        self.votes.len()
    }

    /// The latest choice of `voter`, if they have voted.
    pub fn choice_of(&self, voter: u64) -> (choice: Option<&String>)
        ensures
            match choice {
                Some(option) => self@.votes.contains_key(voter) && self@.votes[voter] == option@,
                None => !self@.votes.contains_key(voter),
            },
    {
        self.votes.get(&voter)
    }

    /// Whether `option` is one of the poll's options.
    pub fn offers(&self, option: &str) -> (r: bool)
        ensures
            r == self@.options.contains(option@),
    {
        let mut i: usize = 0;
        while i < self.options.len()
            invariant
                0 <= i <= self.options@.len(),
                forall|j: int| 0 <= j < i ==> texts(self.options@)[j] != option@,
            decreases self.options@.len() - i,
        {
            if same_text(self.options[i].as_str(), option) {
                assert(texts(self.options@)[i as int] == option@);
                return true;
            }
            i = i + 1;
        }
        false
    }

    /// Records that `voter` chose `option`, in place of whatever they chose
    /// before. An `option` that the poll does not offer is refused with
    /// `UnknownOption`, and the ledger stays as it was.
    pub fn record_vote(&mut self, voter: u64, option: &str) -> (r: Result<(), PollError>)
        requires
            old(self)@.valid(),
        ensures
            match r {
                Ok(()) => old(self)@.options.contains(option@) && final(self)@ == old(
                    self,
                )@.with_vote(voter, option@),
                Err(e) => e == PollError::UnknownOption && !old(self)@.options.contains(option@)
                    && final(self)@ == old(self)@,
            },
            final(self)@.valid(),
    {
        if !self.offers(option) {
            return Err(PollError::UnknownOption);
        }
        self.votes.insert(voter, option.to_owned());
        proof {
            assert(self@.votes =~= old(self)@.votes.insert(voter, option@));
        }
        Ok(())
    }

    /// How many voters' latest choice is `option`.
    pub fn votes_for(&self, option: &str) -> (n: usize)
        ensures
            n == self@.votes_for(option@),
    {
        let ghost ledger = self@.votes;
        let ghost chosen = self@.chose(option@);
        let ghost mut seen: Set<u64> = Set::empty();
        let mut n: usize = 0;
        let total: usize = self.votes.len();
        proof {
            assert(seen.filter(chosen) =~= Set::<u64>::empty());
        }
        for entry in it: self.votes.iter()
            invariant
                ledger == self@.votes,
                chosen == self@.chose(option@),
                total == it.seq().len(),
                it.seq().no_duplicates(),
                forall|j: int|
                    0 <= j < it.seq().len() ==> {
                        &&& #[trigger] ledger.contains_key(*it.seq()[j].0)
                        &&& ledger[*it.seq()[j].0] == (*it.seq()[j].1)@
                        &&& self.votes@[*it.seq()[j].0] == *it.seq()[j].1
                    },
                forall|voter: u64| #[trigger]
                    ledger.contains_key(voter) ==> exists|j: int|
                        0 <= j < it.seq().len() && *(#[trigger] it.seq()[j]).0 == voter,
                seen.finite(),
                seen.len() == it.index(),
                forall|voter: u64|
                    seen.contains(voter) <==> exists|j: int|
                        0 <= j < it.index() && *(#[trigger] it.seq()[j]).0 == voter,
                n == seen.filter(chosen).len(),
                n <= it.index(),
        {
            let ghost at: int = it.index();
            let (voter, choice) = entry;
            let hit: bool = same_text(choice.as_str(), option);
            proof {
                assert(*it.seq()[at].0 == *voter);
                if seen.contains(*voter) {
                    let j: int = choose|j: int|
                        0 <= j < at && *(#[trigger] it.seq()[j]).0 == *voter;
                    assert(self.votes@[*it.seq()[j].0] == *it.seq()[j].1);
                    assert(self.votes@[*it.seq()[at].0] == *it.seq()[at].1);
                    assert(it.seq()[j] == it.seq()[at]);
                }
                let next = seen.insert(*voter);
                if hit {
                    assert(next.filter(chosen) =~= seen.filter(chosen).insert(*voter));
                } else {
                    assert(next.filter(chosen) =~= seen.filter(chosen));
                }
                seen.lemma_len_filter(chosen);
                seen = next;
            }
            if hit {
                n = n + 1;
            }
        }
        proof {
            assert(seen =~= ledger.dom());
        }
        n
    }
}

} // verus!
