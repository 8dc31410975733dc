//! What a poll shows: its text and the count of votes for each option.

use crate::decimal::{decimal, push_decimal};
use crate::options::texts;
use crate::order::lemma_ascending_no_duplicates;
use crate::record::{PollRecord, RecordView};
use vstd::prelude::*;
use vstd::set_lib::lemma_set_disjoint_lens;
use vstd::string::StringExecFns;

verus! {

/// One option with its count, as plain mathematics.
pub struct EntryView {
    pub option: Seq<char>,
    pub votes: nat,
}

impl EntryView {
    /// What the option's button reads: the option, a colon, a space and the
    /// count in decimal.
    pub open spec fn label(self) -> Seq<char> {
        self.option + seq![':', ' '] + decimal(self.votes)
    }
}

/// One option of a poll and the number of voters who chose it.
#[derive(Clone, Debug, PartialEq, Eq)]
pub struct TallyEntry {
    pub option: String,
    pub votes: usize,
}

impl View for TallyEntry {
    type V = EntryView;

    open spec fn view(&self) -> EntryView {
        EntryView { option: self.option@, votes: self.votes as nat }
    }
}

impl TallyEntry {
    /// The text of the option's button.
    pub fn label(&self) -> (text: String)
        ensures
            text@ == self@.label(),
    {
        let mut text = self.option.clone();
        proof {
            reveal_strlit(": ");
            assert(": "@ =~= seq![':', ' ']);
        }
        text.append(": ");
        push_decimal(&mut text, self.votes);
        text
    }
}

/// A rendered poll, as plain mathematics.
pub struct TallyView {
    pub content: Seq<char>,
    pub entries: Seq<EntryView>,
}

/// A rendered poll: the message text, and one entry per option in display
/// order.
#[derive(Clone, Debug, PartialEq, Eq)]
pub struct Tally {
    pub content: String,
    pub entries: Vec<TallyEntry>,
}

impl View for Tally {
    type V = TallyView;

    open spec fn view(&self) -> TallyView {
        TallyView {
            content: self.content@,
            entries: self.entries@.map_values(|e: TallyEntry| e@),
        }
    }
}

/// The parts with a comma between each two neighbours.
pub open spec fn joined(parts: Seq<Seq<char>>) -> Seq<char>
    decreases parts.len(),
{
    if parts.len() == 0 {
        Seq::empty()
    } else if parts.len() == 1 {
        parts[0]
    } else {
        joined(parts.drop_last()) + seq![','] + parts.last()
    }
}

/// The line that every poll's message begins with.
pub open spec fn heading() -> Seq<char> {
    seq!['V', 'o', 't', 'e', ':', '\n']
}

/// The message text of a poll with the given options: the heading line, then
/// the options with commas between them.
pub open spec fn content_of(options: Seq<Seq<char>>) -> Seq<char> {
    heading() + joined(options)
}

/// One entry per option, in the options' order, each with the number of
/// voters whose ledger entry is that option. An option that nobody chose has
/// an entry with count zero.
pub open spec fn entries_of(record: RecordView) -> Seq<EntryView> {
    Seq::new(
        record.options.len(),
        |i: int|
            EntryView { option: record.options[i], votes: record.votes_for(record.options[i]) },
    )
}

/// What a record shows.
pub open spec fn tally_of(record: RecordView) -> TallyView {
    TallyView { content: content_of(record.options), entries: entries_of(record) }
}

/// The sum of the counts of all entries.
pub open spec fn total_votes(entries: Seq<EntryView>) -> nat
    decreases entries.len(),
{
    if entries.len() == 0 {
        0
    } else {
        total_votes(entries.drop_last()) + entries.last().votes
    }
}

/// The voters whose ledger entry is one of the first `k` options.
pub open spec fn voters_among(record: RecordView, k: int) -> Set<u64> {
    record.votes.dom().filter(
        |voter: u64| exists|i: int| 0 <= i < k && record.options[i] == record.votes[voter],
    )
}

proof fn lemma_total_of_prefix(record: RecordView, k: int)
    requires
        record.valid(),
        0 <= k <= record.options.len(),
    ensures
        total_votes(entries_of(record).take(k)) == voters_among(record, k).len(),
        voters_among(record, k).finite(),
    decreases k,
{
    let entries = entries_of(record);
    if k == 0 {
        assert(voters_among(record, 0) =~= Set::<u64>::empty());
    } else {
        lemma_total_of_prefix(record, k - 1);
        let option = record.options[k - 1];
        let before = voters_among(record, k - 1);
        let here = record.voters_for(option);
        assert(entries.take(k).drop_last() == entries.take(k - 1));
        assert(entries.take(k).last().votes == here.len());
        lemma_ascending_no_duplicates(record.options);
        assert(before.disjoint(here));
        assert(voters_among(record, k) =~= before + here);
        lemma_set_disjoint_lens(before, here);
    }
}

/// Every voter is counted once: the counts of a record's tally add up to the
/// number of voters in its ledger.
pub proof fn lemma_tally_counts_each_voter_once(record: RecordView)
    requires
        record.valid(),
    ensures
        total_votes(tally_of(record).entries) == record.votes.dom().len(),
{
    let n: int = record.options.len() as int;
    lemma_total_of_prefix(record, n);
    assert(entries_of(record).take(n) == entries_of(record));
    assert(voters_among(record, n) =~= record.votes.dom()) by {
        assert forall|voter: u64| record.votes.dom().contains(voter) implies voters_among(
            record,
            n,
        ).contains(voter) by {
            assert(record.votes.contains_key(voter));
            assert(record.options.contains(record.votes[voter]));
        }
    }
}

/// What a poll shows depends on nothing but the record: rendering the same
/// record twice gives the same text and the same counts.
pub proof fn lemma_render_is_deterministic(record: RecordView, first: TallyView, second: TallyView)
    requires
        first == tally_of(record),
        second == tally_of(record),
    ensures
        first == second,
        first.content == second.content,
        first.entries == second.entries,
{
}

/// Renders a poll: the message text and, for each option in display order,
/// the number of voters whose latest choice it is.
pub fn render(record: &PollRecord) -> (tally: Tally)
    ensures
        tally@ == tally_of(record@),
        record@.valid() ==> total_votes(tally@.entries) == record@.votes.dom().len(),
{
    let options = record.options();
    let ghost labels = texts(options@);
    proof {
        reveal_strlit("Vote:\n");
        reveal_strlit(",");
        assert("Vote:\n"@ =~= heading());
        assert(","@ =~= seq![',']);
        assert(labels.take(0) =~= Seq::<Seq<char>>::empty());
    }
    let mut content = String::from_str("Vote:\n");
    let mut entries: Vec<TallyEntry> = Vec::new();
    let mut i: usize = 0;
    while i < options.len()
        invariant
            0 <= i <= options@.len(),
            labels == texts(options@),
            labels == record@.options,
            ","@ == seq![','],
            content@ == heading() + joined(labels.take(i as int)),
            entries@.map_values(|e: TallyEntry| e@) == entries_of(record@).take(i as int),
        decreases options@.len() - i,
    {
        let option = &options[i];
        if i > 0 {
            content.append(",");
        }
        content.append(option.as_str());
        let votes: usize = record.votes_for(option.as_str());
        let ghost shown = entries@.map_values(|e: TallyEntry| e@);
        let entry = TallyEntry { option: option.clone(), votes };
        proof {
            assert(option@ == labels[i as int]);
            assert(entry@ == entries_of(record@)[i as int]);
        }
        entries.push(entry);
        proof {
            assert(entries@.map_values(|e: TallyEntry| e@) =~= shown.push(
                entries_of(record@)[i as int],
            ));
            assert(labels.take(i + 1).drop_last() == labels.take(i as int));
            assert(labels.take(i + 1).last() == option@);
            assert(content@ =~= heading() + joined(labels.take(i + 1)));
            assert(entries@.map_values(|e: TallyEntry| e@) =~= entries_of(record@).take(i + 1));
        }
        i = i + 1;
    }
    let tally = Tally { content, entries };
    proof {
        assert(labels.take(i as int) == labels);
        assert(entries_of(record@).take(i as int) == entries_of(record@));
        if record@.valid() {
            lemma_tally_counts_each_voter_once(record@);
        }
    }
    tally
}

} // verus!
