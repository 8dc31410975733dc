//! From raw option input to a poll's option list.

use crate::error::PollError;
use crate::order::{
    ascending, label_lt, lemma_ascending_unique, lemma_lex_lt_total, lemma_lex_lt_transitive,
    lex_lt,
};
use crate::text::{
    label_of, labels, lemma_first_comma, lemma_labels_members, lemma_labels_unfold, named_tokens,
    to_chars, trim, trim_range,
};
use vstd::prelude::*;
use vstd::seq_lib::seq_to_set_distributes_over_add;

verus! {

/// The text of each string of a list.
pub open spec fn texts(v: Seq<String>) -> Seq<Seq<char>> {
    v.map_values(|s: String| s@)
}

/// `options` is the option list that the raw input `raw` asks for: the labels
/// of `raw`, each once, in dictionary order.
pub open spec fn is_options_of(options: Seq<Seq<char>>, raw: Seq<char>) -> bool {
    &&& ascending(options)
    &&& options.to_set() == labels(raw).to_set()
}

/// The option list depends on nothing but which labels the input names: two
/// inputs that name the same labels, in whatever order and however often,
/// have the same option list.
pub proof fn lemma_options_depend_on_label_set(
    raw1: Seq<char>,
    raw2: Seq<char>,
    options1: Seq<Seq<char>>,
    options2: Seq<Seq<char>>,
)
    requires
        is_options_of(options1, raw1),
        is_options_of(options2, raw2),
        labels(raw1).to_set() == labels(raw2).to_set(),
    ensures
        options1 == options2,
{
    lemma_ascending_unique(options1, options2);
}

/// Two inputs whose non-empty tokens are the same as a multiset, that is up
/// to their order and to empty tokens between them, name the same labels;
/// so either both name none, or both name some.
pub proof fn lemma_same_tokens_name_same_labels(raw1: Seq<char>, raw2: Seq<char>)
    requires
        named_tokens(raw1).to_multiset() == named_tokens(raw2).to_multiset(),
    ensures
        labels(raw1).to_set() == labels(raw2).to_set(),
        labels(raw1).len() == 0 <==> labels(raw2).len() == 0,
{
    let named1 = named_tokens(raw1);
    let named2 = named_tokens(raw2);
    assert forall|t: Seq<char>| named1.contains(t) == named2.contains(t) by {
        named1.to_multiset_ensures();
        named2.to_multiset_ensures();
        assert(named1.contains(t) <==> named1.to_multiset().count(t) > 0);
        assert(named2.contains(t) <==> named2.to_multiset().count(t) > 0);
    }
    assert forall|l: Seq<char>| labels(raw1).contains(l) == labels(raw2).contains(l) by {
        lemma_labels_members(raw1, l);
        lemma_labels_members(raw2, l);
        if labels(raw1).contains(l) {
            let t = choose|t: Seq<char>| #[trigger] named_tokens(raw1).contains(t) && trim(t) == l;
            assert(named_tokens(raw2).contains(t));
        }
        if labels(raw2).contains(l) {
            let t = choose|t: Seq<char>| #[trigger] named_tokens(raw2).contains(t) && trim(t) == l;
            assert(named_tokens(raw1).contains(t));
        }
    }
    assert(labels(raw1).to_set() =~= labels(raw2).to_set());
    if labels(raw1).len() > 0 {
        assert(labels(raw1).contains(labels(raw1)[0]));
    }
    if labels(raw2).len() > 0 {
        assert(labels(raw2).contains(labels(raw2)[0]));
    }
}

/// Parsing depends on the non-empty tokens alone, not on their order, on
/// repetitions or on empty tokens between them: two inputs with the same
/// multiset of non-empty tokens have the same option list.
pub proof fn lemma_options_ignore_order_and_empty_tokens(
    raw1: Seq<char>,
    raw2: Seq<char>,
    options1: Seq<Seq<char>>,
    options2: Seq<Seq<char>>,
)
    requires
        is_options_of(options1, raw1),
        is_options_of(options2, raw2),
        named_tokens(raw1).to_multiset() == named_tokens(raw2).to_multiset(),
    ensures
        options1 == options2,
{
    lemma_same_tokens_name_same_labels(raw1, raw2);
    lemma_options_depend_on_label_set(raw1, raw2, options1, options2);
}

/// Puts `label` into an ascending list at its place, unless the list holds it
/// already.
pub fn insert_label(list: &mut Vec<String>, label: String)
    requires
        ascending(texts(old(list)@)),
    ensures
        ascending(texts(final(list)@)),
        texts(final(list)@).to_set() == texts(old(list)@).to_set().insert(label@),
{
    let ghost before = texts(list@);
    let mut p: usize = 0;
    while p < list.len() && label_lt(list[p].as_str(), label.as_str())
        invariant
            0 <= p <= list@.len(),
            list@ == old(list)@,
            before == texts(list@),
            forall|j: int| 0 <= j < p ==> lex_lt(#[trigger] before[j], label@),
        decreases list@.len() - p,
    {
        p = p + 1;
    }
    if p < list.len() && !label_lt(label.as_str(), list[p].as_str()) {
        proof {
            lemma_lex_lt_total(before[p as int], label@);
            assert(before.to_set().contains(before[p as int]));
            assert(before.to_set().insert(label@) =~= before.to_set());
        }
    } else {
        list.insert(p, label);
        proof {
            let after = texts(list@);
            assert(after =~= before.insert(p as int, label@));
            assert forall|i: int, j: int| 0 <= i < j < after.len() implies lex_lt(
                #[trigger] after[i],
                #[trigger] after[j],
            ) by {
                if j < p {
                    assert(after[i] == before[i] && after[j] == before[j]);
                } else if j == p {
                    assert(after[i] == before[i]);
                } else if i == p {
                    assert(after[j] == before[j - 1]);
                    if j - 1 > p {
                        assert(lex_lt(before[p as int], before[j - 1]));
                        lemma_lex_lt_transitive(label@, before[p as int], before[j - 1]);
                    }
                } else if i < p {
                    assert(after[i] == before[i] && after[j] == before[j - 1]);
                } else {
                    assert(after[i] == before[i - 1] && after[j] == before[j - 1]);
                }
            }
            assert(after.to_set() =~= before.to_set().insert(label@)) by {
                assert forall|l: Seq<char>| after.to_set().contains(l) implies before.to_set().insert(
                    label@,
                ).contains(l) by {
                    let k: int = choose|k: int| 0 <= k < after.len() && after[k] == l;
                    if k < p {
                        assert(before[k] == l);
                    } else if k > p {
                        assert(before[k - 1] == l);
                    }
                }
                assert forall|l: Seq<char>| before.to_set().insert(label@).contains(
                    l,
                ) implies after.to_set().contains(l) by {
                    if l == label@ {
                        assert(after[p as int] == l);
                    } else {
                        let k: int = choose|k: int| 0 <= k < before.len() && before[k] == l;
                        if k < p {
                            assert(after[k] == l);
                        } else {
                            assert(after[k + 1] == l);
                        }
                    }
                }
            }
        }
    }
}

/// Adds the label of the token `raw[lo..hi]` to an ascending list, if the
/// token has one.
fn add_token(list: &mut Vec<String>, raw: &str, chars: &Vec<char>, lo: usize, hi: usize)
    requires
        chars@ == raw@,
        lo <= hi <= chars@.len(),
        ascending(texts(old(list)@)),
    ensures
        ascending(texts(final(list)@)),
        texts(final(list)@).to_set() == texts(old(list)@).to_set().union(
            label_of(raw@.subrange(lo as int, hi as int)).to_set(),
        ),
{
    let ghost token = raw@.subrange(lo as int, hi as int);
    let (a, b) = trim_range(chars, lo, hi);
    if a < b {
        let piece = raw.substring_char(a, b);
        insert_label(list, piece.to_owned());
        proof {
            assert(trim(token) == chars@.subrange(a as int, b as int));
            assert(trim(token).len() == b - a);
            assert(label_of(token) == seq![trim(token)]);
            assert(label_of(token)[0] == trim(token));
            assert(label_of(token).to_set() =~= Set::<Seq<char>>::empty().insert(trim(token)));
            assert(texts(old(list)@).to_set().insert(trim(token)) =~= texts(
                old(list)@,
            ).to_set().union(label_of(token).to_set()));
        }
    } else {
        proof {
            assert(trim(token).len() == b - a);
            assert(label_of(token) == Seq::<Seq<char>>::empty());
            assert(label_of(token).to_set() =~= Set::<Seq<char>>::empty());
            assert(texts(old(list)@).to_set() =~= texts(old(list)@).to_set().union(
                label_of(token).to_set(),
            ));
        }
    }
}

/// Reads a poll's options from raw input: a comma-separated list whose
/// entries are trimmed of white space, the empty ones dropped. The result
/// holds each label once, in dictionary order. Input that names no label is
/// refused with `NoOptions`.
pub fn parse_options(raw: &str) -> (r: Result<Vec<String>, PollError>)
    ensures
        match r {
            Ok(options) => {
                &&& labels(raw@).len() > 0
                &&& options@.len() > 0
                &&& is_options_of(texts(options@), raw@)
            },
            Err(e) => e == PollError::NoOptions && labels(raw@).len() == 0,
        },
{
    let chars = to_chars(raw);
    let n: usize = chars.len();
    let mut list: Vec<String> = Vec::new();
    let mut start: usize = 0;
    let mut i: usize = 0;
    proof {
        assert(raw@.skip(0) == raw@);
        assert(texts(list@).to_set() =~= Set::<Seq<char>>::empty());
        assert(labels(raw@).to_set() =~= texts(list@).to_set().union(labels(raw@).to_set()));
    }
    while i < n
        invariant
            chars@ == raw@,
            n == chars@.len(),
            0 <= start <= i <= n,
            forall|j: int| start <= j < i ==> chars@[j] != ',',
            ascending(texts(list@)),
            labels(raw@).to_set() == texts(list@).to_set().union(
                labels(raw@.skip(start as int)).to_set(),
            ),
        decreases n - i,
    {
        if chars[i] == ',' {
            let ghost done = texts(list@).to_set();
            add_token(&mut list, raw, &chars, start, i);
            proof {
                let rest = raw@.skip(start as int);
                let k: int = i - start;
                lemma_first_comma(rest, k);
                lemma_labels_unfold(rest);
                assert(rest.take(k) == raw@.subrange(start as int, i as int));
                assert(rest.skip(k + 1) == raw@.skip(i + 1));
                let here = label_of(raw@.subrange(start as int, i as int));
                let behind = labels(raw@.skip(i + 1));
                seq_to_set_distributes_over_add(here, behind);
                assert(done.union(here.to_set().union(behind.to_set())) =~= done.union(
                    here.to_set(),
                ).union(behind.to_set()));
            }
            start = i + 1;
        }
        i = i + 1;
    }
    let ghost done = texts(list@).to_set();
    add_token(&mut list, raw, &chars, start, n);
    proof {
        let rest = raw@.skip(start as int);
        lemma_first_comma(rest, n - start);
        lemma_labels_unfold(rest);
        assert(rest == raw@.subrange(start as int, n as int));
        assert(labels(raw@).to_set() == texts(list@).to_set());
        if list@.len() > 0 {
            assert(texts(list@).to_set().contains(texts(list@)[0]));
            assert(labels(raw@).contains(texts(list@)[0]));
        }
        if labels(raw@).len() > 0 {
            assert(labels(raw@).to_set().contains(labels(raw@)[0]));
            assert(texts(list@).contains(labels(raw@)[0]));
        }
    }
    if list.is_empty() {
        Err(PollError::NoOptions)
    } else {
        Ok(list)
    }
}

} // verus!
