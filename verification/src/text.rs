//! Raw option input: comma-separated tokens, trimmed of white space.

use vstd::prelude::*;
use vstd::std_specs::iter::IteratorSpec;

verus! {

/// The characters that trimming removes: those that Unicode classes as
/// `White_Space`.
pub open spec fn is_space(c: char) -> bool {
    let n: u32 = c as u32;
    ||| 0x09 <= n <= 0x0D
    ||| n == 0x20
    ||| n == 0x85
    ||| n == 0xA0
    ||| n == 0x1680
    ||| 0x2000 <= n <= 0x200A
    ||| n == 0x2028
    ||| n == 0x2029
    ||| n == 0x202F
    ||| n == 0x205F
    ||| n == 0x3000
}

/// `t` without its leading white space.
pub open spec fn trim_start(t: Seq<char>) -> Seq<char>
    decreases t.len(),
{
    if t.len() > 0 && is_space(t[0]) {
        trim_start(t.drop_first())
    } else {
        t
    }
}

/// `t` without its trailing white space.
pub open spec fn trim_end(t: Seq<char>) -> Seq<char>
    decreases t.len(),
{
    if t.len() > 0 && is_space(t.last()) {
        trim_end(t.drop_last())
    } else {
        t
    }
}

/// `t` without leading and trailing white space.
pub open spec fn trim(t: Seq<char>) -> Seq<char> {
    trim_end(trim_start(t))
}

/// The position of the first comma in `s`, or the length of `s` if it holds
/// none.
pub open spec fn first_comma(s: Seq<char>) -> int
    decreases s.len(),
{
    if s.len() == 0 || s[0] == ',' {
        0
    } else {
        1 + first_comma(s.drop_first())
    }
}

/// The pieces that the commas of `s` separate, in order. There is one more
/// piece than there are commas; a piece may be empty.
pub open spec fn tokens(s: Seq<char>) -> Seq<Seq<char>>
    decreases s.len(),
{
    let i: int = first_comma(s);
    if 0 <= i < s.len() {
        seq![s.take(i)] + tokens(s.skip(i + 1))
    } else {
        seq![s]
    }
}

/// The labels that `s` names: its tokens, each trimmed, without those that
/// trimming leaves empty. Order and repetitions are those of the input.
pub open spec fn labels(s: Seq<char>) -> Seq<Seq<char>> {
    tokens(s).map_values(|t: Seq<char>| trim(t)).filter(|l: Seq<char>| l.len() > 0)
}

/// The tokens of `s` that hold at least one character.
pub open spec fn named_tokens(s: Seq<char>) -> Seq<Seq<char>> {
    tokens(s).filter(|t: Seq<char>| t.len() > 0)
}

/// What one token adds to the labels: its trimmed text, or nothing.
pub open spec fn label_of(token: Seq<char>) -> Seq<Seq<char>> {
    if trim(token).len() > 0 {
        seq![trim(token)]
    } else {
        Seq::empty()
    }
}

/// `first_comma` is the one position with a comma and none before it.
pub proof fn lemma_first_comma(s: Seq<char>, k: int)
    requires
        0 <= k <= s.len(),
        forall|j: int| 0 <= j < k ==> s[j] != ',',
        k < s.len() ==> s[k] == ',',
    ensures
        first_comma(s) == k,
    decreases s.len(),
{
    if k > 0 {
        lemma_first_comma(s.drop_first(), k - 1);
    }
}

/// The labels of an input are those of its first token followed by those of
/// what stands behind the first comma.
pub proof fn lemma_labels_unfold(s: Seq<char>)
    ensures
        labels(s) == if first_comma(s) < s.len() {
            label_of(s.take(first_comma(s))) + labels(s.skip(first_comma(s) + 1))
        } else {
            label_of(s)
        },
{
    let i: int = first_comma(s);
    let f = |t: Seq<char>| trim(t);
    let p = |l: Seq<char>| l.len() > 0;
    lemma_first_comma_is_first(s);
    if i < s.len() {
        let head = seq![s.take(i)];
        let rest = tokens(s.skip(i + 1));
        assert(tokens(s) == head + rest);
        assert((head + rest).map_values(f) =~= head.map_values(f) + rest.map_values(f));
        Seq::filter_distributes_over_add(head.map_values(f), rest.map_values(f), p);
        lemma_single_label(s.take(i));
    } else {
        assert(tokens(s) == seq![s]);
        lemma_single_label(s);
    }
}

proof fn lemma_single_label(t: Seq<char>)
    ensures
        seq![t].map_values(|t: Seq<char>| trim(t)).filter(|l: Seq<char>| l.len() > 0)
            == label_of(t),
{
    let f = |t: Seq<char>| trim(t);
    let p = |l: Seq<char>| l.len() > 0;
    let one = seq![t].map_values(f);
    assert(one =~= Seq::<Seq<char>>::empty().push(trim(t)));
    reveal_with_fuel(Seq::filter, 2);
    assert(one.drop_last() =~= Seq::<Seq<char>>::empty());
    assert(one.filter(p) =~= label_of(t));
}

/// Trimming never adds a character.
pub proof fn lemma_trim_len(t: Seq<char>)
    ensures
        trim(t).len() <= t.len(),
{
    lemma_trim_start_len(t);
    lemma_trim_end_len(trim_start(t));
}

proof fn lemma_trim_start_len(t: Seq<char>)
    ensures
        trim_start(t).len() <= t.len(),
    decreases t.len(),
{
    if t.len() > 0 && is_space(t[0]) {
        lemma_trim_start_len(t.drop_first());
    }
}

proof fn lemma_trim_end_len(t: Seq<char>)
    ensures
        trim_end(t).len() <= t.len(),
    decreases t.len(),
{
    if t.len() > 0 && is_space(t.last()) {
        lemma_trim_end_len(t.drop_last());
    }
}

/// A label of `s` is the trimmed text of one of its tokens, and holds at
/// least one character; every such text is a label.
pub proof fn lemma_labels_members(s: Seq<char>, l: Seq<char>)
    ensures
        labels(s).contains(l) <==> l.len() > 0 && exists|t: Seq<char>|
            #[trigger] named_tokens(s).contains(t) && trim(t) == l,
{
    let f = |t: Seq<char>| trim(t);
    let p = |l: Seq<char>| l.len() > 0;
    let q = |t: Seq<char>| t.len() > 0;
    let trimmed = tokens(s).map_values(f);
    if labels(s).contains(l) {
        let j: int = choose|j: int| 0 <= j < labels(s).len() && labels(s)[j] == l;
        trimmed.lemma_filter_pred(p, j);
        trimmed.lemma_filter_contains_rev(p, l);
        let i: int = choose|i: int| 0 <= i < trimmed.len() && trimmed[i] == l;
        let t = tokens(s)[i];
        lemma_trim_len(t);
        tokens(s).lemma_filter_contains(q, i);
        assert(named_tokens(s).contains(t) && trim(t) == l);
    }
    if l.len() > 0 && exists|t: Seq<char>| #[trigger] named_tokens(s).contains(t) && trim(t) == l {
        let t = choose|t: Seq<char>| #[trigger] named_tokens(s).contains(t) && trim(t) == l;
        tokens(s).lemma_filter_contains_rev(q, t);
        let i: int = choose|i: int| 0 <= i < tokens(s).len() && tokens(s)[i] == t;
        assert(trimmed[i] == l);
        trimmed.lemma_filter_contains(p, i);
    }
}

proof fn lemma_first_comma_is_first(s: Seq<char>)
    ensures
        0 <= first_comma(s) <= s.len(),
        forall|j: int| 0 <= j < first_comma(s) ==> s[j] != ',',
        first_comma(s) < s.len() ==> s[first_comma(s)] == ',',
    decreases s.len(),
{
    if s.len() > 0 && s[0] != ',' {
        let rest = s.drop_first();
        lemma_first_comma_is_first(rest);
        assert forall|j: int| 0 <= j < first_comma(s) implies s[j] != ',' by {
            if j > 0 {
                assert(s[j] == rest[j - 1]);
            }
        }
        if first_comma(s) < s.len() {
            assert(s[first_comma(s)] == rest[first_comma(rest)]);
        }
    }
}

/// No token holds a comma.
pub proof fn lemma_tokens_hold_no_comma(s: Seq<char>, i: int)
    requires
        0 <= i < tokens(s).len(),
    ensures
        !tokens(s)[i].contains(','),
    decreases s.len(),
{
    let k: int = first_comma(s);
    lemma_first_comma_is_first(s);
    if k < s.len() {
        if i > 0 {
            lemma_tokens_hold_no_comma(s.skip(k + 1), i - 1);
        }
    }
}

proof fn lemma_trim_start_is_a_tail(t: Seq<char>)
    ensures
        exists|a: int| 0 <= a <= t.len() && trim_start(t) == #[trigger] t.skip(a),
        trim_start(t).len() > 0 ==> !is_space(trim_start(t)[0]),
    decreases t.len(),
{
    if t.len() > 0 && is_space(t[0]) {
        let rest = t.drop_first();
        lemma_trim_start_is_a_tail(rest);
        let a: int = choose|a: int|
            0 <= a <= rest.len() && trim_start(rest) == #[trigger] rest.skip(a);
        assert(rest.skip(a) =~= t.skip(a + 1));
    } else {
        assert(t =~= t.skip(0));
    }
}

proof fn lemma_trim_end_is_a_head(t: Seq<char>)
    ensures
        exists|b: int| 0 <= b <= t.len() && trim_end(t) == #[trigger] t.take(b),
        trim_end(t).len() > 0 ==> !is_space(trim_end(t).last()),
    decreases t.len(),
{
    if t.len() > 0 && is_space(t.last()) {
        let rest = t.drop_last();
        lemma_trim_end_is_a_head(rest);
        let b: int = choose|b: int|
            0 <= b <= rest.len() && trim_end(rest) == #[trigger] rest.take(b);
        assert(rest.take(b) =~= t.take(b));
    } else {
        assert(t =~= t.take(t.len() as int));
    }
}

/// What trimming leaves is a piece of the token, and has no white space at
/// either end.
pub proof fn lemma_trim_is_a_piece(t: Seq<char>)
    ensures
        exists|a: int, b: int| 0 <= a <= b <= t.len() && trim(t) == #[trigger] t.subrange(a, b),
        trim(t).len() > 0 ==> !is_space(trim(t).first()) && !is_space(trim(t).last()),
{
    lemma_trim_start_is_a_tail(t);
    let tail = trim_start(t);
    lemma_trim_end_is_a_head(tail);
    let a: int = choose|a: int| 0 <= a <= t.len() && trim_start(t) == #[trigger] t.skip(a);
    let b: int = choose|b: int| 0 <= b <= tail.len() && trim_end(tail) == #[trigger] tail.take(b);
    assert(tail.take(b) =~= t.subrange(a, a + b));
    if trim(t).len() > 0 {
        assert(trim(t).first() == tail[0]);
    }
}

/// What a label looks like: it holds at least one character, no comma, and
/// no white space at either end.
pub proof fn lemma_labels_are_clean(s: Seq<char>, l: Seq<char>)
    requires
        labels(s).contains(l),
    ensures
        l.len() > 0,
        !l.contains(','),
        !is_space(l.first()),
        !is_space(l.last()),
{
    lemma_labels_members(s, l);
    let t = choose|t: Seq<char>| #[trigger] named_tokens(s).contains(t) && trim(t) == l;
    tokens(s).lemma_filter_contains_rev(|t: Seq<char>| t.len() > 0, t);
    let i: int = choose|i: int| 0 <= i < tokens(s).len() && tokens(s)[i] == t;
    lemma_tokens_hold_no_comma(s, i);
    lemma_trim_is_a_piece(t);
    let (a, b) = choose|a: int, b: int|
        0 <= a <= b <= t.len() && trim(t) == #[trigger] t.subrange(a, b);
    if l.contains(',') {
        let j: int = choose|j: int| 0 <= j < l.len() && l[j] == ',';
        assert(t[a + j] == ',');
    }
}

/// Tells white space from other characters.
pub fn char_is_space(c: char) -> (r: bool)
    ensures
        r == is_space(c),
{
    let n: u32 = c as u32;
    (0x09 <= n && n <= 0x0D) || n == 0x20 || n == 0x85 || n == 0xA0 || n == 0x1680 || (0x2000 <= n
        && n <= 0x200A) || n == 0x2028 || n == 0x2029 || n == 0x202F || n == 0x205F || n == 0x3000
}

/// Whether two strings hold the same text, reading both once from the front.
pub fn same_text(a: &str, b: &str) -> (r: bool)
    ensures
        r == (a@ == b@),
{
    let mut xs = a.chars();
    let mut ys = b.chars();
    let ghost mut i: int = 0;
    loop
        invariant
            0 <= i <= a@.len(),
            i <= b@.len(),
            xs.remaining() == a@.skip(i),
            ys.remaining() == b@.skip(i),
            xs.obeys_prophetic_iter_laws(),
            ys.obeys_prophetic_iter_laws(),
            a@.take(i) == b@.take(i),
        decreases a@.len() - i,
    {
        let x = xs.next();
        let y = ys.next();
        match (x, y) {
            (None, None) => {
                proof {
                    assert(a@.take(i) == a@);
                    assert(b@.take(i) == b@);
                }
                return true;
            },
            (Some(p), Some(q)) => {
                if p != q {
                    return false;
                }
                proof {
                    assert(a@.skip(i).drop_first() == a@.skip(i + 1));
                    assert(b@.skip(i).drop_first() == b@.skip(i + 1));
                    assert(a@.take(i + 1) == a@.take(i).push(p));
                    assert(b@.take(i + 1) == b@.take(i).push(q));
                    i = i + 1;
                }
            },
            _ => {
                return false;
            },
        }
    }
}

/// The characters of `s`, one element each.
pub fn to_chars(s: &str) -> (v: Vec<char>)
    ensures
        v@ == s@,
{
    let mut v: Vec<char> = Vec::new();
    for c in it: s.chars()
        invariant
            it.seq() == s@,
            v@ == it.seq().take(it.index()),
    {
        v.push(c);
    }
    v
}

/// Trims the piece `chars[lo..hi]`: the result bounds the same piece without
/// its leading and trailing white space.
pub fn trim_range(chars: &Vec<char>, lo: usize, hi: usize) -> (r: (usize, usize))
    requires
        lo <= hi <= chars@.len(),
    ensures
        lo <= r.0 <= r.1 <= hi,
        chars@.subrange(r.0 as int, r.1 as int) == trim(chars@.subrange(lo as int, hi as int)),
{
    let mut a: usize = lo;
    while a < hi && char_is_space(chars[a])
        invariant
            lo <= a <= hi <= chars@.len(),
            trim_start(chars@.subrange(lo as int, hi as int)) == trim_start(
                chars@.subrange(a as int, hi as int),
            ),
        decreases hi - a,
    {
        assert(chars@.subrange(a as int, hi as int).drop_first() == chars@.subrange(
            a + 1,
            hi as int,
        ));
        a = a + 1;
    }
    let mut b: usize = hi;
    while a < b && char_is_space(chars[b - 1])
        invariant
            lo <= a <= b <= hi <= chars@.len(),
            trim(chars@.subrange(lo as int, hi as int)) == trim_end(
                chars@.subrange(a as int, b as int),
            ),
        decreases b - a,
    {
        assert(chars@.subrange(a as int, b as int).drop_last() == chars@.subrange(
            a as int,
            b - 1,
        ));
        b = b - 1;
    }
    (a, b)
}

} // verus!
