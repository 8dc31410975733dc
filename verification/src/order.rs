//! Dictionary order on labels, and lists kept in strictly ascending order.

use vstd::prelude::*;
use vstd::std_specs::iter::IteratorSpec;

verus! {

/// `a` comes before `b` when the two are compared from position `i` on,
/// given that they agree on every position before `i`.
pub open spec fn lex_lt_from(a: Seq<char>, b: Seq<char>, i: int) -> bool
    decreases a.len() - i,
{
    if i < 0 || i >= b.len() {
        false
    } else if i >= a.len() {
        true
    } else if a[i] != b[i] {
        a[i] < b[i]
    } else {
        lex_lt_from(a, b, i + 1)
    }
}

/// Dictionary order by scalar value: at the first position where `a` and `b`
/// differ the smaller character decides, and a proper prefix comes first.
pub open spec fn lex_lt(a: Seq<char>, b: Seq<char>) -> bool {
    lex_lt_from(a, b, 0)
}

/// Every label comes strictly before each label behind it. Such a list holds
/// no label twice.
pub open spec fn ascending(s: Seq<Seq<char>>) -> bool {
    forall|i: int, j: int| 0 <= i < j < s.len() ==> lex_lt(#[trigger] s[i], #[trigger] s[j])
}

proof fn lemma_from_irreflexive(a: Seq<char>, i: int)
    ensures
        !lex_lt_from(a, a, i),
    decreases a.len() - i,
{
    if 0 <= i < a.len() {
        lemma_from_irreflexive(a, i + 1);
    }
}

proof fn lemma_from_transitive(a: Seq<char>, b: Seq<char>, c: Seq<char>, i: int)
    requires
        lex_lt_from(a, b, i),
        lex_lt_from(b, c, i),
    ensures
        lex_lt_from(a, c, i),
    decreases a.len() - i,
{
    if i < a.len() && a[i] == b[i] && b[i] == c[i] {
        lemma_from_transitive(a, b, c, i + 1);
    }
}

proof fn lemma_from_total(a: Seq<char>, b: Seq<char>, i: int)
    requires
        0 <= i <= a.len(),
        i <= b.len(),
        a.take(i) == b.take(i),
    ensures
        a == b || lex_lt_from(a, b, i) || lex_lt_from(b, a, i),
    decreases a.len() - i,
{
    if i == a.len() || i == b.len() {
        if a.len() == b.len() {
            assert(a.take(i) == a);
            assert(b.take(i) == b);
        }
    } else if a[i] == b[i] {
        assert(a.take(i + 1) == a.take(i).push(a[i]));
        assert(b.take(i + 1) == b.take(i).push(b[i]));
        lemma_from_total(a, b, i + 1);
    }
}

/// No label comes before itself.
pub proof fn lemma_lex_lt_irreflexive(a: Seq<char>)
    ensures
        !lex_lt(a, a),
{
    lemma_from_irreflexive(a, 0);
}

/// The order is transitive.
pub proof fn lemma_lex_lt_transitive(a: Seq<char>, b: Seq<char>, c: Seq<char>)
    requires
        lex_lt(a, b),
        lex_lt(b, c),
    ensures
        lex_lt(a, c),
{
    lemma_from_transitive(a, b, c, 0);
}

/// Two different labels are ordered one way or the other.
pub proof fn lemma_lex_lt_total(a: Seq<char>, b: Seq<char>)
    ensures
        a == b || lex_lt(a, b) || lex_lt(b, a),
{
    assert(a.take(0) == b.take(0));
    lemma_from_total(a, b, 0);
}

/// The order never holds both ways.
pub proof fn lemma_lex_lt_asymmetric(a: Seq<char>, b: Seq<char>)
    requires
        lex_lt(a, b),
    ensures
        !lex_lt(b, a),
{
    if lex_lt(b, a) {
        lemma_lex_lt_transitive(a, b, a);
        lemma_lex_lt_irreflexive(a);
    }
}

/// An ascending list holds each of its labels once.
pub proof fn lemma_ascending_no_duplicates(s: Seq<Seq<char>>)
    requires
        ascending(s),
    ensures
        s.no_duplicates(),
{
    assert forall|i: int, j: int| 0 <= i < s.len() && 0 <= j < s.len() && i != j implies s[i]
        != s[j] by {
        if i < j {
            lemma_lex_lt_irreflexive(s[i]);
        } else {
            lemma_lex_lt_irreflexive(s[j]);
        }
    }
}

/// A set of labels has at most one ascending listing: two ascending lists
/// with the same members are the same list.
pub proof fn lemma_ascending_unique(x: Seq<Seq<char>>, y: Seq<Seq<char>>)
    requires
        ascending(x),
        ascending(y),
        x.to_set() == y.to_set(),
    ensures
        x == y,
    decreases x.len(),
{
    if x.len() == 0 {
        if y.len() > 0 {
            assert(y.to_set().contains(y[0]));
            assert(x.to_set().contains(y[0]));
        }
        assert(x =~= y);
    } else {
        assert(x.to_set().contains(x[0]));
        assert(y.to_set().contains(x[0]));
        assert(y.len() > 0);
        assert(y.to_set().contains(y[0]));
        assert(x.to_set().contains(y[0]));
        // Both heads are the least member, so they are the same label.
        let i: int = choose|i: int| 0 <= i < x.len() && x[i] == y[0];
        let j: int = choose|j: int| 0 <= j < y.len() && y[j] == x[0];
        if i > 0 && j > 0 {
            lemma_lex_lt_asymmetric(x[0], x[i]);
        }
        if i > 0 && j == 0 {
            lemma_lex_lt_irreflexive(x[0]);
        }
        if i == 0 && j > 0 {
            lemma_lex_lt_irreflexive(y[0]);
        }
        assert(x[0] == y[0]);
        let xt = x.drop_first();
        let yt = y.drop_first();
        assert(ascending(xt)) by {
            assert forall|p: int, q: int| 0 <= p < q < xt.len() implies lex_lt(
                #[trigger] xt[p],
                #[trigger] xt[q],
            ) by {
                assert(xt[p] == x[p + 1] && xt[q] == x[q + 1]);
            }
        }
        assert(ascending(yt)) by {
            assert forall|p: int, q: int| 0 <= p < q < yt.len() implies lex_lt(
                #[trigger] yt[p],
                #[trigger] yt[q],
            ) by {
                assert(yt[p] == y[p + 1] && yt[q] == y[q + 1]);
            }
        }
        assert(xt.to_set() =~= yt.to_set()) by {
            assert forall|l: Seq<char>| xt.to_set().contains(l) implies yt.to_set().contains(
                l,
            ) by {
                let p: int = choose|p: int| 0 <= p < xt.len() && xt[p] == l;
                assert(x[p + 1] == l);
                assert(lex_lt(x[0], x[p + 1]));
                assert(x.to_set().contains(l));
                assert(y.to_set().contains(l));
                let q: int = choose|q: int| 0 <= q < y.len() && y[q] == l;
                if q == 0 {
                    lemma_lex_lt_irreflexive(l);
                }
                assert(yt[q - 1] == l);
            }
            assert forall|l: Seq<char>| yt.to_set().contains(l) implies xt.to_set().contains(
                l,
            ) by {
                let p: int = choose|p: int| 0 <= p < yt.len() && yt[p] == l;
                assert(y[p + 1] == l);
                assert(lex_lt(y[0], y[p + 1]));
                assert(y.to_set().contains(l));
                assert(x.to_set().contains(l));
                let q: int = choose|q: int| 0 <= q < x.len() && x[q] == l;
                if q == 0 {
                    lemma_lex_lt_irreflexive(l);
                }
                assert(xt[q - 1] == l);
            }
        }
        lemma_ascending_unique(xt, yt);
        assert(x =~= seq![x[0]] + xt);
        assert(y =~= seq![y[0]] + yt);
    }
}

/// Compares two labels in dictionary order, reading both once from the front.
pub fn label_lt(a: &str, b: &str) -> (r: bool)
    ensures
        r == lex_lt(a@, b@),
{
    let mut xs = a.chars();
    let mut ys = b.chars();
    let ghost mut i: int = 0;
    loop
        invariant
            0 <= i <= a@.len(),
            i <= b@.len(),
            xs.remaining() == a@.skip(i),
            ys.remaining() == b@.skip(i),
            xs.obeys_prophetic_iter_laws(),
            ys.obeys_prophetic_iter_laws(),
            lex_lt(a@, b@) == lex_lt_from(a@, b@, i),
        decreases a@.len() - i,
    {
        let y = ys.next();
        let x = xs.next();
        match (x, y) {
            (_, None) => {
                return false;
            },
            (None, Some(_)) => {
                return true;
            },
            (Some(p), Some(q)) => {
                if p != q {
                    return p < q;
                }
                proof {
                    assert(a@.skip(i).drop_first() == a@.skip(i + 1));
                    assert(b@.skip(i).drop_first() == b@.skip(i + 1));
                    i = i + 1;
                }
            },
        }
    }
}

} // verus!
