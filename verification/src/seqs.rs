//! Small facts about sequence filtering and duplicate freedom that the
//! container proofs use throughout.

use vstd::prelude::*;

verus! {

/// Filtering distributes over `push`.
pub proof fn lemma_filter_push<A>(s: Seq<A>, x: A, pred: spec_fn(A) -> bool)
    ensures
        s.push(x).filter(pred) == (if pred(x) {
            s.filter(pred).push(x)
        } else {
            s.filter(pred)
        }),
{
    reveal(Seq::filter);
    assert(s.push(x).drop_last() =~= s);
    assert(s.push(x).last() == x);
}

/// Everything in a filtered sequence comes from the original and satisfies
/// the predicate.
pub proof fn lemma_filter_elem<A>(s: Seq<A>, pred: spec_fn(A) -> bool, x: A)
    requires
        s.filter(pred).contains(x),
    ensures
        s.contains(x),
        pred(x),
    decreases s.len(),
{
    reveal(Seq::filter);
    if s.len() > 0 {
        let t = s.drop_last();
        if t.filter(pred).contains(x) {
            lemma_filter_elem(t, pred, x);
            let i = choose|i: int| 0 <= i < t.len() && t[i] == x;
            assert(s[i] == x);
        } else {
            assert(x == s.last());
            assert(s.contains(x)) by {
                assert(s[s.len() - 1] == x);
            }
        }
    }
}

/// An element of the original that satisfies the predicate survives the
/// filter.
pub proof fn lemma_filter_keeps<A>(s: Seq<A>, pred: spec_fn(A) -> bool, x: A)
    requires
        s.contains(x),
        pred(x),
    ensures
        s.filter(pred).contains(x),
    decreases s.len(),
{
    reveal(Seq::filter);
    if s.len() > 0 {
        let t = s.drop_last();
        if s.last() == x {
            assert(s.filter(pred).last() == x);
            assert(s.filter(pred).contains(x)) by {
                let m = s.filter(pred);
                assert(m[m.len() - 1] == x);
            }
        } else {
            let i = choose|i: int| 0 <= i < s.len() && s[i] == x;
            assert(t[i] == x);
            lemma_filter_keeps(t, pred, x);
            let j = choose|j: int| 0 <= j < t.filter(pred).len() && t.filter(pred)[j] == x;
            if pred(s.last()) {
                assert(s.filter(pred)[j] == x);
            } else {
                assert(s.filter(pred)[j] == x);
            }
        }
    }
}

/// Membership in a filtered sequence, as one equivalence.
pub proof fn lemma_filter_contains_iff<A>(s: Seq<A>, pred: spec_fn(A) -> bool, x: A)
    ensures
        s.filter(pred).contains(x) <==> s.contains(x) && pred(x),
{
    if s.filter(pred).contains(x) {
        lemma_filter_elem(s, pred, x);
    }
    if s.contains(x) && pred(x) {
        lemma_filter_keeps(s, pred, x);
    }
}

/// Membership after a push.
pub proof fn lemma_push_contains_iff<A>(s: Seq<A>, x: A, y: A)
    ensures
        s.push(x).contains(y) <==> s.contains(y) || y == x,
{
    if s.contains(y) {
        let i = choose|i: int| 0 <= i < s.len() && s[i] == y;
        assert(s.push(x)[i] == y);
    }
    if y == x {
        assert(s.push(x)[s.len() as int] == y);
    }
    if s.push(x).contains(y) {
        let i = choose|i: int| 0 <= i < s.push(x).len() && s.push(x)[i] == y;
        if i < s.len() {
            assert(s[i] == y);
        }
    }
}

/// Appending a fresh element keeps a sequence duplicate-free.
pub proof fn lemma_no_dup_push<A>(s: Seq<A>, x: A)
    requires
        s.no_duplicates(),
        !s.contains(x),
    ensures
        s.push(x).no_duplicates(),
{
    let t = s.push(x);
    assert forall|i: int, j: int| 0 <= i < t.len() && 0 <= j < t.len() && i != j implies t[i]
        != t[j] by {
        if i < s.len() && j < s.len() {
        } else if i < s.len() {
            assert(s[i] == t[i]);
            assert(!s.contains(t[j]) ==> s[i] != t[j]);
        } else {
            assert(j < s.len());
            assert(s[j] == t[j]);
        }
    }
}

/// Filtering keeps a sequence duplicate-free.
pub proof fn lemma_filter_no_duplicates<A>(s: Seq<A>, pred: spec_fn(A) -> bool)
    requires
        s.no_duplicates(),
    ensures
        s.filter(pred).no_duplicates(),
    decreases s.len(),
{
    reveal(Seq::filter);
    if s.len() > 0 {
        let t = s.drop_last();
        assert(t.no_duplicates()) by {
            assert forall|i: int, j: int|
                0 <= i < t.len() && 0 <= j < t.len() && i != j implies t[i] != t[j] by {
                assert(s[i] == t[i] && s[j] == t[j]);
            }
        }
        lemma_filter_no_duplicates(t, pred);
        if pred(s.last()) {
            if t.filter(pred).contains(s.last()) {
                lemma_filter_elem(t, pred, s.last());
                let i = choose|i: int| 0 <= i < t.len() && t[i] == s.last();
                assert(s[i] == s[s.len() - 1]);
                assert(false);
            }
            lemma_no_dup_push(t.filter(pred), s.last());
        }
    }
}

/// Removing the first occurrence of an absent value changes nothing;
/// on a duplicate-free sequence it removes exactly that value.
pub proof fn lemma_no_dup_remove_value<A>(s: Seq<A>, x: A)
    requires
        s.no_duplicates(),
    ensures
        s.remove_value(x).no_duplicates(),
        forall|y: A| #[trigger] s.remove_value(x).contains(y) <==> s.contains(y) && y != x,
{
    s.index_of_first_ensures(x);
    match s.index_of_first(x) {
        Some(i) => {
            let t = s.remove(i);
            s.remove_ensures(i);
            assert forall|j1: int, j2: int|
                0 <= j1 < t.len() && 0 <= j2 < t.len() && j1 != j2 implies t[j1] != t[j2] by {
                let k1: int = if j1 < i {
                    j1
                } else {
                    j1 + 1
                };
                let k2: int = if j2 < i {
                    j2
                } else {
                    j2 + 1
                };
                assert(t[j1] == s[k1] && t[j2] == s[k2]);
            }
            assert forall|y: A| #[trigger] t.contains(y) implies s.contains(y) && y != x by {
                let j = choose|j: int| 0 <= j < t.len() && t[j] == y;
                let k: int = if j < i {
                    j
                } else {
                    j + 1
                };
                assert(s[k] == y);
                assert(k != i);
                assert(s[i] == x);
            }
            assert forall|y: A| s.contains(y) && y != x implies #[trigger] t.contains(y) by {
                let j = choose|j: int| 0 <= j < s.len() && s[j] == y;
                assert(j != i);
                if j < i {
                    assert(t[j] == y);
                } else {
                    assert(t[j - 1] == y);
                }
            }
        },
        None => {
            assert forall|y: A| #[trigger] s.contains(y) && y == x implies false by {}
        },
    }
}

/// A duplicate-free sequence of integers drawn from `[0, n)` has at most
/// `n` elements.
pub proof fn lemma_int_seq_len_bounded(s: Seq<int>, n: int)
    requires
        s.no_duplicates(),
        forall|i: int| 0 <= i < s.len() ==> 0 <= #[trigger] s[i] < n,
        0 <= n,
    ensures
        s.len() <= n,
{
    s.unique_seq_to_set();
    assert forall|x: int| s.to_set().contains(x) implies vstd::set_lib::set_int_range(
        0,
        n,
    ).contains(x) by {
        let i = choose|i: int| 0 <= i < s.len() && s[i] == x;
    }
    vstd::set_lib::lemma_int_range(0, n);
    vstd::set_lib::lemma_len_subset(s.to_set(), vstd::set_lib::set_int_range(0, n));
}

} // verus!
