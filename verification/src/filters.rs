//! General facts about filtering sequences, used throughout the store's
//! proofs: how a filter grows element by element, that it yields a
//! subset, and how distinctness of a key survives filtering and
//! concatenation.

use vstd::prelude::*;

verus! {

/// Filtering after appending one element appends it exactly when it
/// matches.
pub proof fn lemma_filter_push<A>(s: Seq<A>, pred: spec_fn(A) -> bool, x: A)
    ensures
        s.push(x).filter(pred) == if pred(x) {
            s.filter(pred).push(x)
        } else {
            s.filter(pred)
        },
{
    reveal(Seq::filter);
    assert(s.push(x).drop_last() =~= s);
    assert(s.push(x).last() == x);
}

/// Every element of a filtered sequence is an element of the original.
pub proof fn lemma_filter_subset<A>(s: Seq<A>, pred: spec_fn(A) -> bool)
    ensures
        forall|y: A| #[trigger] s.filter(pred).contains(y) ==> s.contains(y) && pred(y),
    decreases s.len(),
{
    reveal(Seq::filter);
    if s.len() > 0 {
        lemma_filter_subset(s.drop_last(), pred);
        assert forall|y: A| #[trigger] s.filter(pred).contains(y) implies s.contains(y) && pred(
            y,
        ) by {
            if s.drop_last().filter(pred).contains(y) {
                assert(s.drop_last().contains(y));
                let i = choose|i: int| 0 <= i < s.drop_last().len() && s.drop_last()[i] == y;
                assert(s[i] == y);
            } else {
                assert(y == s.last());
                assert(s[s.len() - 1] == y);
            }
        }
    }
}

/// A filter of an all-matching sequence returns it unchanged.
pub proof fn lemma_filter_all<A>(s: Seq<A>, pred: spec_fn(A) -> bool)
    requires
        forall|i: int| 0 <= i < s.len() ==> pred(#[trigger] s[i]),
    ensures
        s.filter(pred) == s,
    decreases s.len(),
{
    reveal(Seq::filter);
    if s.len() > 0 {
        assert(forall|i: int| 0 <= i < s.drop_last().len() ==> pred(#[trigger] s.drop_last()[i]))
            by {
            assert(forall|i: int|
                0 <= i < s.drop_last().len() ==> s.drop_last()[i] == #[trigger] s[i]);
        }
        lemma_filter_all(s.drop_last(), pred);
        assert(pred(s.last())) by {
            assert(s.last() == s[s.len() - 1]);
        }
        assert(s.drop_last().push(s.last()) =~= s);
    }
}

/// A filter of a sequence with no matching element is empty.
pub proof fn lemma_filter_none<A>(s: Seq<A>, pred: spec_fn(A) -> bool)
    requires
        forall|i: int| 0 <= i < s.len() ==> !pred(#[trigger] s[i]),
    ensures
        s.filter(pred) == Seq::<A>::empty(),
    decreases s.len(),
{
    reveal(Seq::filter);
    if s.len() > 0 {
        assert(forall|i: int| 0 <= i < s.drop_last().len() ==> !pred(#[trigger] s.drop_last()[i]))
            by {
            assert(forall|i: int|
                0 <= i < s.drop_last().len() ==> s.drop_last()[i] == #[trigger] s[i]);
        }
        lemma_filter_none(s.drop_last(), pred);
        assert(!pred(s.last())) by {
            assert(s.last() == s[s.len() - 1]);
        }
    }
}

/// Whether the values of `key` are pairwise distinct over `s`.
pub open spec fn distinct_keys<A>(s: Seq<A>, key: spec_fn(A) -> Seq<char>) -> bool {
    forall|i: int, j: int| 0 <= i < j < s.len() ==> key(#[trigger] s[i]) != key(#[trigger] s[j])
}

/// Distinct keys survive filtering.
pub proof fn lemma_filter_distinct<A>(s: Seq<A>, pred: spec_fn(A) -> bool, key: spec_fn(A) -> Seq<char>)
    requires
        distinct_keys(s, key),
    ensures
        distinct_keys(s.filter(pred), key),
        forall|y: A| #[trigger] s.filter(pred).contains(y) ==> s.contains(y),
    decreases s.len(),
{
    reveal(Seq::filter);
    lemma_filter_subset(s, pred);
    if s.len() > 0 {
        assert(distinct_keys(s.drop_last(), key)) by {
            assert(forall|i: int|
                0 <= i < s.drop_last().len() ==> s.drop_last()[i] == #[trigger] s[i]);
        }
        lemma_filter_distinct(s.drop_last(), pred, key);
        let f = s.filter(pred);
        let fd = s.drop_last().filter(pred);
        if pred(s.last()) {
            assert(f == fd.push(s.last()));
            assert forall|i: int, j: int| 0 <= i < j < f.len() implies key(#[trigger] f[i]) != key(
                #[trigger] f[j],
            ) by {
                if j == f.len() - 1 {
                    assert(f[j] == s.last());
                    assert(fd.contains(f[i])) by {
                        assert(fd[i] == f[i]);
                    }
                    assert(s.drop_last().contains(f[i]));
                    let k = choose|k: int|
                        0 <= k < s.drop_last().len() && s.drop_last()[k] == f[i];
                    assert(s[k] == f[i]);
                    assert(key(s[k]) != key(s[s.len() - 1]));
                } else {
                    assert(f[i] == fd[i] && f[j] == fd[j]);
                }
            }
        }
    }
}

/// Distinct keys of two sequences with no key in common stay distinct
/// when the sequences are concatenated.
pub proof fn lemma_concat_distinct<A>(a: Seq<A>, b: Seq<A>, key: spec_fn(A) -> Seq<char>)
    requires
        distinct_keys(a, key),
        distinct_keys(b, key),
        forall|i: int, j: int|
            0 <= i < a.len() && 0 <= j < b.len() ==> key(#[trigger] a[i]) != key(#[trigger] b[j]),
    ensures
        distinct_keys(a + b, key),
{
    assert forall|i: int, j: int| 0 <= i < j < (a + b).len() implies key(#[trigger] (a + b)[i])
        != key(#[trigger] (a + b)[j]) by {
        if i < a.len() && j < a.len() {
            assert((a + b)[i] == a[i] && (a + b)[j] == a[j]);
        } else if i < a.len() {
            assert((a + b)[i] == a[i] && (a + b)[j] == b[j - a.len()]);
        } else {
            assert((a + b)[i] == b[i - a.len()] && (a + b)[j] == b[j - a.len()]);
        }
    }
}

} // verus!
