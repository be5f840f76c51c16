//! A stable insertion sort over row vectors, shared by the queries that
//! order projects and chat threads by recency, chat messages
//! chronologically, and task steps by their stored position. The sort's
//! mathematical form is the fold of a stable sorted insertion, so every
//! query's contract names the resulting sequence exactly.

use vstd::prelude::*;

use crate::model::{ChatMessage, ChatThread};
use crate::rows::{ProjectRow, StepRow};

verus! {

/// A row type with an integer sort key. Rows are ordered by ascending
/// key; a descending order uses the negated column as its key.
pub trait SortKey: DeepView + Sized {
    /// The key of a row's view.
    spec fn key(v: Self::V) -> int;

    /// Compares two rows by their keys.
    fn le(&self, other: &Self) -> (r: bool)
        ensures
            r == (Self::key(self.deep_view()) <= Self::key(other.deep_view())),
    ;

    /// Copies a row without changing what it holds.
    fn dup(&self) -> (r: Self)
        ensures
            r.deep_view() == self.deep_view(),
    ;
}

impl SortKey for StepRow {
    /// Steps are ordered by their stored position, and positions that
    /// tie by their update time: the lexicographic pair packed into one
    /// integer, the update time shifted to be non-negative.
    open spec fn key(v: <StepRow as DeepView>::V) -> int {
        v.sort_order * 0x1_0000_0000_0000_0000 + (v.updated_at + 0x8000_0000_0000_0000)
    }

    fn le(&self, other: &Self) -> (r: bool) {
        proof {
            lemma_step_key_orders_pairs(self.deep_view(), other.deep_view());
        }
        self.sort_order < other.sort_order || (self.sort_order == other.sort_order
            && self.updated_at <= other.updated_at)
    }

    fn dup(&self) -> (r: Self) {
        self.clone()
    }
}

/// The packed step key compares exactly as the lexicographic pair of
/// stored position and update time.
pub proof fn lemma_step_key_orders_pairs(a: crate::rows::StepRowV, b: crate::rows::StepRowV)
    ensures
        (<StepRow as SortKey>::key(a) <= <StepRow as SortKey>::key(b)) <==> (a.sort_order
            < b.sort_order || (a.sort_order == b.sort_order && a.updated_at <= b.updated_at)),
{
    let shift_a = a.updated_at + 0x8000_0000_0000_0000;
    let shift_b = b.updated_at + 0x8000_0000_0000_0000;
    assert(0 <= shift_a < 0x1_0000_0000_0000_0000);
    assert(0 <= shift_b < 0x1_0000_0000_0000_0000);
    if a.sort_order < b.sort_order {
        assert((b.sort_order - a.sort_order) * 0x1_0000_0000_0000_0000
            >= 0x1_0000_0000_0000_0000);
    } else if b.sort_order < a.sort_order {
        assert((a.sort_order - b.sort_order) * 0x1_0000_0000_0000_0000
            >= 0x1_0000_0000_0000_0000);
    }
}

impl SortKey for ProjectRow {
    /// Projects are listed most recently updated first.
    open spec fn key(v: <ProjectRow as DeepView>::V) -> int {
        -(v.updated_at as int)
    }

    fn le(&self, other: &Self) -> (r: bool) {
        other.updated_at <= self.updated_at
    }

    fn dup(&self) -> (r: Self) {
        self.clone()
    }
}

impl SortKey for ChatThread {
    /// Threads are listed most recently updated first.
    open spec fn key(v: <ChatThread as DeepView>::V) -> int {
        -(v.updated_at as int)
    }

    fn le(&self, other: &Self) -> (r: bool) {
        other.updated_at <= self.updated_at
    }

    fn dup(&self) -> (r: Self) {
        self.clone()
    }
}

impl SortKey for ChatMessage {
    /// Messages replay in chronological order.
    open spec fn key(v: <ChatMessage as DeepView>::V) -> int {
        v.created_at as int
    }

    fn le(&self, other: &Self) -> (r: bool) {
        self.created_at <= other.created_at
    }

    fn dup(&self) -> (r: Self) {
        self.clone()
    }
}

/// Inserts `x` into `s` behind every element whose key is at most the key
/// of `x`: the insertion point that keeps a sort built from it stable.
pub open spec fn insert_sorted<T: SortKey>(x: T::V, s: Seq<T::V>) -> Seq<T::V>
    decreases s.len(),
{
    if s.len() == 0 {
        seq![x]
    } else if T::key(s[0]) <= T::key(x) {
        seq![s[0]] + insert_sorted::<T>(x, s.skip(1))
    } else {
        seq![x] + s
    }
}

/// The stable sort of `s` by ascending key.
pub open spec fn sort_by_key<T: SortKey>(s: Seq<T::V>) -> Seq<T::V>
    decreases s.len(),
{
    if s.len() == 0 {
        Seq::<T::V>::empty()
    } else {
        insert_sorted::<T>(s.last(), sort_by_key::<T>(s.drop_last()))
    }
}

/// Whether `s` is ordered by ascending key.
pub open spec fn sorted_by_key<T: SortKey>(s: Seq<T::V>) -> bool {
    forall|i: int, j: int| 0 <= i < j < s.len() ==> T::key(s[i]) <= T::key(s[j])
}

/// Sorted insertion grows the length by one.
pub proof fn lemma_insert_sorted_len<T: SortKey>(x: T::V, s: Seq<T::V>)
    ensures
        insert_sorted::<T>(x, s).len() == s.len() + 1,
    decreases s.len(),
{
    if s.len() > 0 && T::key(s[0]) <= T::key(x) {
        lemma_insert_sorted_len::<T>(x, s.skip(1));
    }
}

/// Sorted insertion adds exactly the inserted element.
pub proof fn lemma_insert_sorted_contains<T: SortKey>(x: T::V, s: Seq<T::V>, y: T::V)
    ensures
        insert_sorted::<T>(x, s).contains(y) <==> (y == x || s.contains(y)),
    decreases s.len(),
{
    if s.len() == 0 {
        let out = insert_sorted::<T>(x, s);
        if out.contains(y) {
            assert(out[0] == x);
        }
        if y == x {
            assert(out[0] == y);
        }
    } else if !(T::key(s[0]) <= T::key(x)) {
        let out = insert_sorted::<T>(x, s);
        assert(out == seq![x] + s);
        if out.contains(y) {
            let i = choose|i: int| 0 <= i < out.len() && out[i] == y;
            if i > 0 {
                assert(s[i - 1] == y);
            }
        }
        if y == x {
            assert(out[0] == y);
        }
        if s.contains(y) {
            let j = choose|j: int| 0 <= j < s.len() && s[j] == y;
            assert(out[j + 1] == y);
        }
    } else {
        lemma_insert_sorted_contains::<T>(x, s.skip(1), y);
        let out = insert_sorted::<T>(x, s);
        assert(out == seq![s[0]] + insert_sorted::<T>(x, s.skip(1)));
        if out.contains(y) {
            let i = choose|i: int| 0 <= i < out.len() && out[i] == y;
            if i == 0 {
                assert(s.contains(y)) by { assert(s[0] == y) }
            } else {
                assert(insert_sorted::<T>(x, s.skip(1)).contains(y)) by {
                    assert(insert_sorted::<T>(x, s.skip(1))[i - 1] == y);
                }
                if s.skip(1).contains(y) {
                    let j = choose|j: int| 0 <= j < s.skip(1).len() && s.skip(1)[j] == y;
                    assert(s[j + 1] == y);
                }
            }
        }
        if y == x || s.contains(y) {
            if s.contains(y) {
                let j = choose|j: int| 0 <= j < s.len() && s[j] == y;
                if j == 0 {
                    assert(out[0] == y);
                } else {
                    assert(s.skip(1)[j - 1] == y);
                    let inner = insert_sorted::<T>(x, s.skip(1));
                    let k = choose|k: int| 0 <= k < inner.len() && inner[k] == y;
                    assert(out[k + 1] == y);
                }
            } else {
                let inner = insert_sorted::<T>(x, s.skip(1));
                let k = choose|k: int| 0 <= k < inner.len() && inner[k] == y;
                assert(out[k + 1] == y);
            }
        }
    }
}

/// Sorted insertion into a sorted sequence stays sorted.
pub proof fn lemma_insert_sorted_sorted<T: SortKey>(x: T::V, s: Seq<T::V>)
    requires
        sorted_by_key::<T>(s),
    ensures
        sorted_by_key::<T>(insert_sorted::<T>(x, s)),
    decreases s.len(),
{
    if s.len() > 0 && T::key(s[0]) <= T::key(x) {
        assert(sorted_by_key::<T>(s.skip(1))) by {
            assert(forall|i: int, j: int|
                0 <= i < j < s.skip(1).len() ==> s.skip(1)[i] == s[i + 1] && s.skip(1)[j] == s[j
                    + 1]);
        }
        lemma_insert_sorted_sorted::<T>(x, s.skip(1));
        let inner = insert_sorted::<T>(x, s.skip(1));
        let out = insert_sorted::<T>(x, s);
        assert(out == seq![s[0]] + inner);
        assert forall|i: int, j: int| 0 <= i < j < out.len() implies T::key(out[i]) <= T::key(
            out[j],
        ) by {
            if i == 0 {
                lemma_insert_sorted_contains::<T>(x, s.skip(1), out[j]);
                assert(inner[j - 1] == out[j]);
                assert(inner.contains(out[j]));
                if out[j] == x {
                } else {
                    let k = choose|k: int| 0 <= k < s.skip(1).len() && s.skip(1)[k] == out[j];
                    assert(s[k + 1] == out[j]);
                }
            } else {
                assert(inner[i - 1] == out[i] && inner[j - 1] == out[j]);
            }
        }
    }
}

/// The sort keeps the length.
pub proof fn lemma_sort_len<T: SortKey>(s: Seq<T::V>)
    ensures
        sort_by_key::<T>(s).len() == s.len(),
    decreases s.len(),
{
    if s.len() > 0 {
        lemma_sort_len::<T>(s.drop_last());
        lemma_insert_sorted_len::<T>(s.last(), sort_by_key::<T>(s.drop_last()));
    }
}

/// The sort keeps exactly the elements of its input.
pub proof fn lemma_sort_contains<T: SortKey>(s: Seq<T::V>, y: T::V)
    ensures
        sort_by_key::<T>(s).contains(y) <==> s.contains(y),
    decreases s.len(),
{
    if s.len() > 0 {
        lemma_sort_contains::<T>(s.drop_last(), y);
        lemma_insert_sorted_contains::<T>(s.last(), sort_by_key::<T>(s.drop_last()), y);
        if s.contains(y) && !(y == s.last()) {
            let i = choose|i: int| 0 <= i < s.len() && s[i] == y;
            assert(s.drop_last()[i] == y);
        }
        if s.drop_last().contains(y) {
            let i = choose|i: int| 0 <= i < s.drop_last().len() && s.drop_last()[i] == y;
            assert(s[i] == y);
        }
        if y == s.last() {
            assert(s.contains(y)) by { assert(s[s.len() - 1] == y) }
        }
    }
}

/// The sort orders by ascending key.
pub proof fn lemma_sort_sorted<T: SortKey>(s: Seq<T::V>)
    ensures
        sorted_by_key::<T>(sort_by_key::<T>(s)),
    decreases s.len(),
{
    if s.len() > 0 {
        lemma_sort_sorted::<T>(s.drop_last());
        lemma_insert_sorted_sorted::<T>(s.last(), sort_by_key::<T>(s.drop_last()));
    }
}

/// Inserting an element whose key is at least every key of `s` appends it.
pub proof fn lemma_insert_sorted_at_end<T: SortKey>(x: T::V, s: Seq<T::V>)
    requires
        forall|i: int| 0 <= i < s.len() ==> T::key(#[trigger] s[i]) <= T::key(x),
    ensures
        insert_sorted::<T>(x, s) == s.push(x),
    decreases s.len(),
{
    if s.len() == 0 {
        assert(insert_sorted::<T>(x, s) =~= s.push(x));
    } else {
        assert(forall|i: int|
            0 <= i < s.skip(1).len() ==> T::key(#[trigger] s.skip(1)[i]) <= T::key(x)) by {
            assert(forall|i: int| 0 <= i < s.skip(1).len() ==> s.skip(1)[i] == #[trigger] s[i + 1]);
        }
        lemma_insert_sorted_at_end::<T>(x, s.skip(1));
        assert(insert_sorted::<T>(x, s) =~= s.push(x));
    }
}

/// Sorting an already sorted sequence returns it unchanged. In
/// particular, freshly saved step rows, whose stored positions count up
/// from zero, reload in exactly the order they were saved in.
pub proof fn lemma_sort_of_sorted<T: SortKey>(s: Seq<T::V>)
    requires
        sorted_by_key::<T>(s),
    ensures
        sort_by_key::<T>(s) == s,
    decreases s.len(),
{
    if s.len() > 0 {
        assert(sorted_by_key::<T>(s.drop_last()));
        lemma_sort_of_sorted::<T>(s.drop_last());
        lemma_insert_sorted_at_end::<T>(s.last(), s.drop_last());
        assert(s.drop_last().push(s.last()) =~= s);
    }
}

/// Inserts `x` into the sorted vector `out`, keeping it sorted and
/// matching the sorted-insertion specification.
fn insert_row<T: SortKey>(out: &mut Vec<T>, x: T)
    ensures
        final(out).deep_view() == insert_sorted::<T>(x.deep_view(), old(out).deep_view()),
{
    let ghost s = old(out).deep_view();
    let ghost xv = x.deep_view();
    proof {
        assert(s.skip(0) =~= s);
        assert(s.take(0) + insert_sorted::<T>(xv, s.skip(0)) =~= insert_sorted::<T>(xv, s));
    }
    let mut j: usize = 0;
    while j < out.len() && out[j].le(&x)
        invariant
            j <= out.len(),
            out == old(out),
            s == out.deep_view(),
            s.len() == out.len(),
            xv == x.deep_view(),
            forall|k: int| 0 <= k < j ==> T::key(#[trigger] s[k]) <= T::key(xv),
            insert_sorted::<T>(xv, s) == s.take(j as int) + insert_sorted::<T>(xv, s.skip(j as int)),
        decreases out.len() - j,
    {
        proof {
            assert(s[j as int] == out@[j as int].deep_view());
            let tail = s.skip(j as int);
            assert(tail[0] == s[j as int]);
            assert(tail.skip(1) =~= s.skip(j as int + 1));
            assert(insert_sorted::<T>(xv, tail) == seq![tail[0]] + insert_sorted::<T>(
                xv,
                tail.skip(1),
            ));
            assert(s.take(j as int) + insert_sorted::<T>(xv, s.skip(j as int)) =~= s.take(
                j as int + 1,
            ) + insert_sorted::<T>(xv, s.skip(j as int + 1)));
        }
        j += 1;
    }
    proof {
        let tail = s.skip(j as int);
        if j == out.len() {
            assert(tail =~= Seq::<T::V>::empty());
            assert(insert_sorted::<T>(xv, s) =~= s.push(xv));
        } else {
            assert(s[j as int] == out@[j as int].deep_view());
            assert(tail[0] == s[j as int]);
            assert(T::key(tail[0]) > T::key(xv));
            assert(insert_sorted::<T>(xv, tail) == seq![xv] + tail);
            assert(insert_sorted::<T>(xv, s) =~= s.take(j as int).push(xv) + s.skip(j as int));
        }
    }
    out.insert(j, x);
    proof {
        assert(final(out).deep_view() =~= insert_sorted::<T>(xv, s));
    }
}

/// Returns the rows of `v` in ascending key order; ties keep their
/// relative order.
pub fn sort_rows<T: SortKey>(v: &Vec<T>) -> (r: Vec<T>)
    ensures
        r.deep_view() == sort_by_key::<T>(v.deep_view()),
{
    let mut out: Vec<T> = Vec::new();
    let mut i: usize = 0;
    while i < v.len()
        invariant
            i <= v.len(),
            out.deep_view() == sort_by_key::<T>(v.deep_view().take(i as int)),
        decreases v.len() - i,
    {
        let ghost prefix = v.deep_view().take(i as int);
        let x = v[i].dup();
        proof {
            assert(v.deep_view().take(i as int + 1).drop_last() =~= prefix);
            assert(v.deep_view().take(i as int + 1).last() == v.deep_view()[i as int]);
        }
        insert_row(&mut out, x);
        i += 1;
    }
    proof {
        assert(v.deep_view().take(v.len() as int) =~= v.deep_view());
    }
    out
}

} // verus!
