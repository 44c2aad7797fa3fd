//! Keeping some items of a sequence and reading one value off each kept item.
//!
//! Both the list of files and the list of skipped files are made this way;
//! the lemmas here say how such a list follows the sequence it is made of.

use vstd::prelude::*;
use vstd::seq_lib::{to_multiset_build, to_multiset_remove};

verus! {

/// The values `f` reads off the items of `s` that `keep` accepts, in the
/// order of `s`.
pub open spec fn kept<A, B>(s: Seq<A>, keep: spec_fn(A) -> bool, f: spec_fn(A) -> B) -> Seq<B> {
    s.filter(keep).map_values(f)
}

/// Nothing is kept of the empty sequence.
pub proof fn lemma_kept_empty<A, B>(keep: spec_fn(A) -> bool, f: spec_fn(A) -> B)
    ensures
        kept(Seq::<A>::empty(), keep, f) == Seq::<B>::empty(),
{
    reveal(Seq::filter);
    assert(kept(Seq::<A>::empty(), keep, f) =~= Seq::<B>::empty());
}

/// One item more at the end adds its value at the end if it is kept, and
/// nothing otherwise.
pub proof fn lemma_kept_push<A, B>(s: Seq<A>, x: A, keep: spec_fn(A) -> bool, f: spec_fn(A) -> B)
    ensures
        kept(s.push(x), keep, f) == if keep(x) {
            kept(s, keep, f).push(f(x))
        } else {
            kept(s, keep, f)
        },
{
    s.lemma_filter_push(x, keep);
    if keep(x) {
        s.filter(keep).lemma_push_map_commute(f, x);
    }
}

/// Every kept value was read off an item that `keep` accepts.
pub proof fn lemma_kept_has_source<A, B>(
    s: Seq<A>,
    keep: spec_fn(A) -> bool,
    f: spec_fn(A) -> B,
    y: B,
) -> (j: int)
    requires
        kept(s, keep, f).contains(y),
    ensures
        0 <= j < s.len(),
        keep(s[j]),
        f(s[j]) == y,
{
    let items = s.filter(keep);
    let values = items.map_values(f);
    let i = choose|i: int| 0 <= i < values.len() && values[i] == y;
    s.lemma_filter_pred(keep, i);
    assert(items.contains(items[i]));
    s.lemma_filter_contains_rev(keep, items[i]);
    choose|j: int| 0 <= j < s.len() && s[j] == items[i]
}

/// Taking one item out of the sequence takes its value out of the kept
/// values once if the item was kept, and changes nothing otherwise.
pub proof fn lemma_kept_remove<A, B>(
    s: Seq<A>,
    keep: spec_fn(A) -> bool,
    f: spec_fn(A) -> B,
    k: int,
)
    requires
        0 <= k < s.len(),
    ensures
        kept(s, keep, f).to_multiset() == if keep(s[k]) {
            kept(s.remove(k), keep, f).to_multiset().insert(f(s[k]))
        } else {
            kept(s.remove(k), keep, f).to_multiset()
        },
    decreases s.len(),
{
    let init = s.drop_last();
    let last = s.last();
    assert(s =~= init.push(last));
    lemma_kept_push(init, last, keep, f);
    if k == s.len() - 1 {
        assert(s.remove(k) =~= init);
        if keep(last) {
            to_multiset_build(kept(init, keep, f), f(last));
        }
    } else {
        lemma_kept_remove(init, keep, f, k);
        let fewer = init.remove(k);
        assert(s.remove(k) =~= fewer.push(last));
        lemma_kept_push(fewer, last, keep, f);
        if keep(last) {
            to_multiset_build(kept(init, keep, f), f(last));
            to_multiset_build(kept(fewer, keep, f), f(last));
        }
        assert(kept(s, keep, f).to_multiset() =~= if keep(s[k]) {
            kept(s.remove(k), keep, f).to_multiset().insert(f(s[k]))
        } else {
            kept(s.remove(k), keep, f).to_multiset()
        });
    }
}

/// Sequences that hold the same items, each as often as the other, keep the
/// same values, each as often: the order of the items does not matter.
pub proof fn lemma_kept_of_rearranged<A, B>(
    a: Seq<A>,
    b: Seq<A>,
    keep: spec_fn(A) -> bool,
    f: spec_fn(A) -> B,
)
    requires
        a.to_multiset() == b.to_multiset(),
    ensures
        kept(a, keep, f).to_multiset() == kept(b, keep, f).to_multiset(),
    decreases a.len(),
{
    broadcast use vstd::seq_lib::group_to_multiset_ensures;

    if a.len() == 0 {
        assert(a.to_multiset().len() == 0);
        assert(b.to_multiset().len() == b.len());
        assert(a =~= b);
    } else {
        let x = a.last();
        let init = a.drop_last();
        assert(a =~= init.push(x));
        assert(a.to_multiset().count(x) > 0);
        assert(b.contains(x));
        let j = choose|j: int| 0 <= j < b.len() && b[j] == x;
        assert(init =~= a.remove(a.len() - 1));
        to_multiset_remove(a, a.len() - 1);
        to_multiset_remove(b, j);
        lemma_kept_of_rearranged(init, b.remove(j), keep, f);
        lemma_kept_push(init, x, keep, f);
        lemma_kept_remove(b, keep, f, j);
        if keep(x) {
            to_multiset_build(kept(init, keep, f), f(x));
        }
    }
}

} // verus!
