//! The order in which paths are listed: by their UTF-8 bytes, lexicographically.

use crate::text::lemma_encoding_is_injective;
use vstd::prelude::*;
use vstd::relations::{sorted_by, total_ordering};
use vstd::seq_lib::{lemma_sorted_unique, to_multiset_insert};
use vstd::string::StringSliceAdditionalSpecFns;
use vstd::utf8::encode_utf8;

verus! {

/// `a` comes no later than `b` in the lexicographic order of byte strings: at
/// the first position where they differ `a` holds the smaller byte, or `a` is
/// a prefix of `b`.
pub open spec fn bytes_le(a: Seq<u8>, b: Seq<u8>) -> bool
    decreases a.len(),
{
    if a.len() == 0 {
        true
    } else if b.len() == 0 {
        false
    } else if a[0] != b[0] {
        a[0] < b[0]
    } else {
        bytes_le(a.drop_first(), b.drop_first())
    }
}

/// `a` comes no later than `b` in the order of paths.
pub open spec fn path_le(a: Seq<char>, b: Seq<char>) -> bool {
    bytes_le(encode_utf8(a), encode_utf8(b))
}

/// The paths stand in non-decreasing order.
pub open spec fn sorted(paths: Seq<Seq<char>>) -> bool {
    forall|i: int, j: int| 0 <= i < j < paths.len() ==> path_le(#[trigger] paths[i], #[trigger] paths[j])
}

/// The order of paths as a relation.
pub open spec fn path_order() -> spec_fn(Seq<char>, Seq<char>) -> bool {
    |a: Seq<char>, b: Seq<char>| path_le(a, b)
}

/// Every byte string comes no later than itself.
pub proof fn lemma_bytes_le_reflexive(a: Seq<u8>)
    ensures
        bytes_le(a, a),
    decreases a.len(),
{
    if a.len() > 0 {
        lemma_bytes_le_reflexive(a.drop_first());
    }
}

/// Of two byte strings one comes no later than the other.
pub proof fn lemma_bytes_le_connected(a: Seq<u8>, b: Seq<u8>)
    ensures
        bytes_le(a, b) || bytes_le(b, a),
    decreases a.len(),
{
    if a.len() > 0 && b.len() > 0 && a[0] == b[0] {
        lemma_bytes_le_connected(a.drop_first(), b.drop_first());
    }
}

/// Two byte strings that come no later than each other are the same.
pub proof fn lemma_bytes_le_antisymmetric(a: Seq<u8>, b: Seq<u8>)
    requires
        bytes_le(a, b),
        bytes_le(b, a),
    ensures
        a == b,
    decreases a.len(),
{
    if a.len() == 0 || b.len() == 0 {
        assert(a =~= b);
    } else {
        lemma_bytes_le_antisymmetric(a.drop_first(), b.drop_first());
        assert(a =~= seq![a[0]] + a.drop_first());
        assert(b =~= seq![b[0]] + b.drop_first());
    }
}

/// The order of byte strings is transitive.
pub proof fn lemma_bytes_le_transitive(a: Seq<u8>, b: Seq<u8>, c: Seq<u8>)
    requires
        bytes_le(a, b),
        bytes_le(b, c),
    ensures
        bytes_le(a, c),
    decreases a.len(),
{
    if a.len() > 0 && b.len() > 0 && c.len() > 0 && a[0] == b[0] && b[0] == c[0] {
        lemma_bytes_le_transitive(a.drop_first(), b.drop_first(), c.drop_first());
    }
}

/// Byte strings that agree on their first `n` bytes compare as what follows
/// those bytes does.
pub proof fn lemma_bytes_le_after_common_prefix(a: Seq<u8>, b: Seq<u8>, n: int)
    requires
        0 <= n <= a.len(),
        n <= b.len(),
        forall|k: int| 0 <= k < n ==> a[k] == b[k],
    ensures
        bytes_le(a, b) == bytes_le(a.skip(n), b.skip(n)),
    decreases n,
{
    if n == 0 {
        assert(a.skip(0) =~= a);
        assert(b.skip(0) =~= b);
    } else {
        lemma_bytes_le_after_common_prefix(a.drop_first(), b.drop_first(), n - 1);
        assert(a.drop_first().skip(n - 1) =~= a.skip(n));
        assert(b.drop_first().skip(n - 1) =~= b.skip(n));
    }
}

/// The order of paths is a total order: reflexive, antisymmetric, transitive,
/// and any two paths are comparable.
pub proof fn lemma_path_order_is_total()
    ensures
        total_ordering(path_order()),
{
    let r = path_order();
    assert forall|x: Seq<char>| #[trigger] r(x, x) by {
        lemma_bytes_le_reflexive(encode_utf8(x));
    }
    assert forall|x: Seq<char>, y: Seq<char>| #[trigger] r(x, y) && #[trigger] r(y, x) implies x
        == y by {
        lemma_bytes_le_antisymmetric(encode_utf8(x), encode_utf8(y));
        lemma_encoding_is_injective(x, y);
    }
    assert forall|x: Seq<char>, y: Seq<char>, z: Seq<char>| #[trigger]
        r(x, y) && #[trigger] r(y, z) implies r(x, z) by {
        lemma_bytes_le_transitive(encode_utf8(x), encode_utf8(y), encode_utf8(z));
    }
    assert forall|x: Seq<char>, y: Seq<char>| #[trigger] r(x, y) || #[trigger] r(y, x) by {
        lemma_bytes_le_connected(encode_utf8(x), encode_utf8(y));
    }
}

/// Two sorted lists that hold the same paths, each as often as the other, are
/// the same list: the order leaves no freedom.
pub proof fn lemma_sorted_listing_is_unique(a: Seq<Seq<char>>, b: Seq<Seq<char>>)
    requires
        sorted(a),
        sorted(b),
        a.to_multiset() == b.to_multiset(),
    ensures
        a == b,
{
    lemma_path_order_is_total();
    assert(sorted_by(a, path_order()));
    assert(sorted_by(b, path_order()));
    lemma_sorted_unique(a, b, path_order());
}

/// Whether `a` comes no later than `b` in the order of paths.
pub fn path_le_exec(a: &str, b: &str) -> (le: bool)
    ensures
        le == path_le(a@, b@),
{
    let x = a.as_bytes();
    let y = b.as_bytes();
    let mut i: usize = 0;
    while i < x.len() && i < y.len()
        invariant
            i <= x.len(),
            i <= y.len(),
            x@ == encode_utf8(a@),
            y@ == encode_utf8(b@),
            forall|k: int| 0 <= k < i ==> x@[k] == y@[k],
        decreases x.len() - i,
    {
        if x[i] != y[i] {
            proof {
                lemma_bytes_le_after_common_prefix(x@, y@, i as int);
            }
            return x[i] < y[i];
        }
        i += 1;
    }
    proof {
        lemma_bytes_le_after_common_prefix(x@, y@, i as int);
    }
    i == x.len()
}

/// The place at which `item` goes into the sorted list `list`: behind every
/// path that comes no later than it, before every path that comes later.
fn insertion_point(list: &Vec<String>, item: &str) -> (at: usize)
    requires
        sorted(list.deep_view()),
    ensures
        at <= list.len(),
        forall|i: int| 0 <= i < at ==> path_le(#[trigger] list.deep_view()[i], item@),
        forall|i: int| at <= i < list.len() ==> !path_le(#[trigger] list.deep_view()[i], item@),
{
    let mut lo: usize = 0;
    let mut hi: usize = list.len();
    while lo < hi
        invariant
            lo <= hi <= list.len(),
            sorted(list.deep_view()),
            forall|i: int| 0 <= i < lo ==> path_le(#[trigger] list.deep_view()[i], item@),
            forall|i: int| hi <= i < list.len() ==> !path_le(#[trigger] list.deep_view()[i], item@),
        decreases hi - lo,
    {
        let mid: usize = lo + (hi - lo) / 2;
        let ghost pivot = list.deep_view()[mid as int];
        if path_le_exec(list[mid].as_str(), item) {
            assert forall|i: int| 0 <= i < mid + 1 implies path_le(
                #[trigger] list.deep_view()[i],
                item@,
            ) by {
                if i < mid {
                    assert(path_le(list.deep_view()[i], pivot));
                    lemma_bytes_le_transitive(
                        encode_utf8(list.deep_view()[i]),
                        encode_utf8(pivot),
                        encode_utf8(item@),
                    );
                }
            }
            lo = mid + 1;
        } else {
            assert forall|i: int| mid <= i < list.len() implies !path_le(
                #[trigger] list.deep_view()[i],
                item@,
            ) by {
                if mid < i && path_le(list.deep_view()[i], item@) {
                    assert(path_le(pivot, list.deep_view()[i]));
                    lemma_bytes_le_transitive(
                        encode_utf8(pivot),
                        encode_utf8(list.deep_view()[i]),
                        encode_utf8(item@),
                    );
                }
            }
            hi = mid;
        }
    }
    lo
}

/// Puts `item` into the sorted list at its place.
fn insert_sorted(list: &mut Vec<String>, item: String)
    requires
        sorted(old(list).deep_view()),
    ensures
        sorted(final(list).deep_view()),
        final(list).deep_view().to_multiset() == old(list).deep_view().to_multiset().insert(item@),
{
    let at = insertion_point(list, item.as_str());
    let ghost before = list.deep_view();
    let ghost text = item@;
    list.insert(at, item);
    proof {
        let after = list.deep_view();
        assert(after =~= before.insert(at as int, text));
        to_multiset_insert(before, at as int, text);
        assert forall|i: int, j: int| 0 <= i < j < after.len() implies path_le(
            #[trigger] after[i],
            #[trigger] after[j],
        ) by {
            if j < at {
                assert(path_le(before[i], before[j]));
            } else if j == at {
                assert(path_le(before[i], text));
            } else if i < at {
                assert(path_le(before[i], before[j - 1]));
            } else if i == at {
                assert(!path_le(before[j - 1], text));
                lemma_bytes_le_connected(encode_utf8(before[j - 1]), encode_utf8(text));
            } else {
                assert(path_le(before[i - 1], before[j - 1]));
            }
        }
    }
}

/// Sorts paths by their bytes. The result holds the paths of `paths`, each as
/// often as `paths` does, in non-decreasing order.
pub fn sort_paths(paths: Vec<String>) -> (listing: Vec<String>)
    ensures
        sorted(listing.deep_view()),
        listing.deep_view().to_multiset() == paths.deep_view().to_multiset(),
{
    let ghost all = paths.deep_view();
    let mut rest = paths;
    let mut listing: Vec<String> = Vec::new();
    assert(listing.deep_view() =~= Seq::<Seq<char>>::empty());
    assert(listing.deep_view().to_multiset().add(rest.deep_view().to_multiset())
        =~= all.to_multiset()) by {
        broadcast use vstd::seq_lib::group_to_multiset_ensures;
    }
    while rest.len() > 0
        invariant
            sorted(listing.deep_view()),
            listing.deep_view().to_multiset().add(rest.deep_view().to_multiset())
                == all.to_multiset(),
        decreases rest.len(),
    {
        let ghost before = rest.deep_view();
        let ghost done = listing.deep_view();
        let item = rest.pop().unwrap();
        proof {
            assert(rest.deep_view() =~= before.drop_last());
            assert(before =~= rest.deep_view().push(item@));
            vstd::seq_lib::to_multiset_build(rest.deep_view(), item@);
        }
        insert_sorted(&mut listing, item);
        assert(listing.deep_view().to_multiset().add(rest.deep_view().to_multiset())
            =~= done.to_multiset().add(before.to_multiset()));
    }
    proof {
        assert(rest.deep_view() =~= Seq::<Seq<char>>::empty());
        broadcast use vstd::seq_lib::group_to_multiset_ensures;
        assert(listing.deep_view().to_multiset() =~= all.to_multiset());
    }
    listing
}

} // verus!
