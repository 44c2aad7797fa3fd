//! The tree walker's bookkeeping: from the entries found under a root to the
//! sorted list of the files that go into the document.

use crate::classify::{excluded, hidden, ignored_file, in_ignored_dir, names_output, should_ignore};
use crate::order::{lemma_sorted_listing_is_unique, sort_paths, sorted};
use crate::select::{
    kept, lemma_kept_empty, lemma_kept_has_source, lemma_kept_of_rearranged, lemma_kept_push,
};
use vstd::prelude::*;

verus! {

/// One entry met while walking a tree.
#[derive(Clone, Debug)]
pub struct Entry {
    /// The path of the entry, the root's own path leading.
    pub path: String,
    /// The canonical form of `path`, where the file system gave one.
    pub canonical: Option<String>,
    /// Whether the entry is a regular file.
    pub is_file: bool,
}

/// An entry as contracts see it.
pub struct EntryView {
    pub path: Seq<char>,
    pub canonical: Option<Seq<char>>,
    pub is_file: bool,
}

impl View for Entry {
    type V = EntryView;

    open spec fn view(&self) -> EntryView {
        EntryView {
            path: self.path@,
            canonical: self.canonical.deep_view(),
            is_file: self.is_file,
        }
    }
}

impl DeepView for Entry {
    type V = EntryView;

    open spec fn deep_view(&self) -> EntryView {
        self@
    }
}

/// The entry goes into the document: it is a regular file and not left out.
pub open spec fn selected(entry: EntryView, root: Seq<char>, output: Seq<char>) -> bool {
    entry.is_file && !excluded(entry.path, entry.canonical, root, output)
}

/// The paths of the selected entries, in the order of the walk.
pub open spec fn selected_paths(entries: Seq<EntryView>, root: Seq<char>, output: Seq<char>) -> Seq<
    Seq<char>,
> {
    kept(entries, |e: EntryView| selected(e, root, output), |e: EntryView| e.path)
}

/// `path` is the path of an entry that is selected.
pub open spec fn has_selected_entry(
    path: Seq<char>,
    entries: Seq<EntryView>,
    root: Seq<char>,
    output: Seq<char>,
) -> bool {
    exists|j: int|
        0 <= j < entries.len() && (#[trigger] entries[j]).path == path && selected(
            entries[j],
            root,
            output,
        )
}

/// `listing` is the list of files for `entries`: the paths of the selected
/// entries, each as often as it was met, in non-decreasing order.
pub open spec fn is_listing_of(
    listing: Seq<Seq<char>>,
    entries: Seq<EntryView>,
    root: Seq<char>,
    output: Seq<char>,
) -> bool {
    sorted(listing) && listing.to_multiset() == selected_paths(entries, root, output).to_multiset()
}

/// Every listed path is the path of an entry that is selected. So no listed
/// path is hidden, lies in an ignored directory or bears an ignored file name.
pub proof fn lemma_listed_path_has_entry(
    listing: Seq<Seq<char>>,
    entries: Seq<EntryView>,
    root: Seq<char>,
    output: Seq<char>,
    path: Seq<char>,
)
    requires
        is_listing_of(listing, entries, root, output),
        listing.contains(path),
    ensures
        has_selected_entry(path, entries, root, output),
        !hidden(path, root),
        !in_ignored_dir(path, root),
        !ignored_file(path),
{
    broadcast use vstd::seq_lib::group_to_multiset_ensures;

    assert(listing.to_multiset().count(path) > 0);
    assert(selected_paths(entries, root, output).contains(path));
    let j = lemma_kept_has_source(
        entries,
        |e: EntryView| selected(e, root, output),
        |e: EntryView| e.path,
        path,
    );
    assert(entries[j].path == path && selected(entries[j], root, output));
}

/// A path is never listed when every entry met at it is the output document.
/// So the document is never read into itself, wherever under the root it lies.
pub proof fn lemma_output_never_listed(
    listing: Seq<Seq<char>>,
    entries: Seq<EntryView>,
    root: Seq<char>,
    output: Seq<char>,
    path: Seq<char>,
)
    requires
        is_listing_of(listing, entries, root, output),
        forall|j: int|
            0 <= j < entries.len() && (#[trigger] entries[j]).path == path ==> names_output(
                entries[j].canonical,
                output,
            ),
    ensures
        !listing.contains(path),
{
    if listing.contains(path) {
        lemma_listed_path_has_entry(listing, entries, root, output, path);
    }
}

/// The entries decide the list, in whatever order the walk met them: two
/// lists of files for the same entries are equal. So a second scan of an
/// unchanged tree gives the same list.
pub proof fn lemma_listing_is_determined(
    first: Seq<Seq<char>>,
    second: Seq<Seq<char>>,
    walk: Seq<EntryView>,
    other_walk: Seq<EntryView>,
    root: Seq<char>,
    output: Seq<char>,
)
    requires
        is_listing_of(first, walk, root, output),
        is_listing_of(second, other_walk, root, output),
        walk.to_multiset() == other_walk.to_multiset(),
    ensures
        first == second,
{
    lemma_kept_of_rearranged(
        walk,
        other_walk,
        |e: EntryView| selected(e, root, output),
        |e: EntryView| e.path,
    );
    lemma_sorted_listing_is_unique(first, second);
}

/// Lists the files that go into the document: the paths of the entries that
/// are regular files and are not left out, sorted by their bytes.
///
/// No listed path is hidden, lies in an ignored directory or bears an ignored
/// file name, and each belongs to an entry that is a regular file and not the
/// output document.
pub fn collect_all_files(entries: &Vec<Entry>, root_dir: &str, output_abs: &str) -> (listing: Vec<
    String,
>)
    ensures
        is_listing_of(listing.deep_view(), entries.deep_view(), root_dir@, output_abs@),
        forall|i: int|
            0 <= i < listing.len() ==> !hidden(#[trigger] listing.deep_view()[i], root_dir@),
        forall|i: int|
            0 <= i < listing.len() ==> !in_ignored_dir(
                #[trigger] listing.deep_view()[i],
                root_dir@,
            ),
        forall|i: int| 0 <= i < listing.len() ==> !ignored_file(#[trigger] listing.deep_view()[i]),
        forall|i: int|
            0 <= i < listing.len() ==> has_selected_entry(
                #[trigger] listing.deep_view()[i],
                entries.deep_view(),
                root_dir@,
                output_abs@,
            ),
{
    let ghost all = entries.deep_view();
    let ghost keep = |e: EntryView| selected(e, root_dir@, output_abs@);
    let ghost path_of = |e: EntryView| e.path;
    let mut picked: Vec<String> = Vec::new();
    let mut i: usize = 0;
    proof {
        lemma_kept_empty(keep, path_of);
        assert(all.take(0) =~= Seq::<EntryView>::empty());
        assert(picked.deep_view() =~= Seq::<Seq<char>>::empty());
    }
    while i < entries.len()
        invariant
            i <= entries.len(),
            all == entries.deep_view(),
            keep == |e: EntryView| selected(e, root_dir@, output_abs@),
            path_of == |e: EntryView| e.path,
            picked.deep_view() == kept(all.take(i as int), keep, path_of),
        decreases entries.len() - i,
    {
        let entry = &entries[i];
        let ghost before = picked.deep_view();
        proof {
            assert(all.take(i + 1) =~= all.take(i as int).push(entry@));
            lemma_kept_push(all.take(i as int), entry@, keep, path_of);
        }
        let canonical: Option<&str> = match &entry.canonical {
            Some(c) => Some(c.as_str()),
            None => None,
        };
        if entry.is_file && !should_ignore(entry.path.as_str(), canonical, root_dir, output_abs) {
            picked.push(entry.path.clone());
            assert(picked.deep_view() =~= before.push(entry.path@));
        }
        i += 1;
    }
    assert(all.take(i as int) =~= all);
    let listing = sort_paths(picked);
    proof {
        assert forall|k: int| 0 <= k < listing.len() implies {
            &&& has_selected_entry(#[trigger] listing.deep_view()[k], all, root_dir@, output_abs@)
            &&& !hidden(listing.deep_view()[k], root_dir@)
            &&& !in_ignored_dir(listing.deep_view()[k], root_dir@)
            &&& !ignored_file(listing.deep_view()[k])
        } by {
            let path = listing.deep_view()[k];
            assert(listing.deep_view().contains(path));
            lemma_listed_path_has_entry(listing.deep_view(), all, root_dir@, output_abs@, path);
        }
    }
    listing
}

} // verus!
