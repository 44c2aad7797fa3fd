//! The path classifier: which entries of a tree are left out of the document.
//!
//! An entry is left out when it is the output document itself, when a
//! component of its path below the root begins with a dot, when such a
//! component bears the name of a build or dependency directory, or when its
//! file name is that of a lockfile.

use crate::paths::{components_of, file_name_of, final_name, relative_to, split_components, strip_root};
use crate::text::{starts_with_dot, text_eq};
use vstd::prelude::*;

verus! {

/// A name that begins with a dot.
pub open spec fn dot_prefixed(name: Seq<char>) -> bool {
    name.len() > 0 && name[0] == '.'
}

/// One of the directory names that are never descended into.
pub open spec fn ignored_dir_name(name: Seq<char>) -> bool {
    name == "node_modules"@ || name == "target"@ || name == "dist"@ || name == "build"@
}

/// One of the lockfile names that are never listed.
pub open spec fn ignored_file_name(name: Seq<char>) -> bool {
    name == "package-lock.json"@ || name == "pnpm-lock.yaml"@ || name == "yarn.lock"@ || name
        == "Cargo.lock"@
}

/// Some component begins with a dot.
pub open spec fn any_dot_prefixed(parts: Seq<Seq<char>>) -> bool {
    exists|i: int| 0 <= i < parts.len() && dot_prefixed(#[trigger] parts[i])
}

/// Some component is the name of an ignored directory.
pub open spec fn any_ignored_dir(parts: Seq<Seq<char>>) -> bool {
    exists|i: int| 0 <= i < parts.len() && ignored_dir_name(#[trigger] parts[i])
}

/// `path` lies under `root` and a component of it below `root` begins with a dot.
pub open spec fn hidden(path: Seq<char>, root: Seq<char>) -> bool {
    match relative_to(path, root) {
        Some(rest) => any_dot_prefixed(components_of(rest)),
        None => false,
    }
}

/// `path` lies under `root` and a component of it below `root` is the name
/// of an ignored directory.
pub open spec fn in_ignored_dir(path: Seq<char>, root: Seq<char>) -> bool {
    match relative_to(path, root) {
        Some(rest) => any_ignored_dir(components_of(rest)),
        None => false,
    }
}

/// The file name of `path` is that of a lockfile.
pub open spec fn ignored_file(path: Seq<char>) -> bool {
    match file_name_of(path) {
        Some(name) => ignored_file_name(name),
        None => false,
    }
}

/// The entry is the output document: its canonical form is known and equals
/// the resolved output path.
pub open spec fn names_output(canonical: Option<Seq<char>>, output: Seq<char>) -> bool {
    canonical == Some(output)
}

/// The entry is left out of the document.
pub open spec fn excluded(
    path: Seq<char>,
    canonical: Option<Seq<char>>,
    root: Seq<char>,
    output: Seq<char>,
) -> bool {
    names_output(canonical, output) || hidden(path, root) || in_ignored_dir(path, root)
        || ignored_file(path)
}

/// A dot-prefixed component hides whatever lies below it, at any depth: more
/// components behind it do not bring the path back.
pub proof fn lemma_hidden_at_any_depth(above: Seq<Seq<char>>, below: Seq<Seq<char>>)
    requires
        any_dot_prefixed(above),
    ensures
        any_dot_prefixed(above + below),
{
    let i = choose|i: int| 0 <= i < above.len() && dot_prefixed(#[trigger] above[i]);
    assert((above + below)[i] == above[i]);
}

/// An ignored directory takes with it whatever lies below it, at any depth.
pub proof fn lemma_ignored_dir_at_any_depth(above: Seq<Seq<char>>, below: Seq<Seq<char>>)
    requires
        any_ignored_dir(above),
    ensures
        any_ignored_dir(above + below),
{
    let i = choose|i: int| 0 <= i < above.len() && ignored_dir_name(#[trigger] above[i]);
    assert((above + below)[i] == above[i]);
}

/// Whether `name` is one of the ignored directory names.
pub fn is_ignored_dir_name(name: &str) -> (ignored: bool)
    ensures
        ignored == ignored_dir_name(name@),
{
    text_eq(name, "node_modules") || text_eq(name, "target") || text_eq(name, "dist") || text_eq(
        name,
        "build",
    )
}

/// Whether `name` is one of the ignored lockfile names.
pub fn is_ignored_file_name(name: &str) -> (ignored: bool)
    ensures
        ignored == ignored_file_name(name@),
{
    text_eq(name, "package-lock.json") || text_eq(name, "pnpm-lock.yaml") || text_eq(
        name,
        "yarn.lock",
    ) || text_eq(name, "Cargo.lock")
}

/// Whether some component in `parts` begins with a dot.
pub fn has_hidden_component(parts: &Vec<String>) -> (found: bool)
    ensures
        found == any_dot_prefixed(parts.deep_view()),
{
    let mut i: usize = 0;
    while i < parts.len()
        invariant
            i <= parts.len(),
            forall|j: int| 0 <= j < i ==> !dot_prefixed(#[trigger] parts.deep_view()[j]),
        decreases parts.len() - i,
    {
        if starts_with_dot(parts[i].as_str()) {
            assert(dot_prefixed(parts.deep_view()[i as int]));
            return true;
        }
        i += 1;
    }
    false
}

/// Whether some component in `parts` is the name of an ignored directory.
pub fn has_ignored_dir_component(parts: &Vec<String>) -> (found: bool)
    ensures
        found == any_ignored_dir(parts.deep_view()),
{
    let mut i: usize = 0;
    while i < parts.len()
        invariant
            i <= parts.len(),
            forall|j: int| 0 <= j < i ==> !ignored_dir_name(#[trigger] parts.deep_view()[j]),
        decreases parts.len() - i,
    {
        if is_ignored_dir_name(parts[i].as_str()) {
            assert(ignored_dir_name(parts.deep_view()[i as int]));
            return true;
        }
        i += 1;
    }
    false
}

/// Whether the entry with the canonical form `canonical` is the output
/// document. An entry whose canonical form could not be had is not.
pub fn is_output(canonical: Option<&str>, output_abs: &str) -> (same: bool)
    ensures
        same == names_output(canonical.deep_view(), output_abs@),
{
    match canonical {
        Some(c) => text_eq(c, output_abs),
        None => false,
    }
}

/// Whether `path`, taken relative to `root_dir`, has a component that begins
/// with a dot. A path that does not lie under `root_dir` is not hidden.
pub fn is_hidden(path: &str, root_dir: &str) -> (result: bool)
    ensures
        result == hidden(path@, root_dir@),
{
    match strip_root(path, root_dir) {
        Some(rest) => {
            let parts = split_components(rest.as_str());
            has_hidden_component(&parts)
        },
        None => false,
    }
}

/// Whether `path`, taken relative to `root_dir`, has a component that is the
/// name of an ignored directory.
pub fn is_ignored_dir(path: &str, root_dir: &str) -> (result: bool)
    ensures
        result == in_ignored_dir(path@, root_dir@),
{
    match strip_root(path, root_dir) {
        Some(rest) => {
            let parts = split_components(rest.as_str());
            has_ignored_dir_component(&parts)
        },
        None => false,
    }
}

/// Whether the file name of `path` is that of a lockfile.
pub fn is_ignored_file(path: &str) -> (result: bool)
    ensures
        result == ignored_file(path@),
{
    match final_name(path) {
        Some(name) => is_ignored_file_name(name.as_str()),
        None => false,
    }
}

/// Whether the entry at `path` is left out of the document. `canonical` is
/// the canonical form of `path` where the file system gave one, and
/// `output_abs` the resolved path of the output document.
pub fn should_ignore(path: &str, canonical: Option<&str>, root_dir: &str, output_abs: &str) -> (result:
    bool)
    ensures
        result == excluded(path@, canonical.deep_view(), root_dir@, output_abs@),
{
    if is_output(canonical, output_abs) {
        return true;
    }
    if is_hidden(path, root_dir) {
        return true;
    }
    if is_ignored_dir(path, root_dir) {
        return true;
    }
    if is_ignored_file(path) {
        return true;
    }
    false
}

} // verus!
