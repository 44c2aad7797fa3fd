//! What `std::path` makes of a path that is written as text.
//!
//! The library holds every path as a string. How such a string falls into
//! components is decided by `std::path` for the platform the library is built
//! for; the functions below hand that decision to verified code, and the
//! uninterpreted spec functions give it a name that contracts can speak of.
//!
//! Every function here starts from a `&str`, so each part that `std::path`
//! hands back is valid UTF-8 and `to_string_lossy` returns it unchanged.

use std::path::Path;
use vstd::prelude::*;

verus! {

/// What is left of `path` once the leading `root` is taken off, or `None`
/// where `root` is no prefix of `path`: the answer of `Path::strip_prefix`.
pub uninterp spec fn relative_to(path: Seq<char>, root: Seq<char>) -> Option<Seq<char>>;

/// The components of `path`, first to last, each as the text that
/// `Component::as_os_str` gives: the items of `Path::components`.
pub uninterp spec fn components_of(path: Seq<char>) -> Seq<Seq<char>>;

/// The final component of `path` where it is an ordinary name: the answer of
/// `Path::file_name`.
pub uninterp spec fn file_name_of(path: Seq<char>) -> Option<Seq<char>>;

/// The position of the last `.` in `name`, or -1 where it holds none.
pub open spec fn last_dot(name: Seq<char>) -> int
    decreases name.len(),
{
    if name.len() == 0 {
        -1
    } else if name.last() == '.' {
        name.len() - 1
    } else {
        last_dot(name.drop_last())
    }
}

/// The extension of a file name: what follows its last `.`, unless the name
/// holds no `.` or its only `.` is the leading one.
pub open spec fn extension_in(name: Seq<char>) -> Option<Seq<char>> {
    if last_dot(name) <= 0 {
        None
    } else {
        Some(name.skip(last_dot(name) + 1))
    }
}

/// The extension of the file that `path` names, if it names one.
pub open spec fn extension_of(path: Seq<char>) -> Option<Seq<char>> {
    match file_name_of(path) {
        Some(name) => extension_in(name),
        None => None,
    }
}

/// Calls `Path::strip_prefix`. Trusted: the result is what `relative_to`
/// names, `None` standing for the error that the call returns when `root` is
/// no prefix of `path`.
#[verifier::external_body]
pub(crate) fn strip_root(path: &str, root: &str) -> (rest: Option<String>)
    ensures
        rest.deep_view() == relative_to(path@, root@),
{
    match Path::new(path).strip_prefix(Path::new(root)) {
        Ok(rest) => Some(rest.to_string_lossy().into_owned()),
        Err(_) => None,
    }
}

/// Calls `Path::components`. Trusted: the strings returned are the components
/// that `components_of` names, in the same order.
#[verifier::external_body]
pub(crate) fn split_components(path: &str) -> (parts: Vec<String>)
    ensures
        parts.deep_view() == components_of(path@),
{
    Path::new(path).components().map(|c| c.as_os_str().to_string_lossy().into_owned()).collect()
}

/// Calls `Path::file_name`. Trusted: the result is what `file_name_of` names.
#[verifier::external_body]
pub(crate) fn final_name(path: &str) -> (name: Option<String>)
    ensures
        name.deep_view() == file_name_of(path@),
{
    Path::new(path).file_name().map(|n| n.to_string_lossy().into_owned())
}

/// Calls `Path::extension`. Trusted: the result is the extension of the file
/// name of `path` as std documents it, which `extension_in` writes out: the
/// part after the last `.` of the file name, and `None` where there is no file
/// name, no `.` in it, or only a leading one.
#[verifier::external_body]
pub(crate) fn final_extension(path: &str) -> (ext: Option<String>)
    ensures
        ext.deep_view() == match file_name_of(path@) {
            Some(name) => extension_in(name),
            None => None,
        },
{
    Path::new(path).extension().map(|e| e.to_string_lossy().into_owned())
}

} // verus!
