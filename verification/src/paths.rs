//! File-system path arithmetic on plain strings, done by `std::path`.
use vstd::prelude::*;
use std::path::Path;

verus! {

/// The last component of the path `p`, as `Path::file_name` gives it
/// (`None` when `p` ends in `..`, is a root, or is empty).
pub uninterp spec fn file_name_of(p: Seq<char>) -> Option<Seq<char>>;

/// `dir` with `name` appended as a component, as `Path::join` gives it.
pub uninterp spec fn joined(dir: Seq<char>, name: Seq<char>) -> Seq<char>;

/// `p` with its last component replaced by `name`, as `Path::with_file_name` gives it.
pub uninterp spec fn with_file_name_of(p: Seq<char>, name: Seq<char>) -> Seq<char>;

/// The position of the last `c` in `s`, or -1.
pub open spec fn last_index_of(s: Seq<char>, c: char) -> int
    decreases s.len(),
{
    if s.len() == 0 {
        -1
    } else if s.last() == c {
        s.len() - 1
    } else {
        last_index_of(s.drop_last(), c)
    }
}

/// The extension of a file name, as `Path::extension` documents it: the part
/// after the final `.`; none when there is no `.`, or when the only `.` starts the name.
pub open spec fn extension_of_name(name: Seq<char>) -> Option<Seq<char>> {
    let dot = last_index_of(name, '.');
    if dot <= 0 {
        None
    } else {
        Some(name.skip(dot + 1))
    }
}

/// The extension of the path `p` (`Path::extension`).
pub open spec fn extension_of(p: Seq<char>) -> Option<Seq<char>> {
    match file_name_of(p) {
        Some(name) => extension_of_name(name),
        None => None,
    }
}

/// Whether `name` is one plain path component on every platform: not empty,
/// without `/`, a backslash or a `:` (which could start a drive prefix), and
/// neither `.` nor `..`.
pub open spec fn is_plain_component(name: Seq<char>) -> bool {
    &&& name.len() > 0
    &&& !name.contains('/')
    &&& !name.contains('\\')
    &&& !name.contains(':')
    &&& name != seq!['.']
    &&& name != seq!['.', '.']
}

/// The view of an optional string.
pub open spec fn opt_view(o: Option<String>) -> Option<Seq<char>> {
    match o {
        Some(s) => Some(s@),
        None => None,
    }
}

/// The last component of `p` (`Path::file_name`): a component is never empty.
/// Which characters it may hold is not stated: that depends on the platform's
/// separators (and, on Windows, on whether `p` is a verbatim path).
#[verifier::external_body]
pub(crate) fn file_name(p: &str) -> (r: Option<String>)
    ensures
        opt_view(r) == file_name_of(p@),
        r matches Some(n) ==> n@.len() > 0,
{
    match Path::new(p).file_name() {
        Some(name) => Some(name.to_string_lossy().into_owned()),
        None => None,
    }
}

/// The extension of `p` (`Path::extension`): the part of its file name after the final `.`.
#[verifier::external_body]
pub(crate) fn extension(p: &str) -> (r: Option<String>)
    ensures opt_view(r) == extension_of(p@),
{
    match Path::new(p).extension() {
        Some(ext) => Some(ext.to_string_lossy().into_owned()),
        None => None,
    }
}

/// `dir` joined with `name` (`Path::join`).
#[verifier::external_body]
pub(crate) fn join(dir: &str, name: &str) -> (r: String)
    ensures r@ == joined(dir@, name@),
{
    Path::new(dir).join(name).to_string_lossy().into_owned()
}

/// `p` with its file name replaced by `name` (`Path::with_file_name`, which drops
/// the last component of `p`, if it has one, and pushes `name`). Where `name` is a
/// single component, the file name of the result is `name`: so where `name` is a
/// plain component on every platform, and where `name` is its own file name on
/// this platform (then it has no separator, prefix or root that `push` would act on).
#[verifier::external_body]
pub(crate) fn replace_file_name(p: &str, name: &str) -> (r: String)
    ensures
        r@ == with_file_name_of(p@, name@),
        is_plain_component(name@) ==> file_name_of(r@) == Some(name@),
        file_name_of(name@) == Some(name@) ==> file_name_of(r@) == Some(name@),
{
    Path::new(p).with_file_name(name).to_string_lossy().into_owned()
}

}
