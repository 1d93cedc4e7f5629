//! Paths as strings: their file name, parent, stem and extension, and joins.
//!
//! Splitting a path into components is left to `std::path`, whose results are
//! named here; splitting a file name into stem and extension is stated and
//! proved in full.
use vstd::prelude::*;
use vstd::string::*;
use crate::text::{lemma_last_index_bounds, last_index_of, last_index_of_char};

verus! {

/// What `std::path::Path::file_name` gives for `path`.
pub uninterp spec fn std_file_name(path: Seq<char>) -> Option<Seq<char>>;

/// What `std::path::Path::parent` gives for `path`.
pub uninterp spec fn std_parent(path: Seq<char>) -> Option<Seq<char>>;

/// What `std::path::Path::join` gives for `base` and `name`.
pub uninterp spec fn std_join(base: Seq<char>, name: Seq<char>) -> Seq<char>;

/// What `==` on `std::path::Path` gives for `a` and `b`.
pub uninterp spec fn std_path_eq(a: Seq<char>, b: Seq<char>) -> bool;

/// Calls `std::path::Path::file_name`, the last component of the path when it
/// is a normal name.
///
/// Claims only that the result is a function of the path, named
/// [`std_file_name`]. The path comes from a `&str`, so the lossy conversion
/// back to text is exact.
#[verifier::external_body]
pub(crate) fn path_file_name(path: &str) -> (r: Option<String>)
    ensures
        match r {
            Some(n) => std_file_name(path@) == Some(n@),
            None => std_file_name(path@) is None,
        },
{
    match std::path::Path::new(path).file_name() {
        Some(n) => Some(n.to_string_lossy().into_owned()),
        None => None,
    }
}

/// Calls `std::path::Path::parent`, the path without its last component.
///
/// Claims only that the result is a function of the path, named [`std_parent`].
#[verifier::external_body]
pub(crate) fn path_parent(path: &str) -> (r: Option<String>)
    ensures
        match r {
            Some(p) => std_parent(path@) == Some(p@),
            None => std_parent(path@) is None,
        },
{
    match std::path::Path::new(path).parent() {
        Some(p) => Some(p.to_string_lossy().into_owned()),
        None => None,
    }
}

/// Calls `std::path::Path::join`, which appends `name` to `base` with a
/// separator where one is needed, or gives `name` when it is absolute.
///
/// Claims only that the result is a function of both arguments, named
/// [`std_join`].
#[verifier::external_body]
pub(crate) fn path_join(base: &str, name: &str) -> (r: String)
    ensures
        r@ == std_join(base@, name@),
{
    std::path::Path::new(base).join(name).to_string_lossy().into_owned()
}

/// Calls `==` on `std::path::Path`, which compares the two paths component by
/// component.
///
/// Claims that the result is a function of both paths, named [`std_path_eq`],
/// and that a path is equal to itself, as the component comparison gives.
#[verifier::external_body]
pub(crate) fn paths_equal(a: &str, b: &str) -> (r: bool)
    ensures
        r == std_path_eq(a@, b@),
        a@ == b@ ==> r,
{
    std::path::Path::new(a) == std::path::Path::new(b)
}

/// The name made of two dots, which has neither stem nor extension to split.
pub open spec fn dot_dot() -> Seq<char> {
    seq!['.', '.']
}

/// A file name split into stem and extension at its last dot, as
/// `Path::file_stem` and `Path::extension` split it: a name without a dot, or
/// whose only dot is its first character, or `..`, is all stem and has no
/// extension.
pub open spec fn split_file_name(name: Seq<char>) -> (Seq<char>, Option<Seq<char>>) {
    if name == dot_dot() {
        (name, None)
    } else {
        match last_index_of(name, '.') {
            None => (name, None),
            Some(i) => if i == 0 {
                (name, None)
            } else {
                (name.subrange(0, i), Some(name.subrange(i + 1, name.len() as int)))
            },
        }
    }
}

/// The stem of the file name of `path`, if the path has a file name.
pub open spec fn stem_of(path: Seq<char>) -> Option<Seq<char>> {
    match std_file_name(path) {
        Some(n) => Some(split_file_name(n).0),
        None => None,
    }
}

/// The extension of the file name of `path`, if there is one.
pub open spec fn extension_of(path: Seq<char>) -> Option<Seq<char>> {
    match std_file_name(path) {
        Some(n) => split_file_name(n).1,
        None => None,
    }
}

/// Splits a file name into stem and extension (see [`split_file_name`]).
pub fn split_name(name: &str) -> (r: (String, Option<String>))
    ensures
        r.0@ == split_file_name(name@).0,
        match r.1 {
            Some(e) => split_file_name(name@).1 == Some(e@),
            None => split_file_name(name@).1 is None,
        },
{
    let n = name.unicode_len();
    if n == 2 && name.get_char(0) == '.' && name.get_char(1) == '.' {
        assert(name@ =~= dot_dot());
        return (name.to_owned(), None);
    }
    assert(name@ != dot_dot());
    proof {
        lemma_last_index_bounds(name@, '.');
    }
    match last_index_of_char(name, '.') {
        None => (name.to_owned(), None),
        Some(i) => {
            if i == 0 {
                (name.to_owned(), None)
            } else {
                let stem = name.substring_char(0, i).to_owned();
                let ext = name.substring_char(i + 1, n).to_owned();
                (stem, Some(ext))
            }
        },
    }
}

/// The stem and the extension of the file name of `path`, or `None` when the
/// path has no file name (it ends in `..`, or is a root or empty).
pub fn stem_and_extension(path: &str) -> (r: Option<(String, Option<String>)>)
    ensures
        match r {
            Some(se) => {
                &&& stem_of(path@) == Some(se.0@)
                &&& match se.1 {
                    Some(e) => extension_of(path@) == Some(e@),
                    None => extension_of(path@) is None,
                }
            },
            None => std_file_name(path@) is None,
        },
{
    match path_file_name(path) {
        None => None,
        Some(n) => Some(split_name(n.as_str())),
    }
}

/// The extension of the file name of `path`, if there is one.
pub fn extension(path: &str) -> (r: Option<String>)
    ensures
        match r {
            Some(e) => extension_of(path@) == Some(e@),
            None => extension_of(path@) is None,
        },
{
    match stem_and_extension(path) {
        None => None,
        Some(se) => se.1,
    }
}

} // verus!
