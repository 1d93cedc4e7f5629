//! Recognising comic files and building the search pattern for them.
use vstd::prelude::*;
use crate::models::{ComicFile, ComicType};
use crate::paths::{extension, extension_of, path_join, std_join};
use crate::text::{contains_str, contains_text, lemma_lowercase_is_unique, lowercase_equals, lowercase_is, occurs_at};

verus! {

/// The comic format that an extension names, compared without regard to case.
pub open spec fn comic_type_of_extension(ext: Seq<char>) -> Option<ComicType> {
    if lowercase_is(ext, "cbz"@) {
        Some(ComicType::Cbz)
    } else if lowercase_is(ext, "cbr"@) {
        Some(ComicType::Cbr)
    } else if lowercase_is(ext, "pdf"@) {
        Some(ComicType::Pdf)
    } else if lowercase_is(ext, "epub"@) {
        Some(ComicType::Epub)
    } else {
        None
    }
}

/// The comic format of a path, from the extension of its file name.
pub open spec fn comic_type_of_path(path: Seq<char>) -> Option<ComicType> {
    match extension_of(path) {
        Some(e) => comic_type_of_extension(e),
        None => None,
    }
}

/// Only the four comic extensions are recognised, each as its own format and
/// in any case: cbz as CBZ, cbr as CBR, pdf as PDF, epub as EPUB. Any other
/// extension, such as that of a plain zip archive, is refused.
pub proof fn lemma_comic_extensions(ext: Seq<char>)
    ensures
        comic_type_of_extension(ext) == Some(ComicType::Cbz) <==> lowercase_is(ext, "cbz"@),
        comic_type_of_extension(ext) == Some(ComicType::Cbr) <==> lowercase_is(ext, "cbr"@),
        comic_type_of_extension(ext) == Some(ComicType::Pdf) <==> lowercase_is(ext, "pdf"@),
        comic_type_of_extension(ext) == Some(ComicType::Epub) <==> lowercase_is(ext, "epub"@),
        comic_type_of_extension(ext) is None <==> !(lowercase_is(ext, "cbz"@) || lowercase_is(ext, "cbr"@)
            || lowercase_is(ext, "pdf"@) || lowercase_is(ext, "epub"@)),
{
    reveal_strlit("cbz");
    reveal_strlit("cbr");
    reveal_strlit("pdf");
    reveal_strlit("epub");
    if lowercase_is(ext, "cbz"@) && lowercase_is(ext, "cbr"@) {
        lemma_lowercase_is_unique(ext, "cbz"@, "cbr"@);
        assert(("cbz"@)[2] != ("cbr"@)[2]);
    }
    if lowercase_is(ext, "cbz"@) && lowercase_is(ext, "pdf"@) {
        lemma_lowercase_is_unique(ext, "cbz"@, "pdf"@);
        assert(("cbz"@)[0] != ("pdf"@)[0]);
    }
    if lowercase_is(ext, "cbz"@) && lowercase_is(ext, "epub"@) {
        lemma_lowercase_is_unique(ext, "cbz"@, "epub"@);
        assert(("cbz"@).len() != ("epub"@).len());
    }
    if lowercase_is(ext, "cbr"@) && lowercase_is(ext, "pdf"@) {
        lemma_lowercase_is_unique(ext, "cbr"@, "pdf"@);
        assert(("cbr"@)[0] != ("pdf"@)[0]);
    }
    if lowercase_is(ext, "cbr"@) && lowercase_is(ext, "epub"@) {
        lemma_lowercase_is_unique(ext, "cbr"@, "epub"@);
        assert(("cbr"@).len() != ("epub"@).len());
    }
    if lowercase_is(ext, "pdf"@) && lowercase_is(ext, "epub"@) {
        lemma_lowercase_is_unique(ext, "pdf"@, "epub"@);
        assert(("pdf"@).len() != ("epub"@).len());
    }
}

/// Why a file is not taken as a comic.
#[derive(Clone, Copy, Debug, PartialEq, Eq, Structural)]
pub enum DetectError {
    /// The extension is none of cbz, cbr, pdf and epub.
    UnsupportedFormat,
}

/// The comic format that an extension names, if any.
pub fn comic_type_from_extension(ext: Option<&str>) -> (r: Option<ComicType>)
    ensures
        r == match ext {
            Some(e) => comic_type_of_extension(e@),
            None => None,
        },
{
    match ext {
        None => None,
        Some(e) => {
            if lowercase_equals(e, "cbz") {
                Some(ComicType::Cbz)
            } else if lowercase_equals(e, "cbr") {
                Some(ComicType::Cbr)
            } else if lowercase_equals(e, "pdf") {
                Some(ComicType::Pdf)
            } else if lowercase_equals(e, "epub") {
                Some(ComicType::Epub)
            } else {
                None
            }
        },
    }
}

/// Identifies a comic file by the extension of its name.
///
/// Succeeds exactly when the extension is cbz, cbr, pdf or epub in any case;
/// the path is kept as it was given.
pub fn detect_type(path: &str) -> (r: Result<ComicFile, DetectError>)
    ensures
        match r {
            Ok(f) => {
                &&& comic_type_of_path(path@) == Some(f.file_type)
                &&& f.path@ == path@
            },
            Err(e) => {
                &&& comic_type_of_path(path@) is None
                &&& e == DetectError::UnsupportedFormat
            },
        },
{
    let ext = extension(path);
    let t = match &ext {
        Some(e) => comic_type_from_extension(Some(e.as_str())),
        None => comic_type_from_extension(None),
    };
    match t {
        Some(t) => Ok(ComicFile { path: path.to_owned(), file_type: t }),
        None => Err(DetectError::UnsupportedFormat),
    }
}

/// The glob pattern searched for: inside a directory input, the pattern is
/// taken below that directory, and a pattern without `**` is searched at any
/// depth; any other input leaves the pattern as it is.
pub open spec fn glob_search_pattern(
    input: Seq<char>,
    input_is_dir: bool,
    pattern: Seq<char>,
) -> Seq<char> {
    if input_is_dir {
        if !contains_text(pattern, "**"@) {
            std_join(std_join(input, "**"@), pattern)
        } else {
            std_join(input, pattern)
        }
    } else {
        pattern
    }
}

/// Below a directory, a pattern that holds `**` anywhere is searched as it
/// is, joined to the directory; only a pattern without any `**` gets a `**`
/// component in front of it, to be searched at any depth. For an input that is
/// not a directory, the pattern is searched as given.
pub proof fn lemma_glob_deepens_only_without_stars(input: Seq<char>, pattern: Seq<char>, k: int)
    ensures
        occurs_at(pattern, "**"@, k) ==> glob_search_pattern(input, true, pattern) == std_join(
            input,
            pattern,
        ),
        (forall|j: int| !occurs_at(pattern, "**"@, j)) ==> glob_search_pattern(input, true, pattern)
            == std_join(std_join(input, "**"@), pattern),
        glob_search_pattern(input, false, pattern) == pattern,
{
}

/// Builds the glob pattern for a search, from the input path (whether it is a
/// directory is read from disk by the caller) and the user's pattern.
pub fn build_glob_pattern(input: &str, input_is_dir: bool, pattern: &str) -> (r: String)
    ensures
        r@ == glob_search_pattern(input@, input_is_dir, pattern@),
{
    if input_is_dir {
        if !contains_str(pattern, "**") {
            let deep = path_join(input, "**");
            path_join(deep.as_str(), pattern)
        } else {
            path_join(input, pattern)
        }
    } else {
        pattern.to_owned()
    }
}

} // verus!
