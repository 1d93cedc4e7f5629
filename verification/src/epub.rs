//! Choosing the images of an EPUB book and the names they are extracted under.
use vstd::prelude::*;
use vstd::string::*;
use crate::archive::lex_lt;
use crate::text::{
    chars_le, chars_of, concat3, last_index_of, last_index_of_char, lemma_last_index_bounds,
    lemma_lex_antisymmetric, lemma_lex_reflexive, lemma_lex_total, lemma_lex_transitive, same_text,
    starts_with, starts_with_str,
};

verus! {

/// One resource of the book's manifest.
#[derive(Clone, Debug)]
pub struct EpubResource {
    /// The resource's path inside the book; its text after the last `/`
    /// names the extracted file.
    pub key: String,
    /// Where the book's manifest lists the resource: its position among the
    /// manifest's items, or past them when it is not found there.
    pub position: usize,
    /// Its MIME type.
    pub mime: String,
    /// Its content, when it could be read.
    pub data: Option<Vec<u8>>,
}

/// An image to write out: the resource it comes from and its file name.
#[derive(Clone, Debug, PartialEq, Eq)]
pub struct EpubImage {
    /// Index of the resource in the list given.
    pub resource: usize,
    /// Name of the file to write in the extraction directory.
    pub file_name: String,
}

/// Why nothing can be extracted from a book.
#[derive(Clone, Copy, Debug, PartialEq, Eq, Structural)]
pub enum EpubError {
    /// The book holds no readable image.
    NoImages,
}

/// A MIME type of an image.
pub open spec fn is_image_mime(mime: Seq<char>) -> bool {
    starts_with(mime, "image/"@)
}

/// The part of `s` after the last `c`, or all of `s` when it has none.
pub open spec fn after_last(s: Seq<char>, c: char) -> Seq<char> {
    match last_index_of(s, c) {
        Some(i) => s.subrange(i + 1, s.len() as int),
        None => s,
    }
}

/// The part of `s` before the last `c`, or all of `s` when it has none.
pub open spec fn before_last(s: Seq<char>, c: char) -> Seq<char> {
    match last_index_of(s, c) {
        Some(i) => s.subrange(0, i),
        None => s,
    }
}

/// The file name of a resource, without the folders of the book.
pub open spec fn flat_name(key: Seq<char>) -> Seq<char> {
    after_last(key, '/')
}

/// The extension written for an image: fixed by the common MIME types, else
/// taken from the file name.
pub open spec fn image_extension(mime: Seq<char>, file_name: Seq<char>) -> Seq<char> {
    if mime == "image/jpeg"@ || mime == "image/jpg"@ {
        "jpg"@
    } else if mime == "image/png"@ {
        "png"@
    } else if mime == "image/webp"@ {
        "webp"@
    } else {
        after_last(file_name, '.')
    }
}

/// The name an image resource is written under: its original name, with the
/// extension that its MIME type calls for.
pub open spec fn extracted_name(key: Seq<char>, mime: Seq<char>) -> Seq<char> {
    let f = flat_name(key);
    before_last(f, '.') + "."@ + image_extension(mime, f)
}

/// Resource `i` is an image whose content could be read.
pub open spec fn is_readable_image(rs: Seq<EpubResource>, i: int) -> bool {
    is_image_mime(rs[i].mime@) && rs[i].data is Some
}

/// The name resource `i` would be written under.
pub open spec fn written_name(rs: Seq<EpubResource>, i: int) -> Seq<char> {
    extracted_name(rs[i].key@, rs[i].mime@)
}

/// In the choice between images written under the same name, resource `i`
/// comes before resource `j`: it is listed earlier in the manifest, or at the
/// same place with a smaller path, or with the same path earlier in the list.
#[verifier::opaque]
pub open spec fn key_before(rs: Seq<EpubResource>, i: int, j: int) -> bool {
    ||| rs[i].position < rs[j].position
    ||| rs[i].position == rs[j].position && lex_lt(rs[i].key@, rs[j].key@)
    ||| rs[i].position == rs[j].position && rs[i].key@ == rs[j].key@ && i < j
}

/// Resource `i` is the image written under its name: a readable image that
/// comes before every other readable image written under the same name.
pub open spec fn is_kept_image(rs: Seq<EpubResource>, i: int) -> bool {
    &&& is_readable_image(rs, i)
    &&& forall|j: int|
        0 <= j < rs.len() && j != i && is_readable_image(rs, j) && written_name(rs, j) == written_name(
            rs,
            i,
        ) ==> #[trigger] key_before(rs, i, j)
}

/// Resource `i` is a readable image.
pub open spec fn has_readable_image(rs: Seq<EpubResource>) -> bool {
    exists|i: int| 0 <= i < rs.len() && is_readable_image(rs, i)
}

/// `out` lists, in the order of the resources, exactly the images written,
/// each under its extracted name; no two are written under the same name.
pub open spec fn is_extraction_plan(rs: Seq<EpubResource>, out: Seq<EpubImage>) -> bool {
    &&& forall|k: int| 0 <= k < out.len() ==> (#[trigger] out[k]).resource < rs.len()
    &&& forall|k: int| 0 <= k < out.len() ==> is_kept_image(rs, (#[trigger] out[k]).resource as int)
    &&& forall|k: int|
        0 <= k < out.len() ==> (#[trigger] out[k]).file_name@ == written_name(
            rs,
            out[k].resource as int,
        )
    &&& forall|k: int, l: int|
        0 <= k < l < out.len() ==> (#[trigger] out[k]).resource < (#[trigger] out[l]).resource
    &&& forall|k: int, l: int|
        0 <= k < l < out.len() ==> (#[trigger] out[k]).file_name@ != (#[trigger] out[l]).file_name@
    &&& forall|i: int|
        0 <= i < rs.len() && is_kept_image(rs, i) ==> exists|k: int|
            0 <= k < out.len() && (#[trigger] out[k]).resource == i
}

/// No resource comes before itself, and no two each come before the other.
proof fn lemma_key_before_asymmetric(rs: Seq<EpubResource>, i: int, j: int)
    ensures
        !(key_before(rs, i, j) && key_before(rs, j, i)),
{
    reveal(key_before);
    if lex_lt(rs[i].key@, rs[j].key@) && lex_lt(rs[j].key@, rs[i].key@) {
        lemma_lex_antisymmetric(rs[i].key@, rs[j].key@);
    }
}

/// Of two different resources, one comes before the other.
proof fn lemma_key_before_total(rs: Seq<EpubResource>, i: int, j: int)
    requires
        i != j,
    ensures
        key_before(rs, i, j) || key_before(rs, j, i),
{
    reveal(key_before);
    lemma_lex_total(rs[i].key@, rs[j].key@);
}

/// The choice order is transitive.
proof fn lemma_key_before_transitive(rs: Seq<EpubResource>, i: int, j: int, k: int)
    requires
        key_before(rs, i, j),
        key_before(rs, j, k),
    ensures
        key_before(rs, i, k),
{
    reveal(key_before);
    let (a, b, c) = (rs[i].key@, rs[j].key@, rs[k].key@);
    if lex_lt(a, b) && lex_lt(b, c) {
        lemma_lex_transitive(a, b, c);
        if a == c {
            lemma_lex_antisymmetric(a, b);
        }
    }
}

/// Among the first `m` resources, if one is a readable image written under
/// `name`, one of them comes before all the others.
proof fn lemma_first_in_prefix(rs: Seq<EpubResource>, name: Seq<char>, m: int)
    requires
        0 <= m <= rs.len(),
    ensures
        (exists|j: int| 0 <= j < m && is_readable_image(rs, j) && written_name(rs, j) == name)
            ==> exists|b: int|
            0 <= b < m && is_readable_image(rs, b) && written_name(rs, b) == name && forall|j: int|
                0 <= j < m && j != b && is_readable_image(rs, j) && written_name(rs, j) == name
                    ==> #[trigger] key_before(rs, b, j),
    decreases m,
{
    if m > 0 {
        lemma_first_in_prefix(rs, name, m - 1);
        let t = m - 1;
        let candidate = is_readable_image(rs, t) && written_name(rs, t) == name;
        if exists|j: int| 0 <= j < t && is_readable_image(rs, j) && written_name(rs, j) == name {
            let b = choose|b: int|
                0 <= b < t && is_readable_image(rs, b) && written_name(rs, b) == name && forall|j: int|
                    0 <= j < t && j != b && is_readable_image(rs, j) && written_name(rs, j) == name
                        ==> #[trigger] key_before(rs, b, j);
            if candidate && key_before(rs, t, b) {
                assert forall|j: int|
                    0 <= j < m && j != t && is_readable_image(rs, j) && written_name(rs, j) == name
                        implies #[trigger] key_before(rs, t, j) by {
                    if j != b {
                        lemma_key_before_transitive(rs, t, b, j);
                    }
                }
            } else {
                if candidate {
                    lemma_key_before_total(rs, t, b);
                }
                assert forall|j: int|
                    0 <= j < m && j != b && is_readable_image(rs, j) && written_name(rs, j) == name
                        implies #[trigger] key_before(rs, b, j) by {
                }
            }
        } else if candidate {
            assert forall|j: int|
                0 <= j < m && j != t && is_readable_image(rs, j) && written_name(rs, j) == name
                    implies #[trigger] key_before(rs, t, j) by {
                assert(0 <= j < t);
            }
        }
    }
}

/// Every readable image has a kept image written under its name.
proof fn lemma_kept_exists(rs: Seq<EpubResource>, i: int)
    requires
        0 <= i < rs.len(),
        is_readable_image(rs, i),
    ensures
        exists|b: int| 0 <= b < rs.len() && is_kept_image(rs, b),
{
    lemma_first_in_prefix(rs, written_name(rs, i), rs.len() as int);
    let b = choose|b: int|
        0 <= b < rs.len() && is_readable_image(rs, b) && written_name(rs, b) == written_name(rs, i)
            && forall|j: int|
            0 <= j < rs.len() && j != b && is_readable_image(rs, j) && written_name(rs, j)
                == written_name(rs, i) ==> #[trigger] key_before(rs, b, j);
    assert(is_kept_image(rs, b));
}

/// Some position of `perm` holds `k`.
pub open spec fn listed_at(perm: Seq<int>, k: int) -> bool {
    exists|i: int| 0 <= i < perm.len() && perm[i] == k
}

/// Which images are written does not depend on the order in which the book's
/// resources are listed: when `ts` lists the resources of `rs` in another
/// order (`ts[perm[i]]` is `rs[i]`) and their paths are distinct, a resource
/// is written from one list exactly when it is written from the other.
pub proof fn lemma_choice_ignores_order(rs: Seq<EpubResource>, ts: Seq<EpubResource>, perm: Seq<int>)
    requires
        ts.len() == rs.len(),
        perm.len() == rs.len(),
        forall|i: int| 0 <= i < rs.len() ==> 0 <= #[trigger] perm[i] < rs.len() && ts[perm[i]] == rs[i],
        forall|i: int, j: int| 0 <= i < j < rs.len() ==> #[trigger] perm[i] != #[trigger] perm[j],
        forall|k: int| 0 <= k < rs.len() ==> #[trigger] listed_at(perm, k),
        forall|i: int, j: int| 0 <= i < j < rs.len() ==> (#[trigger] rs[i]).key@ != (#[trigger] rs[j]).key@,
    ensures
        forall|i: int| 0 <= i < rs.len() ==> (is_kept_image(rs, i) <==> is_kept_image(ts, #[trigger] perm[i])),
{
    reveal(key_before);
    assert forall|i: int| 0 <= i < rs.len() implies (is_kept_image(rs, i) <==> is_kept_image(
        ts,
        #[trigger] perm[i],
    )) by {
        let p = perm[i];
        if is_kept_image(rs, i) {
            assert forall|q: int|
                0 <= q < ts.len() && q != p && is_readable_image(ts, q) && written_name(ts, q)
                    == written_name(ts, p) implies #[trigger] key_before(ts, p, q) by {
                assert(listed_at(perm, q));
                let j = choose|j: int| 0 <= j < perm.len() && perm[j] == q;
                assert(j != i);
                assert(ts[q] == rs[j]);
                assert(key_before(rs, i, j));
                if i < j {
                    assert(rs[i].key@ != rs[j].key@);
                } else {
                    assert(rs[j].key@ != rs[i].key@);
                }
            }
        }
        if is_kept_image(ts, p) {
            assert forall|j: int|
                0 <= j < rs.len() && j != i && is_readable_image(rs, j) && written_name(rs, j)
                    == written_name(rs, i) implies #[trigger] key_before(rs, i, j) by {
                let q = perm[j];
                if i < j {
                    assert(perm[i] != perm[j]);
                    assert(rs[i].key@ != rs[j].key@);
                } else {
                    assert(perm[j] != perm[i]);
                    assert(rs[j].key@ != rs[i].key@);
                }
                assert(ts[q] == rs[j]);
                assert(key_before(ts, p, q));
            }
        }
    }
}

/// Whether a MIME type is that of an image.
pub fn is_image_type(mime: &str) -> (r: bool)
    ensures
        r == is_image_mime(mime@),
{
    starts_with_str(mime, "image/")
}

/// The part of `s` after the last `c`, or all of `s`.
fn after_last_char(s: &str, c: char) -> (r: String)
    ensures
        r@ == after_last(s@, c),
{
    let n = s.unicode_len();
    proof {
        lemma_last_index_bounds(s@, c);
    }
    match last_index_of_char(s, c) {
        Some(i) => s.substring_char(i + 1, n).to_owned(),
        None => s.to_owned(),
    }
}

/// The part of `s` before the last `c`, or all of `s`.
fn before_last_char(s: &str, c: char) -> (r: String)
    ensures
        r@ == before_last(s@, c),
{
    proof {
        lemma_last_index_bounds(s@, c);
    }
    match last_index_of_char(s, c) {
        Some(i) => s.substring_char(0, i).to_owned(),
        None => s.to_owned(),
    }
}

/// The name an image resource is written under (see [`extracted_name`]).
pub fn epub_file_name(key: &str, mime: &str) -> (r: String)
    ensures
        r@ == extracted_name(key@, mime@),
{
    let file_name = after_last_char(key, '/');
    let ext = if same_text(mime, "image/jpeg") || same_text(mime, "image/jpg") {
        "jpg".to_owned()
    } else if same_text(mime, "image/png") {
        "png".to_owned()
    } else if same_text(mime, "image/webp") {
        "webp".to_owned()
    } else {
        after_last_char(file_name.as_str(), '.')
    };
    let base = before_last_char(file_name.as_str(), '.');
    concat3(base.as_str(), ".", ext.as_str())
}

/// Whether resource `i` comes before resource `j` (see [`key_before`]), from
/// their manifest positions and the characters of their paths.
fn key_precedes(
    resources: &Vec<EpubResource>,
    keys: &Vec<Vec<char>>,
    i: usize,
    j: usize,
) -> (r: bool)
    requires
        i < keys.len(),
        j < keys.len(),
        keys.len() == resources.len(),
        forall|t: int| 0 <= t < resources.len() ==> (#[trigger] keys@[t])@ == resources@[t].key@,
    ensures
        r == key_before(resources@, i as int, j as int),
{
    reveal(key_before);
    let pi = resources[i].position;
    let pj = resources[j].position;
    if pi != pj {
        return pi < pj;
    }
    let a = &keys[i];
    let b = &keys[j];
    let le = chars_le(a, b);
    let ge = chars_le(b, a);
    proof {
        lemma_lex_reflexive(a@);
        if le && ge {
            lemma_lex_antisymmetric(a@, b@);
        }
    }
    if le && !ge {
        true
    } else if le && ge {
        i < j
    } else {
        false
    }
}

/// Chooses the images of an EPUB book and the names they are written under.
///
/// Each image resource whose content could be read is written under its
/// original file name with the extension its MIME type calls for. When
/// several images would be written under the same name, only the one listed
/// first in the book's manifest is (see [`key_before`]): no extracted file
/// overwrites another, and the choice does not depend on the order in which
/// the resources are handed over. The book is refused when it holds no
/// readable image.
pub fn extract_epub(resources: &Vec<EpubResource>) -> (r: Result<Vec<EpubImage>, EpubError>)
    ensures
        match r {
            Ok(out) => is_extraction_plan(resources@, out@) && out.len() > 0,
            Err(e) => e == EpubError::NoImages && !has_readable_image(resources@),
        },
{
    let ghost rs = resources@;
    let n = resources.len();
    let mut keys: Vec<Vec<char>> = Vec::new();
    let mut names: Vec<String> = Vec::new();
    let mut t: usize = 0;
    while t < n
        invariant
            rs == resources@,
            n == rs.len(),
            t <= n,
            keys.len() == t,
            names.len() == t,
            forall|u: int| 0 <= u < t ==> (#[trigger] keys@[u])@ == rs[u].key@,
            forall|u: int| 0 <= u < t ==> (#[trigger] names@[u])@ == written_name(rs, u),
        decreases n - t,
    {
        let res = &resources[t];
        keys.push(chars_of(res.key.as_str()));
        names.push(epub_file_name(res.key.as_str(), res.mime.as_str()));
        t = t + 1;
    }
    let mut out: Vec<EpubImage> = Vec::new();
    let mut i: usize = 0;
    while i < n
        invariant
            rs == resources@,
            n == rs.len(),
            i <= n,
            keys.len() == n,
            names.len() == n,
            forall|u: int| 0 <= u < n ==> (#[trigger] keys@[u])@ == rs[u].key@,
            forall|u: int| 0 <= u < n ==> (#[trigger] names@[u])@ == written_name(rs, u),
            forall|k: int| 0 <= k < out.len() ==> (#[trigger] out@[k]).resource < i,
            forall|k: int| 0 <= k < out.len() ==> is_kept_image(rs, (#[trigger] out@[k]).resource as int),
            forall|k: int|
                0 <= k < out.len() ==> (#[trigger] out@[k]).file_name@ == written_name(
                    rs,
                    out@[k].resource as int,
                ),
            forall|k: int, l: int|
                0 <= k < l < out.len() ==> (#[trigger] out@[k]).resource < (#[trigger] out@[l]).resource,
            forall|j: int|
                0 <= j < i && is_kept_image(rs, j) ==> exists|k: int|
                    0 <= k < out.len() && (#[trigger] out@[k]).resource == j,
        decreases n - i,
    {
        let res = &resources[i];
        if is_image_type(res.mime.as_str()) && res.data.is_some() {
            let mut kept = true;
            let mut j: usize = 0;
            while j < n
                invariant
                    rs == resources@,
                    n == rs.len(),
                    i < n,
                    j <= n,
                    keys.len() == n,
                    names.len() == n,
                    forall|u: int| 0 <= u < n ==> (#[trigger] keys@[u])@ == rs[u].key@,
                    forall|u: int| 0 <= u < n ==> (#[trigger] names@[u])@ == written_name(rs, u),
                    kept <==> forall|u: int|
                        0 <= u < j && u != i && is_readable_image(rs, u) && written_name(rs, u)
                            == written_name(rs, i as int) ==> #[trigger] key_before(rs, i as int, u),
                decreases n - j,
            {
                let other = &resources[j];
                if j != i && is_image_type(other.mime.as_str()) && other.data.is_some() && names[j]
                    == names[i] && !key_precedes(resources, &keys, i, j) {
                    kept = false;
                }
                proof {
                    if !kept {
                        if !(j != i && is_readable_image(rs, j as int) && written_name(rs, j as int)
                            == written_name(rs, i as int) && !key_before(rs, i as int, j as int)) {
                            let u = choose|u: int|
                                !(0 <= u < j && u != i && is_readable_image(rs, u) && written_name(
                                    rs,
                                    u,
                                ) == written_name(rs, i as int) ==> #[trigger] key_before(
                                    rs,
                                    i as int,
                                    u,
                                ));
                            assert(0 <= u < j + 1);
                        }
                    }
                }
                j = j + 1;
            }
            if kept {
                assert(is_kept_image(rs, i as int));
                let ghost old_out = out@;
                out.push(EpubImage { resource: i, file_name: names[i].clone() });
                proof {
                    assert forall|u: int| 0 <= u < i + 1 && is_kept_image(rs, u) implies exists|k: int|
                        0 <= k < out.len() && (#[trigger] out@[k]).resource == u by {
                        if u == i {
                            assert(out@[old_out.len() as int].resource == u);
                        } else {
                            let k = choose|k: int| 0 <= k < old_out.len() && (#[trigger] old_out[k]).resource == u;
                            assert(out@[k] == old_out[k]);
                        }
                    }
                }
            } else {
                assert(!is_kept_image(rs, i as int));
            }
        } else {
            assert(!is_kept_image(rs, i as int));
        }
        i = i + 1;
    }
    if out.len() == 0 {
        proof {
            if has_readable_image(rs) {
                let w = choose|w: int| 0 <= w < rs.len() && is_readable_image(rs, w);
                lemma_kept_exists(rs, w);
                let b = choose|b: int| 0 <= b < rs.len() && is_kept_image(rs, b);
                assert(exists|k: int| 0 <= k < out.len() && (#[trigger] out@[k]).resource == b);
            }
        }
        return Err(EpubError::NoImages);
    }
    proof {
        assert forall|k: int, l: int| 0 <= k < l < out.len() implies (#[trigger] out@[k]).file_name@
            != (#[trigger] out@[l]).file_name@ by {
            let a = out@[k].resource as int;
            let b = out@[l].resource as int;
            if out@[k].file_name@ == out@[l].file_name@ {
                assert(is_kept_image(rs, a));
                assert(is_kept_image(rs, b));
                assert(key_before(rs, a, b));
                assert(key_before(rs, b, a));
                lemma_key_before_asymmetric(rs, a, b);
            }
        }
    }
    Ok(out)
}

/// A blank of XML: space, tab, line feed or carriage return.
pub open spec fn is_xml_blank(c: char) -> bool {
    c == ' ' || c == '\t' || c == '\n' || c == '\r'
}

/// An `<item` element opens at `k` of the package document: `<item` followed
/// by a blank.
pub open spec fn item_opens_at(t: Seq<char>, k: int) -> bool {
    &&& 0 <= k
    &&& k + 6 <= t.len()
    &&& t[k] == '<' && t[k + 1] == 'i' && t[k + 2] == 't' && t[k + 3] == 'e' && t[k + 4] == 'm'
    &&& is_xml_blank(t[k + 5])
}

/// The first position at or after `j` that holds `c`, or the length.
pub open spec fn next_char(t: Seq<char>, c: char, j: int) -> int
    decreases t.len() - j,
{
    if j < 0 || j >= t.len() {
        t.len() as int
    } else if t[j] == c {
        j
    } else {
        next_char(t, c, j + 1)
    }
}

/// An `id="` attribute opens at `j`: a blank, then `id="`.
pub open spec fn id_opens_at(t: Seq<char>, j: int) -> bool {
    &&& 0 <= j
    &&& j + 5 <= t.len()
    &&& is_xml_blank(t[j])
    &&& t[j + 1] == 'i' && t[j + 2] == 'd' && t[j + 3] == '=' && t[j + 4] == '"'
}

/// The first `id="` opening at or after `j` that ends by `end`.
pub open spec fn first_id_from(t: Seq<char>, j: int, end: int) -> Option<int>
    decreases end - j,
{
    if j < 0 || j + 5 > end {
        None
    } else if id_opens_at(t, j) {
        Some(j)
    } else {
        first_id_from(t, j + 1, end)
    }
}

/// The id of the `<item` element opening at `k`: the value of the first `id`
/// attribute inside its tag, up to the closing quote.
pub open spec fn item_id_at(t: Seq<char>, k: int) -> Option<Seq<char>> {
    match first_id_from(t, k + 5, next_char(t, '>', k)) {
        Some(j) => Some(t.subrange(j + 5, next_char(t, '"', j + 5))),
        None => None,
    }
}

/// The ids of the `<item` elements from position `k` on, in document order.
pub open spec fn item_ids_from(t: Seq<char>, k: int) -> Seq<Seq<char>>
    decreases t.len() - k,
{
    if k < 0 || k >= t.len() {
        Seq::empty()
    } else if item_opens_at(t, k) && item_id_at(t, k) is Some {
        seq![item_id_at(t, k).unwrap()] + item_ids_from(t, k + 1)
    } else {
        item_ids_from(t, k + 1)
    }
}

/// The ids of the items of a package document's manifest, in the order the
/// document lists them.
pub open spec fn manifest_ids(opf: Seq<char>) -> Seq<Seq<char>> {
    item_ids_from(opf, 0)
}

/// The first position at or after `j` that holds `c`, or the length.
fn next_char_at(t: &Vec<char>, c: char, j: usize) -> (r: usize)
    requires
        j <= t.len(),
    ensures
        r == next_char(t@, c, j as int),
        j <= r <= t.len(),
{
    let mut k = j;
    while k < t.len() && t[k] != c
        invariant
            j <= k <= t.len(),
            next_char(t@, c, j as int) == next_char(t@, c, k as int),
        decreases t.len() - k,
    {
        k = k + 1;
    }
    k
}

/// Whether `c` is a blank of XML.
fn xml_blank(c: char) -> (r: bool)
    ensures
        r == is_xml_blank(c),
{
    c == ' ' || c == '\t' || c == '\n' || c == '\r'
}

/// The first `id="` opening at or after `j` that ends by `end`.
fn first_id_at(t: &Vec<char>, j: usize, end: usize) -> (r: Option<usize>)
    requires
        end <= t.len(),
    ensures
        match r {
            Some(x) => first_id_from(t@, j as int, end as int) == Some(x as int),
            None => first_id_from(t@, j as int, end as int) is None,
        },
        r matches Some(x) ==> x + 5 <= end,
{
    let mut k = j;
    while end >= 5 && k <= end - 5
        invariant
            j <= k,
            end <= t.len(),
            first_id_from(t@, j as int, end as int) == first_id_from(t@, k as int, end as int),
        decreases end - k,
    {
        if xml_blank(t[k]) && t[k + 1] == 'i' && t[k + 2] == 'd' && t[k + 3] == '=' && t[k + 4] == '"' {
            return Some(k);
        }
        k = k + 1;
    }
    None
}

/// Reads the ids of the manifest's items from the text of a book's package
/// document, in the order the document lists them: for each `<item` element,
/// the value of its `id="..."` attribute. Items without such an attribute
/// are passed over.
pub fn manifest_item_ids(opf: &str) -> (r: Vec<String>)
    ensures
        r.deep_view() == manifest_ids(opf@),
{
    let t = chars_of(opf);
    let n = t.len();
    let mut out: Vec<String> = Vec::new();
    let mut k: usize = 0;
    while k < n
        invariant
            t@ == opf@,
            n == t.len(),
            k <= n,
            out.deep_view() + item_ids_from(t@, k as int) == item_ids_from(t@, 0),
        decreases n - k,
    {
        let opens = n >= 6 && k <= n - 6 && t[k] == '<' && t[k + 1] == 'i' && t[k + 2] == 't' && t[k
            + 3] == 'e' && t[k + 4] == 'm' && xml_blank(t[k + 5]);
        assert(opens == item_opens_at(t@, k as int));
        let ghost before = out.deep_view();
        if opens {
            let end = next_char_at(&t, '>', k);
            match first_id_at(&t, k + 5, end) {
                Some(j) => {
                    let close = next_char_at(&t, '"', j + 5);
                    let id = opf.substring_char(j + 5, close).to_owned();
                    out.push(id);
                    assert(out.deep_view() =~= before.push(t@.subrange(j + 5, close as int)));
                    assert(item_ids_from(t@, k as int) == seq![t@.subrange(j + 5, close as int)]
                        + item_ids_from(t@, k + 1));
                    assert(out.deep_view() + item_ids_from(t@, k + 1) =~= before + item_ids_from(
                        t@,
                        k as int,
                    ));
                },
                None => {
                    assert(item_ids_from(t@, k as int) == item_ids_from(t@, k + 1));
                },
            }
        } else {
            assert(item_ids_from(t@, k as int) == item_ids_from(t@, k + 1));
        }
        k = k + 1;
    }
    assert(out.deep_view() =~= out.deep_view() + item_ids_from(t@, n as int));
    out
}

/// Where the manifest lists the item `id`: the first position of `id` among
/// the manifest's ids, or their number when it is not there.
pub fn manifest_position(ids: &Vec<String>, id: &str) -> (r: usize)
    ensures
        r <= ids.len(),
        r < ids.len() ==> ids@[r as int]@ == id@,
        forall|k: int| 0 <= k < r ==> (#[trigger] ids@[k])@ != id@,
{
    let mut k: usize = 0;
    while k < ids.len()
        invariant
            k <= ids.len(),
            forall|u: int| 0 <= u < k ==> (#[trigger] ids@[u])@ != id@,
        decreases ids.len() - k,
    {
        if same_text(ids[k].as_str(), id) {
            return k;
        }
        k = k + 1;
    }
    k
}

} // verus!
