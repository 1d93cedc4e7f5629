//! Archive handling decisions: which extractors to try for a comic, where a
//! ZIP entry goes, and in which order pages are written to a CBZ.
use vstd::prelude::*;
use crate::models::ComicType;
use crate::paths::{path_join, path_parent, std_join, std_parent};
use crate::text::{
    chars_le, chars_of, ends_with, ends_with_str, lemma_lex_antisymmetric, lemma_lex_reflexive,
    lemma_lex_total, lemma_lex_transitive, lex_le,
};

verus! {

/// An extraction engine.
#[derive(Clone, Copy, Debug, PartialEq, Eq, Structural)]
pub enum ArchiveFormat {
    /// ZIP archives (CBZ).
    Zip,
    /// RAR archives (CBR).
    Rar,
    /// PDF documents.
    Pdf,
    /// EPUB books.
    Epub,
}

/// The extractors tried, in order, for a comic format: a CBR is tried as a RAR
/// archive and then as a ZIP archive, since many CBR files are renamed ZIPs.
pub open spec fn extractors_for(t: ComicType) -> Seq<ArchiveFormat> {
    match t {
        ComicType::Cbz => seq![ArchiveFormat::Zip],
        ComicType::Cbr => seq![ArchiveFormat::Rar, ArchiveFormat::Zip],
        ComicType::Pdf => seq![ArchiveFormat::Pdf],
        ComicType::Epub => seq![ArchiveFormat::Epub],
    }
}

/// The extractors to try for a comic format, in order. The first that
/// succeeds ends the extraction; when all fail, the last error stands.
pub fn extraction_order(t: ComicType) -> (r: Vec<ArchiveFormat>)
    ensures
        r@ == extractors_for(t),
{
    let mut r: Vec<ArchiveFormat> = Vec::new();
    match t {
        ComicType::Cbz => {
            r.push(ArchiveFormat::Zip);
        },
        ComicType::Cbr => {
            r.push(ArchiveFormat::Rar);
            r.push(ArchiveFormat::Zip);
        },
        ComicType::Pdf => {
            r.push(ArchiveFormat::Pdf);
        },
        ComicType::Epub => {
            r.push(ArchiveFormat::Epub);
        },
    }
    assert(r@ =~= extractors_for(t));
    r
}

/// Where one entry of a ZIP archive is extracted.
#[derive(Clone, Debug, PartialEq, Eq)]
pub struct ZipEntryTarget {
    /// The entry's name joined to the extraction directory.
    pub output_path: String,
    /// The directory created before the entry is written, if the path has one.
    pub parent_dir: Option<String>,
    /// Whether the entry is a directory, which gets no file of its own.
    pub is_directory: bool,
}

/// A path separator inside an entry name: `/`, or `\\` as some archivers write.
pub open spec fn is_separator(c: char) -> bool {
    c == '/' || c == '\\'
}

/// A `..` component starts at position `k` of `name`.
pub open spec fn parent_component_at(name: Seq<char>, k: int) -> bool {
    &&& 0 <= k
    &&& k + 2 <= name.len()
    &&& name[k] == '.'
    &&& name[k + 1] == '.'
    &&& (k == 0 || is_separator(name[k - 1]))
    &&& (k + 2 == name.len() || is_separator(name[k + 2]))
}

/// An entry name that stays below the extraction directory: it does not
/// start at a root (a separator) and has no `..` component.
pub open spec fn is_enclosed_name(name: Seq<char>) -> bool {
    &&& !(name.len() > 0 && is_separator(name[0]))
    &&& forall|k: int| !parent_component_at(name, k)
}

/// Whether an entry name stays below the extraction directory.
pub fn is_enclosed_entry(name: &str) -> (r: bool)
    ensures
        r == is_enclosed_name(name@),
{
    let c = chars_of(name);
    let n = c.len();
    if n > 0 && (c[0] == '/' || c[0] == '\\') {
        return false;
    }
    let mut k: usize = 0;
    while n >= 2 && k <= n - 2
        invariant
            k <= n,
            c@ == name@,
            n == c.len(),
            forall|t: int| 0 <= t < k ==> !parent_component_at(name@, t),
        decreases n - k,
    {
        if c[k] == '.' && c[k + 1] == '.' && (k == 0 || c[k - 1] == '/' || c[k - 1] == '\\') && (k
            + 2 == n || c[k + 2] == '/' || c[k + 2] == '\\') {
            assert(parent_component_at(name@, k as int));
            return false;
        }
        k = k + 1;
    }
    assert forall|t: int| !parent_component_at(name@, t) by {
        if 0 <= t && t + 2 <= n {
            assert(t < k);
        }
    }
    true
}

/// Plans the extraction of a ZIP entry named `entry_name` into `temp_dir`:
/// the entry's path below the directory, the directory to create for it, and
/// whether it is a directory entry (its name ends with `/`). An entry whose
/// name would lead out of the directory (a rooted name, or one with a `..`
/// component) is not extracted: `None`.
pub fn zip_entry_target(temp_dir: &str, entry_name: &str) -> (r: Option<ZipEntryTarget>)
    ensures
        r is None <==> !is_enclosed_name(entry_name@),
        r matches Some(t) ==> {
            &&& t.output_path@ == std_join(temp_dir@, entry_name@)
            &&& match t.parent_dir {
                Some(p) => std_parent(t.output_path@) == Some(p@),
                None => std_parent(t.output_path@) is None,
            }
            &&& t.is_directory == ends_with(entry_name@, "/"@)
        },
{
    if !is_enclosed_entry(entry_name) {
        return None;
    }
    let output_path = path_join(temp_dir, entry_name);
    let parent_dir = path_parent(output_path.as_str());
    let is_directory = ends_with_str(entry_name, "/");
    Some(ZipEntryTarget { output_path, parent_dir, is_directory })
}

/// A file written to a CBZ under its plain file name (no separator, not
/// `..`) is extracted again under that name, directly below the extraction
/// directory, as a file.
pub proof fn lemma_file_names_read_back(name: Seq<char>)
    requires
        forall|i: int| 0 <= i < name.len() ==> !is_separator(#[trigger] name[i]),
        name != seq!['.', '.'],
    ensures
        is_enclosed_name(name),
        !ends_with(name, "/"@),
{
    assert forall|k: int| !parent_component_at(name, k) by {
        if parent_component_at(name, k) {
            if k > 0 {
                assert(!is_separator(name[k - 1]));
            }
            if k + 2 < name.len() {
                assert(!is_separator(name[k + 2]));
            }
            assert(name =~= seq!['.', '.']);
        }
    }
    if ends_with(name, "/"@) {
        reveal_strlit("/");
        assert(name[name.len() - 1] == name.subrange(name.len() - 1, name.len() as int)[0]);
    }
}

/// Strict lexicographic order.
pub open spec fn lex_lt(a: Seq<char>, b: Seq<char>) -> bool {
    lex_le(a, b) && a != b
}

/// Entry `i` comes before entry `j`: its name is smaller, or the names are
/// equal and it came first (the sort is stable).
pub open spec fn entry_before(names: Seq<Seq<char>>, i: int, j: int) -> bool {
    lex_lt(names[i], names[j]) || (names[i] == names[j] && i < j)
}

/// `order` lists every entry once, sorted by name with equal names in their
/// original order.
pub open spec fn is_name_order(names: Seq<Seq<char>>, order: Seq<usize>) -> bool {
    &&& forall|k: int| 0 <= k < order.len() ==> #[trigger] order[k] < names.len()
    &&& forall|i: int| 0 <= i < names.len() ==> #[trigger] order.contains(i as usize)
    &&& forall|k: int, l: int|
        0 <= k < l < order.len() ==> entry_before(names, #[trigger] order[k] as int, #[trigger] order[l] as int)
}

/// A smaller name followed by a name no larger gives a smaller name.
proof fn lemma_lt_le(a: Seq<char>, b: Seq<char>, c: Seq<char>)
    requires
        lex_lt(a, b),
        lex_le(b, c),
    ensures
        lex_lt(a, c),
{
    lemma_lex_transitive(a, b, c);
    if a == c {
        lemma_lex_antisymmetric(a, b);
    }
}

/// The character vectors of all names, in order.
fn name_keys(names: &Vec<String>) -> (r: Vec<Vec<char>>)
    ensures
        r.len() == names.len(),
        forall|i: int| 0 <= i < names.len() ==> (#[trigger] r@[i])@ == names@[i]@,
{
    let mut r: Vec<Vec<char>> = Vec::new();
    let mut i: usize = 0;
    while i < names.len()
        invariant
            i <= names.len(),
            r.len() == i,
            forall|j: int| 0 <= j < i ==> (#[trigger] r@[j])@ == names@[j]@,
        decreases names.len() - i,
    {
        r.push(chars_of(names[i].as_str()));
        i = i + 1;
    }
    r
}

/// All entries sorted by name, equal names keeping their order: the order in
/// which the extracted files of a comic are handled, and in which they are
/// written to the CBZ, so that the reading order follows the page names.
pub fn order_by_name(names: &Vec<String>) -> (r: Vec<usize>)
    ensures
        is_name_order(names.deep_view(), r@),
{
    let ghost nv = names.deep_view();
    let keys = name_keys(names);
    let mut order: Vec<usize> = Vec::new();
    let mut i: usize = 0;
    while i < names.len()
        invariant
            nv == names.deep_view(),
            nv.len() == names.len(),
            keys.len() == names.len(),
            forall|j: int| 0 <= j < names.len() ==> (#[trigger] keys@[j])@ == nv[j],
            i <= names.len(),
            forall|k: int| 0 <= k < order.len() ==> #[trigger] order@[k] < i,
            forall|j: int| 0 <= j < i ==> #[trigger] order@.contains(j as usize),
            forall|k: int, l: int|
                0 <= k < l < order.len() ==> entry_before(nv, #[trigger] order@[k] as int, #[trigger] order@[l] as int),
        decreases names.len() - i,
    {
        assert(nv[i as int] == names@[i as int]@);
        {
            let mut pos: usize = 0;
            while pos < order.len() && chars_le(&keys[order[pos]], &keys[i])
                invariant
                    pos <= order.len(),
                    forall|k: int| 0 <= k < order.len() ==> #[trigger] order@[k] < i,
                    i < names.len(),
                    keys.len() == names.len(),
                    forall|j: int| 0 <= j < names.len() ==> (#[trigger] keys@[j])@ == nv[j],
                    forall|k: int| 0 <= k < pos ==> lex_le(nv[#[trigger] order@[k] as int], nv[i as int]),
                decreases order.len() - pos,
            {
                pos = pos + 1;
            }
            let ghost old_order = order@;
            proof {
                assert forall|k: int| 0 <= k < pos implies entry_before(nv, #[trigger] old_order[k] as int, i as int) by {
                    assert(old_order[k] < i);
                }
                if pos < old_order.len() {
                    let o = old_order[pos as int] as int;
                    assert(!lex_le(nv[o], nv[i as int]));
                    lemma_lex_total(nv[o], nv[i as int]);
                    if nv[o] == nv[i as int] {
                        lemma_lex_reflexive(nv[o]);
                    }
                    assert(lex_lt(nv[i as int], nv[o]));
                    assert forall|k: int| pos <= k < old_order.len() implies entry_before(nv, i as int, #[trigger] old_order[k] as int) by {
                        if k > pos {
                            assert(entry_before(nv, o, old_order[k] as int));
                            let ok = old_order[k] as int;
                            if lex_lt(nv[o], nv[ok]) {
                                lemma_lt_le(nv[i as int], nv[o], nv[ok]);
                            } else {
                                lemma_lex_reflexive(nv[o]);
                                lemma_lt_le(nv[i as int], nv[o], nv[ok]);
                            }
                        }
                    }
                }
            }
            order.insert(pos, i);
            proof {
                assert(order@ == old_order.insert(pos as int, i));
                assert forall|k: int, l: int| 0 <= k < l < order.len() implies entry_before(nv, #[trigger] order@[k] as int, #[trigger] order@[l] as int) by {
                    if l < pos {
                        assert(order@[k] == old_order[k]);
                        assert(order@[l] == old_order[l]);
                    } else if l == pos {
                        assert(order@[k] == old_order[k]);
                    } else if k == pos {
                        assert(order@[l] == old_order[l - 1]);
                    } else if k < pos {
                        assert(order@[k] == old_order[k]);
                        assert(order@[l] == old_order[l - 1]);
                    } else {
                        assert(order@[k] == old_order[k - 1]);
                        assert(order@[l] == old_order[l - 1]);
                    }
                }
                assert forall|j: int| 0 <= j < i + 1 implies #[trigger] order@.contains(j as usize) by {
                    if j == i {
                        assert(order@[pos as int] == i);
                    } else {
                        assert(old_order.contains(j as usize));
                        let k = choose|k: int| 0 <= k < old_order.len() && old_order[k] == j as usize;
                        if k < pos {
                            assert(order@[k] == j as usize);
                        } else {
                            assert(order@[k + 1] == j as usize);
                        }
                    }
                }
                assert forall|k: int| 0 <= k < order.len() implies #[trigger] order@[k] < i + 1 by {
                    if k < pos {
                        assert(order@[k] == old_order[k]);
                    } else if k > pos {
                        assert(order@[k] == old_order[k - 1]);
                    }
                }
            }
        }
        i = i + 1;
    }
    order
}

/// No entry comes before itself, and no two entries each come before the other.
proof fn lemma_before_asymmetric(names: Seq<Seq<char>>, i: int, j: int)
    ensures
        !(entry_before(names, i, j) && entry_before(names, j, i)),
{
    if lex_lt(names[i], names[j]) && lex_lt(names[j], names[i]) {
        lemma_lex_antisymmetric(names[i], names[j]);
    }
}

/// Two lists sorted by entry order that hold the same entries are the same.
proof fn lemma_sorted_lists_equal(names: Seq<Seq<char>>, a: Seq<usize>, b: Seq<usize>)
    requires
        forall|k: int, l: int|
            0 <= k < l < a.len() ==> entry_before(names, #[trigger] a[k] as int, #[trigger] a[l] as int),
        forall|k: int, l: int|
            0 <= k < l < b.len() ==> entry_before(names, #[trigger] b[k] as int, #[trigger] b[l] as int),
        forall|x: usize| a.contains(x) <==> b.contains(x),
    ensures
        a == b,
    decreases a.len(),
{
    if a.len() == 0 {
        if b.len() > 0 {
            assert(b.contains(b[0]));
        }
        assert(a =~= b);
    } else {
        assert(a.contains(a[0]));
        assert(b.len() > 0);
        assert(b.contains(b[0]));
        let j = choose|j: int| 0 <= j < a.len() && a[j] == b[0];
        let k = choose|k: int| 0 <= k < b.len() && b[k] == a[0];
        if a[0] != b[0] {
            assert(j > 0);
            assert(k > 0);
            assert(entry_before(names, a[0] as int, a[j] as int));
            assert(entry_before(names, b[0] as int, b[k] as int));
            lemma_before_asymmetric(names, a[0] as int, b[0] as int);
        }
        let at = a.drop_first();
        let bt = b.drop_first();
        assert forall|x: usize| at.contains(x) <==> bt.contains(x) by {
            if at.contains(x) {
                let p = choose|p: int| 0 <= p < at.len() && at[p] == x;
                assert(a[p + 1] == x);
                assert(a.contains(x));
                if x == b[0] {
                    lemma_before_asymmetric(names, a[0] as int, a[0] as int);
                    assert(entry_before(names, a[0] as int, a[p + 1] as int));
                }
                let q = choose|q: int| 0 <= q < b.len() && b[q] == x;
                assert(q > 0);
                assert(bt[q - 1] == x);
            }
            if bt.contains(x) {
                let p = choose|p: int| 0 <= p < bt.len() && bt[p] == x;
                assert(b[p + 1] == x);
                assert(b.contains(x));
                if x == a[0] {
                    lemma_before_asymmetric(names, b[0] as int, b[0] as int);
                    assert(entry_before(names, b[0] as int, b[p + 1] as int));
                }
                let q = choose|q: int| 0 <= q < a.len() && a[q] == x;
                assert(q > 0);
                assert(at[q - 1] == x);
            }
        }
        assert forall|k: int, l: int| 0 <= k < l < at.len() implies entry_before(names, #[trigger] at[k] as int, #[trigger] at[l] as int) by {
            assert(at[k] == a[k + 1] && at[l] == a[l + 1]);
        }
        assert forall|k: int, l: int| 0 <= k < l < bt.len() implies entry_before(names, #[trigger] bt[k] as int, #[trigger] bt[l] as int) by {
            assert(bt[k] == b[k + 1] && bt[l] == b[l + 1]);
        }
        lemma_sorted_lists_equal(names, at, bt);
        assert(a =~= seq![a[0]] + at);
        assert(b =~= seq![b[0]] + bt);
    }
}

/// The order depends on the names alone: any two orders that list every
/// entry sorted by name (equal names in input order) are the same.
pub proof fn lemma_name_order_unique(
    names: Seq<Seq<char>>,
    a: Seq<usize>,
    b: Seq<usize>,
)
    requires
        is_name_order(names, a),
        is_name_order(names, b),
    ensures
        a == b,
{
    assert forall|x: usize| a.contains(x) <==> b.contains(x) by {
        if a.contains(x) {
            let k = choose|k: int| 0 <= k < a.len() && a[k] == x;
            assert(b.contains(x as int as usize));
        }
        if b.contains(x) {
            let k = choose|k: int| 0 <= k < b.len() && b[k] == x;
            assert(a.contains(x as int as usize));
        }
    }
    lemma_sorted_lists_equal(names, a, b);
}

} // verus!
