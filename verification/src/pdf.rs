//! Rendering PDF pages to image files: the channel order of the rendered
//! pixels and the names of the page files.
use vstd::prelude::*;
use vstd::string::*;
use crate::text::{concat2, concat3, lex_le};

verus! {

/// The RGBA buffer made from a BGRA buffer: in each complete group of four
/// bytes blue and red change places; bytes after the last complete group
/// are zero.
pub open spec fn rgba_from_bgra(bgra: Seq<u8>) -> Seq<u8> {
    Seq::new(
        bgra.len(),
        |k: int|
            if 4 * (k / 4) + 3 < bgra.len() {
                if k % 4 == 0 {
                    bgra[k + 2]
                } else if k % 4 == 2 {
                    bgra[k - 2]
                } else {
                    bgra[k]
                }
            } else {
                0u8
            },
    )
}

/// Converts a rendered BGRA page buffer to RGBA.
pub fn bgra_to_rgba(bgra: &Vec<u8>) -> (r: Vec<u8>)
    ensures
        r@ == rgba_from_bgra(bgra@),
{
    let n = bgra.len();
    let mut out: Vec<u8> = Vec::new();
    let mut k: usize = 0;
    while k < n
        invariant
            n == bgra.len(),
            k <= n,
            out.len() == k,
            forall|t: int| 0 <= t < k ==> out@[t] == #[trigger] rgba_from_bgra(bgra@)[t],
        decreases n - k,
    {
        let base = k - k % 4;
        let b: u8 = if n >= 4 && base <= n - 4 {
            if k % 4 == 0 {
                bgra[k + 2]
            } else if k % 4 == 2 {
                bgra[k - 2]
            } else {
                bgra[k]
            }
        } else {
            0
        };
        out.push(b);
        k = k + 1;
    }
    assert(out@ =~= rgba_from_bgra(bgra@));
    out
}

/// Swapping red and blue twice gives back a buffer made of whole pixels.
pub proof fn lemma_bgra_round_trip(bgra: Seq<u8>)
    requires
        bgra.len() % 4 == 0,
    ensures
        rgba_from_bgra(rgba_from_bgra(bgra)) == bgra,
{
    let once = rgba_from_bgra(bgra);
    let twice = rgba_from_bgra(once);
    assert forall|k: int| 0 <= k < bgra.len() implies twice[k] == bgra[k] by {
        assert(4 * (k / 4) + 3 < bgra.len());
        if k % 4 == 0 {
            assert(4 * ((k + 2) / 4) + 3 < bgra.len());
            assert((k + 2) % 4 == 2);
        } else if k % 4 == 2 {
            assert(4 * ((k - 2) / 4) + 3 < bgra.len());
            assert((k - 2) % 4 == 0);
        }
    }
    assert(twice =~= bgra);
}

/// The character of a decimal digit.
pub open spec fn digit_char(d: int) -> char {
    seq!['0', '1', '2', '3', '4', '5', '6', '7', '8', '9'][d]
}

/// The decimal writing of a natural number, without leading zeros.
pub open spec fn decimal(n: nat) -> Seq<char>
    decreases n,
{
    if n < 10 {
        seq![digit_char(n as int)]
    } else {
        decimal(n / 10) + seq![digit_char((n % 10) as int)]
    }
}

/// `count` zeros.
pub open spec fn zeros(count: nat) -> Seq<char> {
    Seq::new(count, |i: int| '0')
}

/// The decimal writing of `n` padded with zeros to four characters.
pub open spec fn decimal4(n: nat) -> Seq<char> {
    let d = decimal(n);
    if d.len() < 4 {
        zeros((4 - d.len()) as nat) + d
    } else {
        d
    }
}

/// The name of the image file of the page at `index`, counting from zero:
/// `page_` followed by the page number, from one, on at least four digits.
pub open spec fn page_name(index: int) -> Seq<char> {
    "page_"@ + decimal4((index + 1) as nat) + ".png"@
}

/// The one-character text of a digit.
fn digit_text(d: u32) -> (r: &'static str)
    requires
        d < 10,
    ensures
        r@ == seq![digit_char(d as int)],
{
    let digits = "0123456789";
    proof {
        reveal_strlit("0123456789");
    }
    let r = digits.substring_char(d as usize, d as usize + 1);
    assert(r@ =~= seq![digit_char(d as int)]);
    r
}

/// The decimal writing of `n`.
fn decimal_text(n: u32) -> (r: String)
    ensures
        r@ == decimal(n as nat),
    decreases n,
{
    if n < 10 {
        digit_text(n).to_owned()
    } else {
        let head = decimal_text(n / 10);
        concat2(head.as_str(), digit_text(n % 10))
    }
}

/// The name of the image file of the page at `index` (from zero), as
/// `page_{:04}.png` writes the page number.
pub fn page_file_name(index: i32) -> (r: String)
    requires
        0 <= index < i32::MAX,
    ensures
        r@ == page_name(index as int),
{
    let number: u32 = (index + 1) as u32;
    let d = decimal_text(number);
    let len = d.unicode_len();
    let padded = if len < 4 {
        let pad = "000";
        proof {
            reveal_strlit("000");
        }
        let zeros_text = pad.substring_char(0, 4 - len);
        assert(zeros_text@ =~= zeros((4 - len) as nat));
        concat2(zeros_text, d.as_str())
    } else {
        d
    };
    assert(padded@ == decimal4(number as nat));
    concat3("page_", padded.as_str(), ".png")
}

/// Appending after a common prefix keeps the order.
proof fn lemma_lex_prefix(p: Seq<char>, a: Seq<char>, b: Seq<char>)
    ensures
        lex_le(p + a, p + b) == lex_le(a, b),
    decreases p.len(),
{
    if p.len() > 0 {
        assert((p + a).drop_first() =~= p.drop_first() + a);
        assert((p + b).drop_first() =~= p.drop_first() + b);
        lemma_lex_prefix(p.drop_first(), a, b);
    } else {
        assert(p + a =~= a);
        assert(p + b =~= b);
    }
}

/// Two texts of the same length, the first strictly smaller, stay ordered
/// whatever follows them.
proof fn lemma_lex_same_length(a: Seq<char>, b: Seq<char>, s: Seq<char>, t: Seq<char>)
    requires
        a.len() == b.len(),
        lex_le(a, b),
        a != b,
    ensures
        lex_le(a + s, b + t),
        a + s != b + t,
    decreases a.len(),
{
    if a.len() == 0 {
        assert(a =~= b);
    } else if a[0] != b[0] {
        assert((a + s)[0] == a[0]);
        assert((b + t)[0] == b[0]);
    } else {
        assert((a + s).drop_first() =~= a.drop_first() + s);
        assert((b + t).drop_first() =~= b.drop_first() + t);
        if a.drop_first() == b.drop_first() {
            assert(a =~= seq![a[0]] + a.drop_first());
            assert(b =~= seq![b[0]] + b.drop_first());
        }
        lemma_lex_same_length(a.drop_first(), b.drop_first(), s, t);
    }
}

/// The four-digit writing of a number below ten thousand.
pub open spec fn four_digits(n: nat) -> Seq<char> {
    seq![
        digit_char((n / 1000) as int),
        digit_char(((n / 100) % 10) as int),
        digit_char(((n / 10) % 10) as int),
        digit_char((n % 10) as int),
    ]
}

/// Below ten thousand, the padded writing has exactly four digits.
proof fn lemma_decimal4(n: nat)
    requires
        n < 10000,
    ensures
        decimal4(n) == four_digits(n),
{
    if n < 10 {
        assert(decimal(n) =~= seq![digit_char(n as int)]);
        assert(decimal4(n) =~= four_digits(n));
    } else if n < 100 {
        assert(decimal(n / 10) =~= seq![digit_char((n / 10) as int)]);
        assert(decimal4(n) =~= four_digits(n));
    } else if n < 1000 {
        assert(decimal(n / 100) =~= seq![digit_char((n / 100) as int)]);
        assert((n / 10) / 10 == n / 100);
        assert(decimal(n / 10) =~= decimal(n / 100) + seq![digit_char(((n / 10) % 10) as int)]);
        assert(decimal4(n) =~= four_digits(n));
    } else {
        assert(decimal(n / 1000) =~= seq![digit_char((n / 1000) as int)]);
        assert((n / 100) / 10 == n / 1000);
        assert((n / 10) / 10 == n / 100);
        assert(decimal(n / 100) =~= decimal(n / 1000) + seq![digit_char(((n / 100) % 10) as int)]);
        assert(decimal(n / 10) =~= decimal(n / 100) + seq![digit_char(((n / 10) % 10) as int)]);
        assert(decimal4(n) =~= four_digits(n));
    }
}

/// Digit characters are ordered as the digits.
proof fn lemma_digit_order(d: int, e: int)
    requires
        0 <= d < e < 10,
    ensures
        digit_char(d) < digit_char(e),
        digit_char(d) != digit_char(e),
{
}

/// Four-digit writings are ordered as the numbers they write.
proof fn lemma_four_digits_order(a: nat, b: nat)
    requires
        a < b < 10000,
    ensures
        lex_le(four_digits(a), four_digits(b)),
        four_digits(a) != four_digits(b),
{
    let x = four_digits(a);
    let y = four_digits(b);
    let x1 = x.drop_first();
    let y1 = y.drop_first();
    let x2 = x1.drop_first();
    let y2 = y1.drop_first();
    let x3 = x2.drop_first();
    let y3 = y2.drop_first();
    assert(a / 100 == 10 * (a / 1000) + (a / 100) % 10);
    assert(b / 100 == 10 * (b / 1000) + (b / 100) % 10);
    assert(a / 10 == 10 * (a / 100) + (a / 10) % 10);
    assert(b / 10 == 10 * (b / 100) + (b / 10) % 10);
    assert(a == 10 * (a / 10) + a % 10);
    assert(b == 10 * (b / 10) + b % 10);
    if a / 1000 != b / 1000 {
        assert(a / 1000 < b / 1000);
        lemma_digit_order((a / 1000) as int, (b / 1000) as int);
        assert(x[0] != y[0]);
    } else if (a / 100) % 10 != (b / 100) % 10 {
        lemma_digit_order(((a / 100) % 10) as int, ((b / 100) % 10) as int);
        assert(x[0] == y[0]);
        assert(x1[0] != y1[0]);
        assert(lex_le(x1, y1));
        assert(x[1] != y[1]);
    } else if (a / 10) % 10 != (b / 10) % 10 {
        lemma_digit_order(((a / 10) % 10) as int, ((b / 10) % 10) as int);
        assert(x1[0] == y1[0]);
        assert(x2[0] != y2[0]);
        assert(lex_le(x2, y2));
        assert(lex_le(x1, y1));
        assert(x[2] != y[2]);
    } else {
        lemma_digit_order((a % 10) as int, (b % 10) as int);
        assert(x2[0] == y2[0]);
        assert(x3[0] != y3[0]);
        assert(lex_le(x3, y3));
        assert(lex_le(x2, y2));
        assert(lex_le(x1, y1));
        assert(x[3] != y[3]);
    }
}

/// Page files sort in page order, for documents of fewer than ten thousand
/// pages: the zero padding makes the order of the names that of the pages.
pub proof fn lemma_page_names_sorted(i: int, j: int)
    requires
        0 <= i < j < 9999,
    ensures
        lex_le(page_name(i), page_name(j)),
        page_name(i) != page_name(j),
{
    let a = (i + 1) as nat;
    let b = (j + 1) as nat;
    lemma_decimal4(a);
    lemma_decimal4(b);
    lemma_four_digits_order(a, b);
    lemma_lex_same_length(four_digits(a), four_digits(b), ".png"@, ".png"@);
    assert(page_name(i) =~= "page_"@ + (four_digits(a) + ".png"@));
    assert(page_name(j) =~= "page_"@ + (four_digits(b) + ".png"@));
    lemma_lex_prefix("page_"@, four_digits(a) + ".png"@, four_digits(b) + ".png"@);
    let tail_i = four_digits(a) + ".png"@;
    let tail_j = four_digits(b) + ".png"@;
    if page_name(i) == page_name(j) {
        assert(("page_"@ + tail_i).subrange(5, page_name(i).len() as int) =~= tail_i) by {
            reveal_strlit("page_");
        }
        assert(("page_"@ + tail_j).subrange(5, page_name(j).len() as int) =~= tail_j) by {
            reveal_strlit("page_");
        }
    }
}

/// Why the native PDF library cannot be used.
#[derive(Clone, Debug, PartialEq, Eq)]
pub enum PdfiumSymbolError {
    /// `FPDF_CloseDocument`, which every opened document needs, is missing.
    CloseDocumentMissing,
    /// These other symbols are missing, in the order they were looked up.
    Missing(Vec<String>),
}

/// The names among the first `n` whose symbol was not found, in order.
pub open spec fn missing_names(names: Seq<Seq<char>>, found: Seq<bool>, n: int) -> Seq<Seq<char>>
    decreases n,
{
    if n <= 0 {
        Seq::empty()
    } else if found[n - 1] {
        missing_names(names, found, n - 1)
    } else {
        missing_names(names, found, n - 1).push(names[n - 1])
    }
}

/// Decides whether the native PDF library can be used, from whether
/// `FPDF_CloseDocument` was found and, for each other symbol looked up in
/// `names`, whether it was found. A missing `FPDF_CloseDocument` is reported
/// on its own; otherwise every missing symbol is listed.
pub fn check_pdfium_symbols(close_document_found: bool, names: &Vec<String>, found: &Vec<bool>) -> (r: Result<(), PdfiumSymbolError>)
    requires
        names.len() == found.len(),
    ensures
        !close_document_found ==> r matches Err(PdfiumSymbolError::CloseDocumentMissing),
        close_document_found ==> match r {
            Ok(()) => missing_names(names.deep_view(), found@, names.len() as int).len() == 0,
            Err(PdfiumSymbolError::Missing(m)) => m.deep_view() == missing_names(
                names.deep_view(),
                found@,
                names.len() as int,
            ) && m.len() > 0,
            Err(PdfiumSymbolError::CloseDocumentMissing) => false,
        },
{
    if !close_document_found {
        return Err(PdfiumSymbolError::CloseDocumentMissing);
    }
    let ghost nv = names.deep_view();
    let mut missing: Vec<String> = Vec::new();
    let mut i: usize = 0;
    while i < names.len()
        invariant
            nv == names.deep_view(),
            names.len() == found.len(),
            i <= names.len(),
            missing.deep_view() == missing_names(nv, found@, i as int),
        decreases names.len() - i,
    {
        if !found[i] {
            let ghost before = missing.deep_view();
            missing.push(names[i].clone());
            assert(missing.deep_view() =~= before.push(nv[i as int]));
        }
        i = i + 1;
    }
    if missing.len() == 0 {
        Ok(())
    } else {
        Err(PdfiumSymbolError::Missing(missing))
    }
}

} // verus!
