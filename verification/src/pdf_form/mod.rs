//! What the PDF form tools report, how they decode PDF text strings and
//! read and fill XFA form data, and the font names they use.
use vstd::prelude::*;
use crate::text::{chars_of, contains, contains_seq, lossy_text, string_of, trim, trim_chars, utf8_lossy};

pub mod acroform;
pub mod xfa;
pub mod fields;

verus! {

// ---------------------------------------------------------------------------
// PDF text strings
// ---------------------------------------------------------------------------

/// UTF-16 decoding: a unit outside the surrogate range stands for itself, a
/// high surrogate followed by a low one for the supplementary character they
/// encode; any other surrogate makes the whole input invalid.
pub open spec fn utf16_decode(u: Seq<u16>) -> Option<Seq<char>>
    decreases u.len(),
{
    if u.len() == 0 {
        Some(Seq::empty())
    } else if u[0] < 0xD800 || u[0] > 0xDFFF {
        match utf16_decode(u.drop_first()) {
            Some(rest) => Some(seq![u[0] as char] + rest),
            None => None,
        }
    } else if u[0] <= 0xDBFF && u.len() >= 2 && 0xDC00 <= u[1] <= 0xDFFF {
        match utf16_decode(u.subrange(2, u.len() as int)) {
            Some(rest) => Some(seq![(0x10000 + (u[0] - 0xD800) * 0x400 + (u[1] - 0xDC00)) as char] + rest),
            None => None,
        }
    } else {
        None
    }
}

/// Calls `String::from_utf16`, which decodes UTF-16 and fails on invalid
/// data, as its documentation states.
#[verifier::external_body]
fn utf16_text(units: &[u16]) -> (r: Option<String>)
    ensures
        match r {
            Some(s) => utf16_decode(units@) == Some(s@),
            None => utf16_decode(units@) is None,
        },
{
    String::from_utf16(units).ok()
}

/// The 16-bit units of some bytes taken in pairs, big-endian or
/// little-endian; a last odd byte is dropped.
pub open spec fn units_of(b: Seq<u8>, big_endian: bool) -> Seq<u16> {
    Seq::new(b.len() / 2, |i: int| if big_endian {
        (b[2 * i] * 256 + b[2 * i + 1]) as u16
    } else {
        (b[2 * i + 1] * 256 + b[2 * i]) as u16
    })
}

/// The text of a PDF string: UTF-16 after a byte-order mark (with at least
/// one more unit's room), decoded leniently as UTF-8 otherwise or when the
/// UTF-16 is invalid.
pub open spec fn pdf_text(b: Seq<u8>) -> Seq<char> {
    let bom = if b.len() >= 4 && b[0] == 0xFE && b[1] == 0xFF {
        Some(true)
    } else if b.len() >= 4 && b[0] == 0xFF && b[1] == 0xFE {
        Some(false)
    } else {
        None
    };
    match bom {
        Some(big_endian) => match utf16_decode(units_of(b.subrange(2, b.len() as int), big_endian)) {
            Some(t) => t,
            None => lossy_text(b),
        },
        None => lossy_text(b),
    }
}

fn units(b: &[u8], big_endian: bool) -> (r: Vec<u16>)
    requires
        b@.len() >= 2,
    ensures
        r@ == units_of(b@.subrange(2, b@.len() as int), big_endian),
{
    let ghost rest = b@.subrange(2, b@.len() as int);
    let mut r: Vec<u16> = Vec::new();
    let mut i: usize = 2;
    while i + 1 < b.len()
        invariant
            2 <= i <= b@.len(),
            (i - 2) % 2 == 0,
            rest == b@.subrange(2, b@.len() as int),
            r@.len() == (i - 2) / 2,
            forall|k: int| 0 <= k < r@.len() ==> #[trigger] r@[k] == units_of(rest, big_endian)[k],
        decreases b@.len() - i,
    {
        let hi: u16 = if big_endian { b[i] as u16 } else { b[i + 1] as u16 };
        let lo: u16 = if big_endian { b[i + 1] as u16 } else { b[i] as u16 };
        let u: u16 = hi * 256 + lo;
        proof {
            let k = (i - 2) / 2;
            assert(rest[2 * k] == b@[i as int]);
            assert(rest[2 * k + 1] == b@[i + 1]);
        }
        r.push(u);
        i = i + 2;
    }
    proof {
        assert(r@ =~= units_of(rest, big_endian));
    }
    r
}

/// Decodes a PDF string or name: UTF-16 (big- or little-endian) after its
/// byte-order mark, lossy UTF-8 otherwise.
pub fn decode_pdf_string(bytes: &[u8]) -> (r: String)
    ensures
        r@ == pdf_text(bytes@),
{
    let n = bytes.len();
    if n >= 4 && ((bytes[0] == 0xFE && bytes[1] == 0xFF) || (bytes[0] == 0xFF && bytes[1] == 0xFE)) {
        let big_endian = bytes[0] == 0xFE;
        let us = units(bytes, big_endian);
        match utf16_text(us.as_slice()) {
            Some(s) => s,
            None => utf8_lossy(bytes),
        }
    } else {
        utf8_lossy(bytes)
    }
}

pub struct FieldInfo {
    pub name: String,
    pub field_type: String,
    pub current_value: Option<String>,
}

/// The outcome of filling a form.
pub struct FillFormResult {
    pub status: String,
    pub filled_field_count: usize,
    pub output_path: String,
}

/// Fills and inspects the form fields of PDF documents.
pub struct PdfFormFiller;

impl PdfFormFiller {
    pub fn new() -> (r: PdfFormFiller) {
        PdfFormFiller
    }
}

/// The outcome of writing text onto a flat PDF.
pub struct FlatFillResult {
    pub status: String,
    pub inserted_text_count: usize,
    pub output_path: String,
    pub pages_modified: Vec<u32>,
}

/// Writes text onto PDFs that have no form fields.
pub struct FlatPdfFiller;

impl FlatPdfFiller {
    pub fn new() -> (r: FlatPdfFiller) {
        FlatPdfFiller
    }
}

/// The standard PDF font a form's default-appearance font name stands for;
/// an unknown name stands for itself.
pub open spec fn font_for(da_name: Seq<char>) -> Seq<char> {
    if da_name == "Helv"@ || da_name == "Helvetica"@ || da_name == "HeBo"@ {
        "Helvetica"@
    } else if da_name == "TiRo"@ || da_name == "TimesNewRoman"@ || da_name == "Times-Roman"@ {
        "Times-Roman"@
    } else if da_name == "Cour"@ || da_name == "Courier"@ {
        "Courier"@
    } else if da_name == "ZaDb"@ {
        "ZapfDingbats"@
    } else if da_name == "Symb"@ {
        "Symbol"@
    } else {
        da_name
    }
}

/// The standard PDF font a form's default-appearance font name stands for.
pub fn map_font_name(da_name: &str) -> (r: String)
    ensures
        r@ == font_for(da_name@),
{
    let eq = |a: &str, b: &str| -> (r: bool)
        ensures
            r == (a@ == b@),
    { crate::text::str_eq(a, b) };
    if eq(da_name, "Helv") || eq(da_name, "Helvetica") || eq(da_name, "HeBo") {
        "Helvetica".to_owned()
    } else if eq(da_name, "TiRo") || eq(da_name, "TimesNewRoman") || eq(da_name, "Times-Roman") {
        "Times-Roman".to_owned()
    } else if eq(da_name, "Cour") || eq(da_name, "Courier") {
        "Courier".to_owned()
    } else if eq(da_name, "ZaDb") {
        "ZapfDingbats".to_owned()
    } else if eq(da_name, "Symb") {
        "Symbol".to_owned()
    } else {
        da_name.to_owned()
    }
}

/// The font of a text overlay that names none.
pub fn default_font_name() -> (r: String)
    ensures
        r@ == "Helvetica"@,
{
    "Helvetica".to_owned()
}

// ---------------------------------------------------------------------------
// Page texts
// ---------------------------------------------------------------------------

/// Where text extraction stands: the pages found so far (number and
/// trimmed text) and the text of the page being read.
pub struct PageScan {
    pub pages: Seq<(u32, Seq<char>)>,
    pub current: Seq<char>,
}

/// One extracted piece: a piece with a line break, after some text, closes
/// the page being read; failed pieces are skipped.
pub open spec fn page_step(st: PageScan, chunk: Option<Seq<char>>) -> PageScan {
    match chunk {
        Some(t) => if st.current.len() > 0 && contains_seq(t, "\n"@) {
            PageScan { pages: st.pages.push(((st.pages.len() + 1) as u32, trim(st.current))), current: t }
        } else {
            PageScan { current: st.current + t, ..st }
        },
        None => st,
    }
}

pub open spec fn page_run(chunks: Seq<Option<Seq<char>>>) -> PageScan
    decreases chunks.len(),
{
    if chunks.len() == 0 {
        PageScan { pages: Seq::empty(), current: Seq::empty() }
    } else {
        page_step(page_run(chunks.drop_last()), chunks.last())
    }
}

/// The pages of extracted text, numbered from 1: the pieces in order, a
/// new page at each piece with a line break that follows some text, each
/// page's text trimmed.
pub open spec fn page_texts_of(chunks: Seq<Option<Seq<char>>>) -> Seq<(u32, Seq<char>)> {
    let st = page_run(chunks);
    if st.current.len() > 0 {
        st.pages.push(((st.pages.len() + 1) as u32, trim(st.current)))
    } else {
        st.pages
    }
}

pub open spec fn chunks_view(v: Seq<Option<String>>) -> Seq<Option<Seq<char>>> {
    v.map_values(|c: Option<String>| match c {
        Some(s) => Some(s@),
        None => None,
    })
}

pub open spec fn pages_view(v: Seq<(u32, String)>) -> Seq<(u32, Seq<char>)> {
    v.map_values(|p: (u32, String)| (p.0, p.1@))
}

/// The texts of the pages of a PDF from the pieces its text extraction
/// yields (`None` for a piece that failed).
pub fn page_texts(chunks: &Vec<Option<String>>) -> (r: Vec<(u32, String)>)
    requires
        chunks@.len() < u32::MAX,
    ensures
        pages_view(r@) == page_texts_of(chunks_view(chunks@)),
{
    let ghost cv = chunks_view(chunks@);
    let nl = chars_of("\n");
    let mut pages: Vec<(u32, String)> = Vec::new();
    let mut current: Vec<char> = Vec::new();
    let mut i: usize = 0;
    proof {
        assert(cv.take(0) =~= Seq::<Option<Seq<char>>>::empty());
        assert(pages_view(pages@) =~= Seq::<(u32, Seq<char>)>::empty());
        assert(current@ =~= Seq::<char>::empty());
    }
    while i < chunks.len()
        invariant
            i <= chunks@.len(),
            chunks@.len() < u32::MAX,
            cv == chunks_view(chunks@),
            nl@ == "\n"@,
            pages@.len() <= i,
            pages_view(pages@) == page_run(cv.take(i as int)).pages,
            current@ == page_run(cv.take(i as int)).current,
        decreases chunks@.len() - i,
    {
        proof {
            assert(cv.take(i + 1).drop_last() =~= cv.take(i as int));
            assert(cv.take(i + 1).last() == cv[i as int]);
        }
        match &chunks[i] {
            Some(t) => {
                let tc = chars_of(t.as_str());
                if current.len() > 0 && contains(&tc, &nl) {
                    let n = (pages.len() + 1) as u32;
                    let ghost before = pages_view(pages@);
                    pages.push((n, string_of(&trim_chars(&current))));
                    proof {
                        assert(pages_view(pages@) =~= before.push((n, trim(current@))));
                    }
                    current = tc;
                } else {
                    let ghost c0 = current@;
                    let mut k: usize = 0;
                    while k < tc.len()
                        invariant
                            k <= tc@.len(),
                            current@ == c0 + tc@.take(k as int),
                        decreases tc@.len() - k,
                    {
                        current.push(tc[k]);
                        k = k + 1;
                        proof {
                            assert(current@ =~= c0 + tc@.take(k as int));
                        }
                    }
                    proof {
                        assert(tc@.take(tc@.len() as int) =~= tc@);
                    }
                }
            },
            None => {},
        }
        i = i + 1;
    }
    proof {
        assert(cv.take(chunks@.len() as int) =~= cv);
    }
    if current.len() > 0 {
        let n = (pages.len() + 1) as u32;
        let ghost before = pages_view(pages@);
        pages.push((n, string_of(&trim_chars(&current))));
        proof {
            assert(pages_view(pages@) =~= before.push((n, trim(current@))));
        }
    }
    pages
}

// ---------------------------------------------------------------------------
// After filling
// ---------------------------------------------------------------------------

/// The outcome of filling a form: an error where the form has neither XFA
/// data nor fields and nothing was filled; else whether viewers are asked
/// to regenerate appearances (something was filled, or the form has
/// fields).
pub fn fill_outcome(has_xfa: bool, has_fields: bool, filled: u64) -> (r: Result<bool, String>)
    ensures
        filled == 0 && !has_xfa && !has_fields ==> (r matches Err(m)
            && m@ == "PDF has no recognized form fields (no XFA or Fields found in AcroForm)"@),
        !(filled == 0 && !has_xfa && !has_fields) ==> (r matches Ok(b) && b == (filled > 0 || has_fields)),
{
    if filled == 0 && !has_xfa && !has_fields {
        Err("PDF has no recognized form fields (no XFA or Fields found in AcroForm)".to_owned())
    } else {
        Ok(filled > 0 || has_fields)
    }
}

} // verus!
