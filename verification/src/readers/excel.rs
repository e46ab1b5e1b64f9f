use vstd::prelude::*;
use crate::text::{decimal, join, join_strings, push_str, strings_view, u64_to_string, str_eq};
use crate::numeric::{float_literal, is_float_literal};
use crate::json::{number_text, push_number, JsonValue};
use crate::text::{
    chars_of, count_matches, count_occ, replace_all, replace_all_chars, string_of, trim, trim_chars,
};
use crate::diff::document_diff::{lowercase, to_lowercase};

verus! {

/// A cell's text.
pub struct CellValue(pub String);

impl CellValue {
    pub fn as_str(&self) -> (r: &str)
        ensures
            r@ == self.0@,
    {
        self.0.as_str()
    }

    pub fn is_empty(&self) -> (b: bool)
        ensures
            b == (self.0@.len() == 0),
    {
        self.0.unicode_len() == 0
    }
}

pub struct NamedRangeInfo {
    pub name: String,
    pub range: String,
}

pub struct ExcelReader;

/// A worksheet as read, its data cells already shown as text.
pub struct SheetView {
    pub name: String,
    pub dimensions: String,
    pub row_count: usize,
    pub column_count: usize,
    pub header_row: Vec<String>,
    pub rows: Vec<Vec<String>>,
    pub column_types: Vec<String>,
}

/// A workbook as read.
pub struct ExcelView {
    pub format: String,
    pub file: String,
    pub sheets: Vec<SheetView>,
    pub named_ranges: Vec<NamedRangeInfo>,
}

pub open spec fn total_rows(sheets: Seq<SheetView>) -> nat
    decreases sheets.len(),
{
    if sheets.len() == 0 {
        0
    } else {
        total_rows(sheets.drop_last()) + sheets.last().rows@.len()
    }
}

/// `` `<header>`: <type> `` for column `i`, the header empty past the header row.
pub open spec fn type_entry(s: SheetView, i: int) -> Seq<char> {
    let h = if i < s.header_row@.len() { s.header_row@[i]@ } else { Seq::empty() };
    seq!['`'] + h + "`: "@ + s.column_types@[i]@
}

pub open spec fn type_entries(s: SheetView) -> Seq<Seq<char>> {
    Seq::new(s.column_types@.len(), |i: int| type_entry(s, i))
}

pub open spec fn table_row(cells: Seq<Seq<char>>) -> Seq<char>
    decreases cells.len(),
{
    if cells.len() == 0 {
        seq!['|']
    } else {
        table_row(cells.drop_last()) + seq![' '] + cells.last() + " |"@
    }
}

pub open spec fn table_rows(rows: Seq<Seq<Seq<char>>>) -> Seq<char>
    decreases rows.len(),
{
    if rows.len() == 0 {
        Seq::empty()
    } else {
        table_rows(rows.drop_last()) + table_row(rows.last()) + seq!['\n']
    }
}

/// A Markdown table: the header, the alignment row, the data rows.
pub open spec fn sheet_table(s: SheetView) -> Seq<char> {
    if s.header_row@.len() == 0 {
        Seq::empty()
    } else {
        table_row(strings_view(s.header_row@)) + seq!['\n']
            + table_row(Seq::new(s.header_row@.len(), |i: int| ":-"@)) + seq!['\n']
            + table_rows(s.rows@.map_values(|r: Vec<String>| strings_view(r@)))
    }
}

/// A sheet in Markdown: its name as a heading, its dimensions and column
/// types as a quote, its table, and a rule.
pub open spec fn sheet_md(s: SheetView) -> Seq<char> {
    "# "@ + s.name@ + "\n\n"@ + "> *Dimensions: "@ + s.dimensions@ + " · "@ + decimal(s.row_count as nat)
        + " rows × "@ + decimal(s.column_count as nat) + " columns*  \n"@ + types_md(s) + seq!['\n']
        + sheet_table(s) + "\n---\n\n"@
}

pub open spec fn sheets_md(sheets: Seq<SheetView>) -> Seq<char>
    decreases sheets.len(),
{
    if sheets.len() == 0 {
        Seq::empty()
    } else {
        sheets_md(sheets.drop_last()) + sheet_md(sheets.last())
    }
}

pub open spec fn ranges_md(rs: Seq<NamedRangeInfo>) -> Seq<char>
    decreases rs.len(),
{
    if rs.len() == 0 {
        Seq::empty()
    } else {
        ranges_md(rs.drop_last()) + "- **"@ + rs.last().name@ + "**: `"@ + rs.last().range@ + "`\n"@
    }
}

/// A workbook in Markdown: a front matter with its format, file, sheet
/// count and row total; each sheet; and its named ranges, if any.
pub open spec fn workbook_md(w: ExcelView) -> Seq<char> {
    "---\nformat: "@ + w.format@ + "\nfile: "@ + w.file@ + "\nsheets: "@ + decimal(w.sheets@.len())
        + "\ntotal_rows: "@ + decimal(total_rows(w.sheets@)) + "\n---\n\n"@ + sheets_md(w.sheets@)
        + if w.named_ranges@.len() == 0 {
        Seq::empty()
    } else {
        "## Named Ranges\n\n"@ + ranges_md(w.named_ranges@) + seq!['\n']
    }
}

fn push_row(md: &mut String, cells: &Vec<String>)
    ensures
        final(md)@ == old(md)@ + table_row(strings_view(cells@)),
{
    let ghost cv = strings_view(cells@);
    let ghost start = old(md)@;
    md.push('|');
    let mut i: usize = 0;
    proof {
        assert(cv.take(0) =~= Seq::<Seq<char>>::empty());
    }
    while i < cells.len()
        invariant
            i <= cells@.len(),
            cv == strings_view(cells@),
            md@ == start + table_row(cv.take(i as int)),
        decreases cells@.len() - i,
    {
        proof {
            assert(cv.take(i + 1).drop_last() =~= cv.take(i as int));
            assert(cv.take(i + 1).last() == cells@[i as int]@);
        }
        md.push(' ');
        push_str(md, cells[i].as_str());
        push_str(md, " |");
        i = i + 1;
    }
    proof {
        assert(cv.take(cells@.len() as int) =~= cv);
    }
}

pub open spec fn types_md(s: SheetView) -> Seq<char> {
    if s.column_types@.len() == 0 {
        Seq::empty()
    } else {
        "> *Column types: "@ + join(type_entries(s), ", "@) + "*  \n"@
    }
}

fn push_types(md: &mut String, s: &SheetView)
    ensures
        final(md)@ == old(md)@ + types_md(*s),
{
    let ghost head = md@;
    if s.column_types.len() > 0 {
        push_str(md, "> *Column types: ");
        let mut entries: Vec<String> = Vec::new();
        let mut i: usize = 0;
        while i < s.column_types.len()
            invariant
                i <= s.column_types@.len(),
                strings_view(entries@) == type_entries(*s).take(i as int),
            decreases s.column_types@.len() - i,
        {
            let mut e = String::new();
            e.push('`');
            if i < s.header_row.len() {
                push_str(&mut e, s.header_row[i].as_str());
            }
            push_str(&mut e, "`: ");
            push_str(&mut e, s.column_types[i].as_str());
            let ghost before = strings_view(entries@);
            proof {
                assert(e@ =~= type_entry(*s, i as int));
            }
            entries.push(e);
            proof {
                assert(strings_view(entries@) =~= before.push(type_entry(*s, i as int)));
                assert(type_entries(*s).take(i + 1) =~= type_entries(*s).take(i as int).push(type_entry(*s, i as int)));
            }
            i = i + 1;
        }
        proof {
            assert(type_entries(*s).take(s.column_types@.len() as int) =~= type_entries(*s));
        }
        let joined = join_strings(&entries, ", ");
        push_str(md, joined.as_str());
        push_str(md, "*  \n");
    }
    proof {
        assert(md@ =~= old(md)@ + types_md(*s));
    }
}

fn push_table(md: &mut String, s: &SheetView)
    ensures
        final(md)@ == old(md)@ + sheet_table(*s),
{
    if s.header_row.len() > 0 {
        push_row(md, &s.header_row);
        md.push('\n');
        let mut aligns: Vec<String> = Vec::new();
        let mut i: usize = 0;
        while i < s.header_row.len()
            invariant
                i <= s.header_row@.len(),
                strings_view(aligns@) == Seq::new(i as nat, |j: int| ":-"@),
            decreases s.header_row@.len() - i,
        {
            let ghost before = strings_view(aligns@);
            let a = ":-".to_owned();
            aligns.push(a);
            proof {
                assert(strings_view(aligns@) =~= before.push(a@));
                assert(Seq::new((i + 1) as nat, |j: int| ":-"@) =~= Seq::new(i as nat, |j: int| ":-"@).push(":-"@));
            }
            i = i + 1;
        }
        push_row(md, &aligns);
        md.push('\n');
        let ghost rv = s.rows@.map_values(|r: Vec<String>| strings_view(r@));
        let ghost tstart = md@;
        let mut r: usize = 0;
        proof {
            assert(rv.take(0) =~= Seq::<Seq<Seq<char>>>::empty());
        }
        while r < s.rows.len()
            invariant
                r <= s.rows@.len(),
                rv == s.rows@.map_values(|r: Vec<String>| strings_view(r@)),
                md@ == tstart + table_rows(rv.take(r as int)),
            decreases s.rows@.len() - r,
        {
            proof {
                assert(rv.take(r + 1).drop_last() =~= rv.take(r as int));
                assert(rv.take(r + 1).last() == strings_view(s.rows@[r as int]@));
            }
            push_row(md, &s.rows[r]);
            md.push('\n');
            r = r + 1;
        }
        proof {
            assert(rv.take(s.rows@.len() as int) =~= rv);
        }
    }
    proof {
        assert(md@ =~= old(md)@ + sheet_table(*s));
    }
}

fn push_sheet(md: &mut String, s: &SheetView)
    ensures
        final(md)@ == old(md)@ + sheet_md(*s),
{
    let ghost start = old(md)@;
    push_str(md, "# ");
    push_str(md, s.name.as_str());
    push_str(md, "\n\n");
    push_str(md, "> *Dimensions: ");
    push_str(md, s.dimensions.as_str());
    push_str(md, " · ");
    let rc = u64_to_string(s.row_count as u64);
    push_str(md, rc.as_str());
    push_str(md, " rows × ");
    let cc = u64_to_string(s.column_count as u64);
    push_str(md, cc.as_str());
    push_str(md, " columns*  \n");
    push_types(md, s);
    md.push('\n');
    push_table(md, s);
    push_str(md, "\n---\n\n");
    proof {
        assert(md@ =~= start + sheet_md(*s));
    }
}

impl ExcelReader {
    /// The Markdown rendering of a workbook as read.
    pub fn read_to_md(w: &ExcelView) -> (r: String)
        requires
            total_rows(w.sheets@) <= usize::MAX,
        ensures
            r@ == workbook_md(*w),
    {
        let mut total: usize = 0;
        let mut i: usize = 0;
        proof {
            assert(w.sheets@.take(0) =~= Seq::<SheetView>::empty());
        }
        while i < w.sheets.len()
            invariant
                i <= w.sheets@.len(),
                total_rows(w.sheets@) <= usize::MAX,
                total == total_rows(w.sheets@.take(i as int)),
            decreases w.sheets@.len() - i,
        {
            proof {
                assert(w.sheets@.take(i + 1).drop_last() =~= w.sheets@.take(i as int));
                lemma_total_rows_prefix(w.sheets@, i + 1);
            }
            total = total + w.sheets[i].rows.len();
            i = i + 1;
        }
        proof {
            assert(w.sheets@.take(w.sheets@.len() as int) =~= w.sheets@);
        }
        let mut md = String::new();
        push_str(&mut md, "---\nformat: ");
        push_str(&mut md, w.format.as_str());
        push_str(&mut md, "\nfile: ");
        push_str(&mut md, w.file.as_str());
        push_str(&mut md, "\nsheets: ");
        let n = u64_to_string(w.sheets.len() as u64);
        push_str(&mut md, n.as_str());
        push_str(&mut md, "\ntotal_rows: ");
        let t = u64_to_string(total as u64);
        push_str(&mut md, t.as_str());
        push_str(&mut md, "\n---\n\n");
        let ghost head = md@;
        let mut k: usize = 0;
        while k < w.sheets.len()
            invariant
                k <= w.sheets@.len(),
                md@ == head + sheets_md(w.sheets@.take(k as int)),
            decreases w.sheets@.len() - k,
        {
            proof {
                assert(w.sheets@.take(k + 1).drop_last() =~= w.sheets@.take(k as int));
            }
            push_sheet(&mut md, &w.sheets[k]);
            k = k + 1;
        }
        proof {
            assert(w.sheets@.take(w.sheets@.len() as int) =~= w.sheets@);
        }
        let ghost body = md@;
        if w.named_ranges.len() > 0 {
            push_str(&mut md, "## Named Ranges\n\n");
            let ghost rstart = md@;
            let mut j: usize = 0;
            proof {
                assert(w.named_ranges@.take(0) =~= Seq::<NamedRangeInfo>::empty());
            }
            while j < w.named_ranges.len()
                invariant
                    j <= w.named_ranges@.len(),
                    md@ == rstart + ranges_md(w.named_ranges@.take(j as int)),
                decreases w.named_ranges@.len() - j,
            {
                proof {
                    assert(w.named_ranges@.take(j + 1).drop_last() =~= w.named_ranges@.take(j as int));
                }
                push_str(&mut md, "- **");
                push_str(&mut md, w.named_ranges[j].name.as_str());
                push_str(&mut md, "**: `");
                push_str(&mut md, w.named_ranges[j].range.as_str());
                push_str(&mut md, "`\n");
                j = j + 1;
            }
            proof {
                assert(w.named_ranges@.take(w.named_ranges@.len() as int) =~= w.named_ranges@);
            }
            md.push('\n');
        }
        proof {
            assert(md@ =~= workbook_md(*w));
        }
        md
    }
}

proof fn lemma_total_rows_prefix(sheets: Seq<SheetView>, k: int)
    requires
        0 <= k <= sheets.len(),
    ensures
        total_rows(sheets.take(k)) <= total_rows(sheets),
    decreases sheets.len() - k,
{
    if k < sheets.len() {
        lemma_total_rows_prefix(sheets, k + 1);
        assert(sheets.take(k + 1).drop_last() =~= sheets.take(k));
    } else {
        assert(sheets.take(k) =~= sheets);
    }
}

// ---------------------------------------------------------------------------
// Merged cells and header rows
// ---------------------------------------------------------------------------

/// Whether a cell lies in one of the merged regions (first row, first
/// column, last row, last column, all inclusive).
pub open spec fn in_merged(regions: Seq<(u32, u32, u32, u32)>, row: u32, col: u32) -> bool {
    exists|k: int| 0 <= k < regions.len() && (#[trigger] regions[k]).0 <= row <= regions[k].2
        && regions[k].1 <= col <= regions[k].3
}

pub fn merged_contains(regions: &[(u32, u32, u32, u32)], row: u32, col: u32) -> (b: bool)
    ensures
        b == in_merged(regions@, row, col),
{
    let mut k: usize = 0;
    while k < regions.len()
        invariant
            k <= regions@.len(),
            forall|j: int| 0 <= j < k ==> !((#[trigger] regions@[j]).0 <= row <= regions@[j].2 && regions@[j].1 <= col <= regions@[j].3),
        decreases regions@.len() - k,
    {
        let (r0, c0, r1, c1) = regions[k];
        if row >= r0 && row <= r1 && col >= c0 && col <= c1 {
            return true;
        }
        k = k + 1;
    }
    false
}

/// The texts of the non-empty cells of a row.
pub open spec fn filled(row: Seq<CellValue>) -> Seq<Seq<char>>
    decreases row.len(),
{
    if row.len() == 0 {
        Seq::empty()
    } else {
        filled(row.drop_last()) + if row.last().0@.len() == 0 {
            Seq::<Seq<char>>::empty()
        } else {
            seq![row.last().0@]
        }
    }
}

/// How many of the texts are not numbers (`str::parse::<f64>` fails).
pub open spec fn non_numeric(v: Seq<Seq<char>>) -> nat
    decreases v.len(),
{
    if v.len() == 0 {
        0
    } else {
        non_numeric(v.drop_last()) + if float_literal(v.last()) { 0nat } else { 1nat }
    }
}

/// How many distinct texts there are: those not seen earlier.
pub open spec fn distinct_count(v: Seq<Seq<char>>) -> nat
    decreases v.len(),
{
    if v.len() == 0 {
        0
    } else {
        distinct_count(v.drop_last()) + if v.drop_last().contains(v.last()) { 0nat } else { 1nat }
    }
}

/// A header row: at least two filled cells, at least half of them not
/// numbers and at least half of them distinct.
pub open spec fn header_like(row: Seq<CellValue>) -> bool {
    let f = filled(row);
    f.len() >= 2 && 2 * non_numeric(f) >= f.len() && 2 * distinct_count(f) >= f.len()
}

/// The first header-like row, or row 0 when there is none.
pub open spec fn header_index(rows: Seq<Seq<CellValue>>, from: int) -> int
    decreases rows.len() - from,
{
    if from >= rows.len() || from < 0 {
        0
    } else if header_like(rows[from]) {
        from
    } else {
        header_index(rows, from + 1)
    }
}

fn filled_texts(row: &Vec<CellValue>) -> (r: Vec<String>)
    ensures
        strings_view(r@) == filled(row@),
{
    let mut r: Vec<String> = Vec::new();
    let mut i: usize = 0;
    proof {
        assert(row@.take(0) =~= Seq::<CellValue>::empty());
    }
    while i < row.len()
        invariant
            i <= row@.len(),
            strings_view(r@) == filled(row@.take(i as int)),
        decreases row@.len() - i,
    {
        proof {
            assert(row@.take(i + 1).drop_last() =~= row@.take(i as int));
            assert(row@.take(i + 1).last() == row@[i as int]);
        }
        if !row[i].is_empty() {
            let ghost before = strings_view(r@);
            let s = row[i].0.clone();
            r.push(s);
            proof {
                assert(strings_view(r@) =~= before.push(s@));
            }
        }
        i = i + 1;
    }
    proof {
        assert(row@.take(row@.len() as int) =~= row@);
    }
    r
}

fn seen_before(f: &Vec<String>, i: usize) -> (b: bool)
    requires
        i < f@.len(),
    ensures
        b == strings_view(f@).take(i as int).contains(f@[i as int]@),
{
    let ghost prev = strings_view(f@).take(i as int);
    let mut j: usize = 0;
    while j < i
        invariant
            j <= i,
            i < f@.len(),
            prev == strings_view(f@).take(i as int),
            forall|m: int| 0 <= m < j ==> prev[m] != f@[i as int]@,
        decreases i - j,
    {
        if str_eq(f[j].as_str(), f[i].as_str()) {
            assert(prev[j as int] == f@[i as int]@);
            return true;
        }
        j = j + 1;
    }
    false
}

fn looks_like_header(row: &Vec<CellValue>) -> (b: bool)
    ensures
        b == header_like(row@),
{
    let f = filled_texts(row);
    let ghost fv = strings_view(f@);
    let mut nn: usize = 0;
    let mut dc: usize = 0;
    let mut i: usize = 0;
    proof {
        assert(fv.take(0) =~= Seq::<Seq<char>>::empty());
    }
    while i < f.len()
        invariant
            i <= f@.len(),
            fv == strings_view(f@),
            nn == non_numeric(fv.take(i as int)),
            dc == distinct_count(fv.take(i as int)),
            nn <= i,
            dc <= i,
        decreases f@.len() - i,
    {
        proof {
            assert(fv.take(i + 1).drop_last() =~= fv.take(i as int));
            assert(fv.take(i + 1).last() == fv[i as int]);
        }
        if !is_float_literal(f[i].as_str()) {
            nn = nn + 1;
        }
        let seen = seen_before(&f, i);
        if !seen {
            dc = dc + 1;
        }
        i = i + 1;
    }
    proof {
        assert(fv.take(f@.len() as int) =~= fv);
    }
    f.len() >= 2 && nn >= f.len() - nn && dc >= f.len() - dc
}

/// The index of the header row: the first row with at least two filled
/// cells of which at least half are not numbers and at least half are
/// distinct; row 0 when no row qualifies.
pub fn detect_header_row(rows: &Vec<Vec<CellValue>>) -> (r: usize)
    ensures
        r == header_index(rows@.map_values(|v: Vec<CellValue>| v@), 0),
{
    let ghost rv = rows@.map_values(|v: Vec<CellValue>| v@);
    let mut i: usize = 0;
    while i < rows.len()
        invariant
            i <= rows@.len(),
            rv == rows@.map_values(|v: Vec<CellValue>| v@),
            header_index(rv, 0) == header_index(rv, i as int),
        decreases rows@.len() - i,
    {
        if looks_like_header(&rows[i]) {
            return i;
        }
        i = i + 1;
    }
    0
}

// ---------------------------------------------------------------------------
// Column types
// ---------------------------------------------------------------------------

/// The text a cell's value reads as when its column's type is inferred:
/// strings as they are, numbers and booleans as written, anything else
/// empty.
pub open spec fn value_text(v: JsonValue) -> Seq<char> {
    match v {
        JsonValue::Str(s) => s@,
        JsonValue::Number(n) => number_text(n),
        JsonValue::Bool(b) => if b { "true"@ } else { "false"@ },
        _ => Seq::empty(),
    }
}

/// The non-empty texts of column `ci`, row by row (rows too short to have
/// the column left out).
pub open spec fn column_texts(rows: Seq<Seq<JsonValue>>, ci: int) -> Seq<Seq<char>>
    decreases rows.len(),
{
    if rows.len() == 0 {
        Seq::empty()
    } else {
        column_texts(rows.drop_last(), ci) + if 0 <= ci < rows.last().len() && value_text(rows.last()[ci]).len() > 0 {
            seq![value_text(rows.last()[ci])]
        } else {
            Seq::<Seq<char>>::empty()
        }
    }
}

/// The length of the longest row.
pub open spec fn max_width(rows: Seq<Seq<JsonValue>>) -> nat
    decreases rows.len(),
{
    if rows.len() == 0 {
        0
    } else if max_width(rows.drop_last()) >= rows.last().len() {
        max_width(rows.drop_last())
    } else {
        rows.last().len()
    }
}

pub open spec fn without_commas(s: Seq<char>) -> Seq<char> {
    replace_all(s, ","@, Seq::empty())
}

/// A money amount: after trimming, a currency sign and then a number
/// (thousands separators allowed).
pub open spec fn is_currency_text(v: Seq<char>) -> bool {
    let s = trim(v);
    s.len() > 0 && (s[0] == '$' || s[0] == '\u{20ac}' || s[0] == '\u{a3}') && float_literal(without_commas(s.drop_first()))
}

pub open spec fn is_pct_text(v: Seq<char>) -> bool {
    v.len() > 0 && v.last() == '%'
}

/// One or more ASCII digits.
pub open spec fn ascii_digits(b: Seq<u8>) -> bool {
    b.len() > 0 && forall|i: int| 0 <= i < b.len() ==> 48 <= #[trigger] b[i] <= 57
}

/// What `str::parse::<i32>` accepts of at most four bytes: an optional sign
/// and digits.
pub open spec fn signed_digits(b: Seq<u8>) -> bool {
    ascii_digits(b) || (b.len() > 0 && (b[0] == 43 || b[0] == 45) && ascii_digits(b.drop_first()))
}

/// What `str::parse::<u32>` accepts of at most two bytes: an optional `+`
/// and digits.
pub open spec fn unsigned_digits(b: Seq<u8>) -> bool {
    ascii_digits(b) || (b.len() > 0 && b[0] == 43 && ascii_digits(b.drop_first()))
}

/// A date `YYYY-MM-DD` as the inference sees it: after trimming, ten bytes
/// with two dashes, a signed number in bytes 0..4 and unsigned ones in
/// bytes 5..7 and 8..10.
pub open spec fn is_date_text(v: Seq<char>) -> bool {
    let s = trim(v);
    let b = vstd::utf8::encode_utf8(s);
    &&& b.len() == 10
    &&& count_occ(s, "-"@) == 2
    &&& signed_digits(b.subrange(0, 4))
    &&& unsigned_digits(b.subrange(5, 7))
    &&& unsigned_digits(b.subrange(8, 10))
}

pub open spec fn is_bool_text(v: Seq<char>) -> bool {
    let l = lowercase(v);
    l == "true"@ || l == "false"@ || l == "yes"@ || l == "no"@
}

pub open spec fn is_number_text(v: Seq<char>) -> bool {
    float_literal(without_commas(v))
}

/// How many of the texts satisfy `p`.
pub open spec fn count_sat(vs: Seq<Seq<char>>, p: spec_fn(Seq<char>) -> bool) -> nat
    decreases vs.len(),
{
    if vs.len() == 0 {
        0
    } else {
        count_sat(vs.drop_last(), p) + if p(vs.last()) { 1nat } else { 0nat }
    }
}

/// At least four in five of the texts satisfy `p`.
pub open spec fn mostly(vs: Seq<Seq<char>>, p: spec_fn(Seq<char>) -> bool) -> bool {
    5 * count_sat(vs, p) >= 4 * vs.len()
}

/// The type of a column from its texts: the first of currency, percentage,
/// date, boolean and number that at least 80% of them have, else string.
pub open spec fn column_type(vs: Seq<Seq<char>>) -> Seq<char> {
    if vs.len() == 0 {
        "string"@
    } else if mostly(vs, |v: Seq<char>| is_currency_text(v)) {
        "currency"@
    } else if mostly(vs, |v: Seq<char>| is_pct_text(v)) {
        "pct"@
    } else if mostly(vs, |v: Seq<char>| is_date_text(v)) {
        "date"@
    } else if mostly(vs, |v: Seq<char>| is_bool_text(v)) {
        "boolean"@
    } else if mostly(vs, |v: Seq<char>| is_number_text(v)) {
        "number"@
    } else {
        "string"@
    }
}

/// Byte `i` of `b` starts a character (or is the end).
pub open spec fn char_start(b: Seq<u8>, i: int) -> bool {
    i == b.len() || (0 <= i < b.len() && (b[i] < 0x80 || b[i] >= 0xC0))
}

/// The inference slices a date candidate at bytes 4, 5, 7 and 8 as far as
/// its checks get; each cut must fall between characters.
pub open spec fn date_cuts_ok(s: Seq<char>) -> bool {
    let b = vstd::utf8::encode_utf8(s);
    (b.len() == 10 && count_occ(s, "-"@) == 2) ==> (char_start(b, 4) && (signed_digits(b.subrange(0, 4)) ==> (
        char_start(b, 5) && char_start(b, 7) && (unsigned_digits(b.subrange(5, 7)) ==> char_start(b, 8)))))
}

/// A text the inference can examine: it does not start (after trimming)
/// with a two- or three-byte currency sign, which it would cut after the
/// first byte, and its date slices fall between characters.
pub open spec fn inferable_text(v: Seq<char>) -> bool {
    let s = trim(v);
    !(s.len() > 0 && (s[0] == '\u{20ac}' || s[0] == '\u{a3}')) && date_cuts_ok(s)
}

pub open spec fn rows_of(rows: Seq<Vec<JsonValue>>) -> Seq<Seq<JsonValue>> {
    rows.map_values(|r: Vec<JsonValue>| r@)
}

/// Every text the inference examines is one it can examine.
pub open spec fn types_inferable(rows: Seq<Seq<JsonValue>>) -> bool {
    forall|ci: int, k: int| 0 <= ci < max_width(rows) && 0 <= k < column_texts(rows, ci).len()
        ==> inferable_text(#[trigger] column_texts(rows, ci)[k])
}

/// The inferred type of each column, one per column of the widest row;
/// none when there are no rows.
pub open spec fn column_types(rows: Seq<Seq<JsonValue>>) -> Seq<Seq<char>> {
    if rows.len() == 0 {
        Seq::empty()
    } else {
        Seq::new(max_width(rows), |ci: int| column_type(column_texts(rows, ci)))
    }
}

fn value_text_exec(v: &JsonValue) -> (r: String)
    ensures
        r@ == value_text(*v),
{
    match v {
        JsonValue::Str(s) => s.clone(),
        JsonValue::Number(n) => {
            let mut out = String::new();
            push_number(&mut out, n);
            out
        },
        JsonValue::Bool(b) => if *b { "true".to_owned() } else { "false".to_owned() },
        _ => String::new(),
    }
}

fn max_width_exec(rows: &Vec<Vec<JsonValue>>) -> (r: usize)
    ensures
        r == max_width(rows_of(rows@)),
{
    let ghost rv = rows_of(rows@);
    let mut w: usize = 0;
    let mut i: usize = 0;
    while i < rows.len()
        invariant
            i <= rows@.len(),
            rv == rows_of(rows@),
            w == max_width(rv.take(i as int)),
        decreases rows@.len() - i,
    {
        proof {
            assert(rv.take(i + 1).drop_last() =~= rv.take(i as int));
            assert(rv.take(i + 1).last() == rows@[i as int]@);
        }
        if rows[i].len() > w {
            w = rows[i].len();
        }
        i = i + 1;
    }
    proof {
        assert(rv.take(rows@.len() as int) =~= rv);
    }
    w
}

fn column_texts_exec(rows: &Vec<Vec<JsonValue>>, ci: usize) -> (r: Vec<String>)
    ensures
        strings_view(r@) == column_texts(rows_of(rows@), ci as int),
{
    let ghost rv = rows_of(rows@);
    let mut r: Vec<String> = Vec::new();
    let mut i: usize = 0;
    proof {
        assert(strings_view(r@) =~= Seq::<Seq<char>>::empty());
    }
    while i < rows.len()
        invariant
            i <= rows@.len(),
            rv == rows_of(rows@),
            strings_view(r@) == column_texts(rv.take(i as int), ci as int),
        decreases rows@.len() - i,
    {
        proof {
            assert(rv.take(i + 1).drop_last() =~= rv.take(i as int));
            assert(rv.take(i + 1).last() == rows@[i as int]@);
        }
        let ghost before = strings_view(r@);
        if ci < rows[i].len() {
            let t = value_text_exec(&rows[i][ci]);
            if t.unicode_len() > 0 {
                r.push(t);
                proof {
                    assert(strings_view(r@) =~= before.push(t@));
                }
            } else {
                proof {
                    assert(strings_view(r@) =~= before + Seq::<Seq<char>>::empty());
                }
            }
        } else {
            proof {
                assert(strings_view(r@) =~= before + Seq::<Seq<char>>::empty());
            }
        }
        i = i + 1;
    }
    proof {
        assert(rv.take(rows@.len() as int) =~= rv);
    }
    r
}

fn is_currency_exec(v: &str) -> (b: bool)
    ensures
        b == is_currency_text(v@),
{
    let s = trim_chars(&chars_of(v));
    if s.len() > 0 && (s[0] == '$' || s[0] == '\u{20ac}' || s[0] == '\u{a3}') {
        let rest = crate::text::slice_chars(&s, 1, s.len());
        proof {
            assert(rest@ =~= s@.drop_first());
        }
        let empty: Vec<char> = Vec::new();
        let plain = replace_all_chars(&rest, &chars_of(","), &empty);
        is_float_literal(string_of(&plain).as_str())
    } else {
        false
    }
}

fn all_digits_in(b: &Vec<u8>, lo: usize, hi: usize) -> (r: bool)
    requires
        lo <= hi <= b@.len(),
    ensures
        r == ascii_digits(b@.subrange(lo as int, hi as int)),
{
    if lo == hi {
        return false;
    }
    let mut i = lo;
    while i < hi
        invariant
            lo <= i <= hi,
            hi <= b@.len(),
            forall|j: int| lo <= j < i ==> 48 <= #[trigger] b@[j] <= 57,
        decreases hi - i,
    {
        if b[i] < 48 || b[i] > 57 {
            proof {
                assert(b@.subrange(lo as int, hi as int)[i - lo] == b@[i as int]);
            }
            return false;
        }
        i = i + 1;
    }
    proof {
        let sub = b@.subrange(lo as int, hi as int);
        assert forall|j: int| 0 <= j < sub.len() implies 48 <= #[trigger] sub[j] <= 57 by {
            assert(sub[j] == b@[lo + j]);
        }
    }
    true
}

fn signed_digits_in(b: &Vec<u8>, lo: usize, hi: usize, signs: bool) -> (r: bool)
    requires
        lo < hi <= b@.len(),
    ensures
        r == (if signs { signed_digits(b@.subrange(lo as int, hi as int)) } else { unsigned_digits(b@.subrange(lo as int, hi as int)) }),
{
    let ghost sub = b@.subrange(lo as int, hi as int);
    proof {
        assert(sub.drop_first() =~= b@.subrange(lo + 1, hi as int));
        assert(sub[0] == b@[lo as int]);
    }
    if all_digits_in(b, lo, hi) {
        true
    } else if b[lo] == 43 || (signs && b[lo] == 45) {
        all_digits_in(b, lo + 1, hi)
    } else {
        false
    }
}

fn is_date_exec(v: &str) -> (r: bool)
    ensures
        r == is_date_text(v@),
{
    let s = trim_chars(&chars_of(v));
    let ss = string_of(&s);
    let b = crate::text::str_bytes(ss.as_str());
    let dash = chars_of("-");
    proof {
        reveal_strlit("-");
    }
    b.len() == 10 && count_matches(&s, &dash) == 2 && signed_digits_in(&b, 0, 4, true)
        && signed_digits_in(&b, 5, 7, false) && signed_digits_in(&b, 8, 10, false)
}

fn is_bool_exec(v: &str) -> (r: bool)
    ensures
        r == is_bool_text(v@),
{
    let l = to_lowercase(v);
    str_eq(l.as_str(), "true") || str_eq(l.as_str(), "false") || str_eq(l.as_str(), "yes") || str_eq(l.as_str(), "no")
}

fn is_number_exec(v: &str) -> (r: bool)
    ensures
        r == is_number_text(v@),
{
    let empty: Vec<char> = Vec::new();
    let plain = replace_all_chars(&chars_of(v), &chars_of(","), &empty);
    is_float_literal(string_of(&plain).as_str())
}

fn column_type_exec(vs: &Vec<String>) -> (r: &'static str)
    ensures
        r@ == column_type(strings_view(vs@)),
{
    let ghost sv = strings_view(vs@);
    let mut cur: usize = 0;
    let mut pct: usize = 0;
    let mut date: usize = 0;
    let mut boolean: usize = 0;
    let mut number: usize = 0;
    let mut i: usize = 0;
    while i < vs.len()
        invariant
            i <= vs@.len(),
            sv == strings_view(vs@),
            cur == count_sat(sv.take(i as int), |v: Seq<char>| is_currency_text(v)),
            pct == count_sat(sv.take(i as int), |v: Seq<char>| is_pct_text(v)),
            date == count_sat(sv.take(i as int), |v: Seq<char>| is_date_text(v)),
            boolean == count_sat(sv.take(i as int), |v: Seq<char>| is_bool_text(v)),
            number == count_sat(sv.take(i as int), |v: Seq<char>| is_number_text(v)),
            cur <= i && pct <= i && date <= i && boolean <= i && number <= i,
        decreases vs@.len() - i,
    {
        proof {
            assert(sv.take(i + 1).drop_last() =~= sv.take(i as int));
            assert(sv.take(i + 1).last() == vs@[i as int]@);
        }
        let v = vs[i].as_str();
        if is_currency_exec(v) {
            cur = cur + 1;
        }
        if v.unicode_len() > 0 && v.get_char(v.unicode_len() - 1) == '%' {
            pct = pct + 1;
        }
        if is_date_exec(v) {
            date = date + 1;
        }
        if is_bool_exec(v) {
            boolean = boolean + 1;
        }
        if is_number_exec(v) {
            number = number + 1;
        }
        i = i + 1;
    }
    proof {
        assert(sv.take(vs@.len() as int) =~= sv);
    }
    let total = vs.len() as u128;
    if vs.len() == 0 {
        "string"
    } else if (cur as u128) * 5 >= total * 4 {
        "currency"
    } else if (pct as u128) * 5 >= total * 4 {
        "pct"
    } else if (date as u128) * 5 >= total * 4 {
        "date"
    } else if (boolean as u128) * 5 >= total * 4 {
        "boolean"
    } else if (number as u128) * 5 >= total * 4 {
        "number"
    } else {
        "string"
    }
}

/// The type of each column of some rows of cell values: `currency`, `pct`,
/// `date`, `boolean`, `number` when at least 80% of the column's non-empty
/// texts read as such (tried in that order), else `string`.
pub fn infer_column_types(rows: &Vec<Vec<JsonValue>>) -> (r: Vec<String>)
    requires
        types_inferable(rows_of(rows@)),
    ensures
        strings_view(r@) == column_types(rows_of(rows@)),
{
    let ghost rv = rows_of(rows@);
    let mut types: Vec<String> = Vec::new();
    if rows.len() == 0 {
        proof {
            assert(strings_view(types@) =~= column_types(rv));
        }
        return types;
    }
    let n = max_width_exec(rows);
    let mut ci: usize = 0;
    while ci < n
        invariant
            ci <= n,
            n == max_width(rv),
            rv == rows_of(rows@),
            rv.len() > 0,
            strings_view(types@) == column_types(rv).take(ci as int),
        decreases n - ci,
    {
        let vs = column_texts_exec(rows, ci);
        let t = column_type_exec(&vs);
        let ghost before = strings_view(types@);
        types.push(t.to_owned());
        proof {
            assert(column_types(rv).len() == n);
            assert(column_types(rv)[ci as int] == column_type(column_texts(rv, ci as int)));
            assert(strings_view(types@) =~= before.push(t@));
            assert(strings_view(types@) =~= column_types(rv).take(ci + 1));
        }
        ci = ci + 1;
    }
    proof {
        assert(column_types(rv).take(n as int) =~= column_types(rv));
    }
    types
}

fn char_start_exec(b: &Vec<u8>, i: usize) -> (r: bool)
    requires
        i <= b@.len(),
    ensures
        r == char_start(b@, i as int),
{
    i == b.len() || b[i] < 0x80 || b[i] >= 0xC0
}

fn inferable_text_exec(v: &str) -> (r: bool)
    ensures
        r == inferable_text(v@),
{
    let s = trim_chars(&chars_of(v));
    if s.len() > 0 && (s[0] == '\u{20ac}' || s[0] == '\u{a3}') {
        return false;
    }
    let b = crate::text::str_bytes(string_of(&s).as_str());
    let dash = chars_of("-");
    proof {
        reveal_strlit("-");
    }
    if !(b.len() == 10 && count_matches(&s, &dash) == 2) {
        return true;
    }
    if !char_start_exec(&b, 4) {
        return false;
    }
    if !signed_digits_in(&b, 0, 4, true) {
        return true;
    }
    if !(char_start_exec(&b, 5) && char_start_exec(&b, 7)) {
        return false;
    }
    if !signed_digits_in(&b, 5, 7, false) {
        return true;
    }
    char_start_exec(&b, 8)
}

/// Whether the column types of some rows can be inferred: whether every
/// text the inference examines is one it can examine.
pub fn can_infer_column_types(rows: &Vec<Vec<JsonValue>>) -> (r: bool)
    ensures
        r == types_inferable(rows_of(rows@)),
{
    let ghost rv = rows_of(rows@);
    let n = max_width_exec(rows);
    let mut ci: usize = 0;
    while ci < n
        invariant
            ci <= n,
            n == max_width(rv),
            rv == rows_of(rows@),
            forall|c: int, k: int| 0 <= c < ci && 0 <= k < column_texts(rv, c).len()
                ==> inferable_text(#[trigger] column_texts(rv, c)[k]),
        decreases n - ci,
    {
        let vs = column_texts_exec(rows, ci);
        let mut k: usize = 0;
        while k < vs.len()
            invariant
                k <= vs@.len(),
                ci < n,
                n == max_width(rv),
                rv == rows_of(rows@),
                strings_view(vs@) == column_texts(rv, ci as int),
                forall|j: int| 0 <= j < k ==> inferable_text(#[trigger] column_texts(rv, ci as int)[j]),
            decreases vs@.len() - k,
        {
            if !inferable_text_exec(vs[k].as_str()) {
                proof {
                    assert(column_texts(rv, ci as int)[k as int] == vs@[k as int]@);
                    assert(!inferable_text(column_texts(rv, ci as int)[k as int]));
                    assert(!types_inferable(rv));
                }
                return false;
            }
            proof {
                assert(column_texts(rv, ci as int)[k as int] == vs@[k as int]@);
            }
            k = k + 1;
        }
        ci = ci + 1;
    }
    true
}

} // verus!
