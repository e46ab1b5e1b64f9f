//! Reading a workbook held in memory: `calamine` gives each sheet's used
//! range and cells; the dimensions, header row, data rows and column types
//! of each sheet are worked out here.
use vstd::prelude::*;
use calamine::{Data, Reader, Xlsx};
use std::io::Cursor;
use crate::diff::document_diff::{column_letter, column_name, SheetCells};
use crate::json::JsonValue;
use crate::readers::DocumentChunk;
use crate::readers::excel::{
    type_entry, can_infer_column_types, column_texts, column_type, column_types, detect_header_row, distinct_count, filled,
    header_index, header_like, infer_column_types, inferable_text, max_width, non_numeric, rows_of,
    types_inferable, value_text, CellValue, ExcelReader, ExcelView, NamedRangeInfo, SheetView,
};
use crate::text::{decimal, join, join_strings, push_str, strings_view, u64_to_string};

verus! {

/// A worksheet as `calamine` reads it: its name, the first and the last
/// cell of its used range (row, column; none when it is empty), and its
/// rows of cells, each as whether it holds an error value and the text the
/// cell's value displays as.
pub struct RawSheet {
    pub name: String,
    pub start: Option<(u32, u32)>,
    pub end: Option<(u32, u32)>,
    pub rows: Vec<Vec<(bool, String)>>,
}

pub open spec fn raw_row_view(r: Vec<(bool, String)>) -> Seq<(bool, Seq<char>)> {
    r@.map_values(|c: (bool, String)| (c.0, c.1@))
}

pub open spec fn raw_view(s: RawSheet) -> (Seq<char>, Option<(u32, u32)>, Option<(u32, u32)>, Seq<Seq<(bool, Seq<char>)>>) {
    (s.name@, s.start, s.end, s.rows@.map_values(|r: Vec<(bool, String)>| raw_row_view(r)))
}

/// The worksheets of an `.xlsx` workbook held in memory as `calamine`
/// reads them, in the workbook's order; or where reading failed: at
/// opening (0) or at reading a sheet (2), that sheet's name, and the
/// error's message.
pub uninterp spec fn workbook_cells(data: Seq<u8>) -> Result<
    Seq<(Seq<char>, Option<(u32, u32)>, Option<(u32, u32)>, Seq<Seq<(bool, Seq<char>)>>)>,
    (u8, Seq<char>, Seq<char>),
>;

/// The defined names (name, formula) of an `.xlsx` workbook held in memory
/// once `calamine` has loaded its merged regions; or where that failed: at
/// opening (0) or at loading the merged regions (1), and the message.
pub uninterp spec fn workbook_names(data: Seq<u8>) -> Result<Seq<(Seq<char>, Seq<char>)>, (u8, Seq<char>)>;

/// Opens an `.xlsx` workbook held in memory with `calamine::Xlsx` and reads
/// each sheet's range (`worksheet_range`): its corners and its cells, shown
/// with `Data`'s `Display`.  Trusted: the result is a function of the bytes
/// alone.
#[verifier::external_body]
fn read_workbook(data: &[u8]) -> (r: Result<Vec<RawSheet>, (u8, String, String)>)
    ensures
        match r {
            Ok(w) => workbook_cells(data@) matches Ok(c) && c == w@.map_values(|s: RawSheet| raw_view(s)),
            Err(e) => workbook_cells(data@) matches Err(m) && m == (e.0, e.1@, e.2@),
        },
{
    let mut wb = Xlsx::new(Cursor::new(data)).map_err(|e| (0, String::new(), e.to_string()))?;
    let mut sheets = Vec::new();
    for name in wb.sheet_names() {
        let range = wb.worksheet_range(&name).map_err(|e| (2, name.clone(), e.to_string()))?;
        let rows = range.rows().map(|r| r.iter().map(|c| (matches!(c, Data::Error(_)), c.to_string())).collect()).collect();
        sheets.push(RawSheet { name, start: range.start(), end: range.end(), rows });
    }
    Ok(sheets)
}

/// Opens an `.xlsx` workbook held in memory with `calamine::Xlsx`, loads its
/// merged regions (`load_merged_regions`) and gives its `defined_names`.
/// Trusted: the result is a function of the bytes alone.
#[verifier::external_body]
fn read_workbook_names(data: &[u8]) -> (r: Result<Vec<(String, String)>, (u8, String)>)
    ensures
        match r {
            Ok(v) => workbook_names(data@) matches Ok(c) && c == v@.map_values(|p: (String, String)| (p.0@, p.1@)),
            Err(e) => workbook_names(data@) matches Err(m) && m == (e.0, e.1@),
        },
{
    let mut wb = Xlsx::new(Cursor::new(data)).map_err(|e| (0, e.to_string()))?;
    wb.load_merged_regions().map_err(|e| (1, e.to_string()))?;
    Ok(wb.defined_names().to_vec())
}

// ---------------------------------------------------------------------------
// A sheet's texts
// ---------------------------------------------------------------------------

/// The text a cell shows: an error value with `#` before it.
pub open spec fn cell_text(c: (bool, Seq<char>)) -> Seq<char> {
    if c.0 {
        seq!['#'] + c.1
    } else {
        c.1
    }
}

pub open spec fn sheet_texts(rows: Seq<Seq<(bool, Seq<char>)>>) -> Seq<Seq<Seq<char>>> {
    rows.map_values(|r: Seq<(bool, Seq<char>)>| r.map_values(|c: (bool, Seq<char>)| cell_text(c)))
}

pub open spec fn texts_of_cells(cvs: Seq<Seq<CellValue>>) -> Seq<Seq<Seq<char>>> {
    cvs.map_values(|r: Seq<CellValue>| r.map_values(|c: CellValue| c.0@))
}

pub open spec fn text_rows_view(rows: Seq<Vec<String>>) -> Seq<Seq<Seq<char>>> {
    rows.map_values(|r: Vec<String>| strings_view(r@))
}

/// The length of the longest row.
pub open spec fn text_width(t: Seq<Seq<Seq<char>>>) -> nat
    decreases t.len(),
{
    if t.len() == 0 {
        0
    } else if text_width(t.drop_last()) >= t.last().len() {
        text_width(t.drop_last())
    } else {
        t.last().len()
    }
}

/// A row widened to `width` cells with empty texts.
pub open spec fn padded(row: Seq<Seq<char>>, width: nat) -> Seq<Seq<char>> {
    Seq::new(width, |ci: int| if ci < row.len() { row[ci] } else { Seq::<char>::empty() })
}

/// The non-empty texts of a row.
pub open spec fn filled_texts(row: Seq<Seq<char>>) -> Seq<Seq<char>>
    decreases row.len(),
{
    if row.len() == 0 {
        Seq::empty()
    } else {
        filled_texts(row.drop_last()) + if row.last().len() == 0 {
            Seq::<Seq<char>>::empty()
        } else {
            seq![row.last()]
        }
    }
}

/// A header row: at least two non-empty texts, at least half of them not
/// numbers and at least half of them distinct.
pub open spec fn header_like_texts(row: Seq<Seq<char>>) -> bool {
    let f = filled_texts(row);
    f.len() >= 2 && 2 * non_numeric(f) >= f.len() && 2 * distinct_count(f) >= f.len()
}

/// The first header-like row from `from` on, or row 0 when there is none.
pub open spec fn header_row_index(t: Seq<Seq<Seq<char>>>, from: int) -> int
    decreases t.len() - from,
{
    if from >= t.len() || from < 0 {
        0
    } else if header_like_texts(t[from]) {
        from
    } else {
        header_row_index(t, from + 1)
    }
}

/// The non-empty texts of column `ci`, row by row.
pub open spec fn text_column(t: Seq<Seq<Seq<char>>>, ci: int) -> Seq<Seq<char>>
    decreases t.len(),
{
    if t.len() == 0 {
        Seq::empty()
    } else {
        text_column(t.drop_last(), ci) + if 0 <= ci < t.last().len() && t.last()[ci].len() > 0 {
            seq![t.last()[ci]]
        } else {
            Seq::<Seq<char>>::empty()
        }
    }
}

/// The inferred type of each column of some rows of texts.
pub open spec fn text_types(t: Seq<Seq<Seq<char>>>) -> Seq<Seq<char>> {
    if t.len() == 0 {
        Seq::empty()
    } else {
        Seq::new(text_width(t), |ci: int| column_type(text_column(t, ci)))
    }
}

/// Every text the inference would examine is one it can examine.
pub open spec fn text_inferable(t: Seq<Seq<Seq<char>>>) -> bool {
    forall|ci: int, k: int| 0 <= ci < text_width(t) && 0 <= k < text_column(t, ci).len()
        ==> inferable_text(#[trigger] text_column(t, ci)[k])
}

// ---------------------------------------------------------------------------
// A sheet as read
// ---------------------------------------------------------------------------

pub open spec fn corner(p: Option<(u32, u32)>) -> (u32, u32) {
    match p {
        Some(q) => q,
        None => (0u32, 0u32),
    }
}

pub open spec fn header_at(t: Seq<Seq<Seq<char>>>) -> int {
    header_row_index(t, 0)
}

/// The header row, widened to the sheet's width; none for a sheet
/// without rows.
pub open spec fn header_row_of(t: Seq<Seq<Seq<char>>>) -> Seq<Seq<char>> {
    if header_at(t) < t.len() {
        padded(t[header_at(t)], text_width(t))
    } else {
        Seq::empty()
    }
}

/// The rows after the header row, each widened to the sheet's width.
pub open spec fn data_rows_of(t: Seq<Seq<Seq<char>>>) -> Seq<Seq<Seq<char>>> {
    let s = if header_at(t) < t.len() { header_at(t) + 1 } else { 0 };
    Seq::new((t.len() - s) as nat, |i: int| padded(t[i + s], text_width(t)))
}

pub open spec fn all_rows_of(t: Seq<Seq<Seq<char>>>) -> Seq<Seq<Seq<char>>> {
    Seq::new(t.len(), |i: int| padded(t[i], text_width(t)))
}

/// The rows the column types are inferred from: the data rows where there
/// are some under a non-empty header, else every row.
pub open spec fn typed_rows_of(t: Seq<Seq<Seq<char>>>) -> Seq<Seq<Seq<char>>> {
    if data_rows_of(t).len() > 0 && header_row_of(t).len() > 0 {
        data_rows_of(t)
    } else {
        all_rows_of(t)
    }
}

/// A sheet can be read: its last row is below the last row number, after
/// its first, and its column types can be inferred.
pub open spec fn sheet_readable(raw: (Seq<char>, Option<(u32, u32)>, Option<(u32, u32)>, Seq<Seq<(bool, Seq<char>)>>)) -> bool {
    &&& corner(raw.1).0 <= corner(raw.2).0 < u32::MAX
    &&& corner(raw.1).1 < u32::MAX
    &&& corner(raw.2).1 < u32::MAX
    &&& text_inferable(typed_rows_of(sheet_texts(raw.3)))
}

/// The dimensions of the used range, as `A1:C4`.
pub open spec fn dims_text(start: (u32, u32), end: (u32, u32)) -> Seq<char> {
    column_name(start.1 as nat) + decimal((start.0 + 1) as nat) + ":"@ + column_name(end.1 as nat) + decimal(
        (end.0 + 1) as nat,
    )
}

pub open spec fn sheet_read_as(
    v: SheetView,
    raw: (Seq<char>, Option<(u32, u32)>, Option<(u32, u32)>, Seq<Seq<(bool, Seq<char>)>>),
) -> bool {
    let t = sheet_texts(raw.3);
    &&& v.name@ == raw.0
    &&& v.dimensions@ == dims_text(corner(raw.1), corner(raw.2))
    &&& v.row_count == corner(raw.2).0 - corner(raw.1).0 + 1
    &&& v.column_count == text_width(t)
    &&& strings_view(v.header_row@) == header_row_of(t)
    &&& text_rows_view(v.rows@) == data_rows_of(t)
    &&& strings_view(v.column_types@) == text_types(typed_rows_of(t))
}

/// The workbook `w` is what `cells` (sheets, defined names) reads as.
pub open spec fn workbook_read_as(
    w: ExcelView,
    cells: (Seq<(Seq<char>, Option<(u32, u32)>, Option<(u32, u32)>, Seq<Seq<(bool, Seq<char>)>>)>, Seq<(Seq<char>, Seq<char>)>),
    file: Seq<char>,
) -> bool {
    &&& w.format@ == "xlsx"@
    &&& w.file@ == file
    &&& w.sheets@.len() == cells.0.len()
    &&& forall|k: int| 0 <= k < cells.0.len() ==> sheet_read_as(#[trigger] w.sheets@[k], cells.0[k])
    &&& w.named_ranges@.len() == cells.1.len()
    &&& forall|k: int| 0 <= k < cells.1.len() ==> (#[trigger] w.named_ranges@[k]).name@ == cells.1[k].0
        && w.named_ranges@[k].range@ == cells.1[k].1
}

// ---------------------------------------------------------------------------
// The texts decide as the cells do
// ---------------------------------------------------------------------------

proof fn lemma_filled_texts(row: Seq<CellValue>)
    ensures
        filled(row) == filled_texts(row.map_values(|c: CellValue| c.0@)),
    decreases row.len(),
{
    let tv = row.map_values(|c: CellValue| c.0@);
    if row.len() > 0 {
        lemma_filled_texts(row.drop_last());
        assert(row.drop_last().map_values(|c: CellValue| c.0@) =~= tv.drop_last());
    }
}

proof fn lemma_header_texts(cvs: Seq<Seq<CellValue>>, from: int)
    ensures
        header_index(cvs, from) == header_row_index(texts_of_cells(cvs), from),
    decreases cvs.len() - from,
{
    if 0 <= from < cvs.len() {
        lemma_filled_texts(cvs[from]);
        assert(texts_of_cells(cvs)[from] == cvs[from].map_values(|c: CellValue| c.0@));
        lemma_header_texts(cvs, from + 1);
    }
}

/// Rows of JSON strings showing the texts `t`.
pub open spec fn str_cells(js: Seq<Seq<JsonValue>>, t: Seq<Seq<Seq<char>>>) -> bool {
    &&& js.len() == t.len()
    &&& forall|i: int| 0 <= i < js.len() ==> (#[trigger] js[i]).len() == t[i].len()
    &&& forall|i: int, j: int| 0 <= i < js.len() && 0 <= j < js[i].len() ==> value_text(#[trigger] js[i][j]) == t[i][j]
}

proof fn lemma_str_columns(js: Seq<Seq<JsonValue>>, t: Seq<Seq<Seq<char>>>, ci: int)
    requires
        str_cells(js, t),
    ensures
        column_texts(js, ci) == text_column(t, ci),
        max_width(js) == text_width(t),
    decreases js.len(),
{
    if js.len() > 0 {
        assert(str_cells(js.drop_last(), t.drop_last())) by {
            assert forall|i: int, j: int| 0 <= i < js.drop_last().len() && 0 <= j < js.drop_last()[i].len() implies value_text(
                #[trigger] js.drop_last()[i][j],
            ) == t.drop_last()[i][j] by {
                assert(js.drop_last()[i] == js[i]);
                assert(value_text(js[i][j]) == t[i][j]);
            }
        }
        lemma_str_columns(js.drop_last(), t.drop_last(), ci);
        let n = js.len() - 1;
        assert(js.last() == js[n] && t.last() == t[n]);
        assert(js[n].len() == t[n].len());
        if 0 <= ci < js.last().len() {
            assert(value_text(js[n][ci]) == t[n][ci]);
        }
    }
}

proof fn lemma_str_types(js: Seq<Seq<JsonValue>>, t: Seq<Seq<Seq<char>>>)
    requires
        str_cells(js, t),
    ensures
        column_types(js) == text_types(t),
        types_inferable(js) == text_inferable(t),
{
    lemma_str_columns(js, t, 0);
    assert forall|ci: int| #[trigger] column_texts(js, ci) == text_column(t, ci) by {
        lemma_str_columns(js, t, ci);
    }
    assert(column_types(js) =~= text_types(t));
    if types_inferable(js) {
        assert forall|ci: int, k: int| 0 <= ci < text_width(t) && 0 <= k < text_column(t, ci).len() implies inferable_text(
            #[trigger] text_column(t, ci)[k],
        ) by {
            lemma_str_columns(js, t, ci);
            assert(column_texts(js, ci)[k] == text_column(t, ci)[k]);
        }
    }
    if text_inferable(t) {
        assert forall|ci: int, k: int| 0 <= ci < max_width(js) && 0 <= k < column_texts(js, ci).len() implies inferable_text(
            #[trigger] column_texts(js, ci)[k],
        ) by {
            lemma_str_columns(js, t, ci);
            assert(column_texts(js, ci)[k] == text_column(t, ci)[k]);
        }
    }
}

// ---------------------------------------------------------------------------
// Reading
// ---------------------------------------------------------------------------

fn cell_string(c: &(bool, String)) -> (r: String)
    ensures
        r@ == cell_text((c.0, c.1@)),
{
    if c.0 {
        let mut s = String::new();
        push_str(&mut s, "#");
        push_str(&mut s, c.1.as_str());
        proof {
            reveal_strlit("#");
            assert(s@ =~= seq!['#'] + c.1@);
        }
        s
    } else {
        c.1.clone()
    }
}

/// The cells of a sheet, shown as text.
fn sheet_cells(rows: &Vec<Vec<(bool, String)>>) -> (r: Vec<Vec<CellValue>>)
    ensures
        texts_of_cells(r@.map_values(|v: Vec<CellValue>| v@)) == sheet_texts(
            rows@.map_values(|x: Vec<(bool, String)>| raw_row_view(x)),
        ),
{
    let ghost want = sheet_texts(rows@.map_values(|x: Vec<(bool, String)>| raw_row_view(x)));
    let mut out: Vec<Vec<CellValue>> = Vec::new();
    let mut i: usize = 0;
    while i < rows.len()
        invariant
            i <= rows@.len(),
            want == sheet_texts(rows@.map_values(|x: Vec<(bool, String)>| raw_row_view(x))),
            out@.len() == i,
            forall|k: int| 0 <= k < i ==> (#[trigger] out@[k])@.map_values(|c: CellValue| c.0@) == want[k],
        decreases rows@.len() - i,
    {
        let row = &rows[i];
        let mut cells: Vec<CellValue> = Vec::new();
        let mut j: usize = 0;
        while j < row.len()
            invariant
                j <= row@.len(),
                row == rows@[i as int],
                cells@.len() == j,
                forall|k: int| 0 <= k < j ==> (#[trigger] cells@[k]).0@ == cell_text((row@[k].0, row@[k].1@)),
            decreases row@.len() - j,
        {
            let t = cell_string(&row[j]);
            cells.push(CellValue(t));
            j = j + 1;
        }
        proof {
            assert(cells@.map_values(|c: CellValue| c.0@) =~= want[i as int]);
        }
        out.push(cells);
        i = i + 1;
    }
    proof {
        assert(texts_of_cells(out@.map_values(|v: Vec<CellValue>| v@)) =~= want);
    }
    out
}

/// A row's texts widened to `width` with empty texts.
fn padded_row(cells: &Vec<CellValue>, width: usize) -> (r: Vec<String>)
    ensures
        strings_view(r@) == padded(cells@.map_values(|c: CellValue| c.0@), width as nat),
{
    let ghost cv = cells@.map_values(|c: CellValue| c.0@);
    let mut r: Vec<String> = Vec::new();
    let mut ci: usize = 0;
    while ci < width
        invariant
            ci <= width,
            cv == cells@.map_values(|c: CellValue| c.0@),
            strings_view(r@) == padded(cv, width as nat).take(ci as int),
        decreases width - ci,
    {
        let s = if ci < cells.len() {
            cells[ci].0.clone()
        } else {
            String::new()
        };
        let ghost before = strings_view(r@);
        r.push(s);
        proof {
            assert(strings_view(r@) =~= before.push(s@));
            assert(strings_view(r@) =~= padded(cv, width as nat).take(ci + 1));
        }
        ci = ci + 1;
    }
    proof {
        assert(padded(cv, width as nat).take(width as int) =~= padded(cv, width as nat));
    }
    r
}

/// Texts as JSON strings, for the column inference.
fn str_row(row: &Vec<String>) -> (r: Vec<JsonValue>)
    ensures
        r@.len() == row@.len(),
        forall|j: int| 0 <= j < r@.len() ==> value_text(#[trigger] r@[j]) == row@[j]@,
{
    let mut r: Vec<JsonValue> = Vec::new();
    let mut j: usize = 0;
    while j < row.len()
        invariant
            j <= row@.len(),
            r@.len() == j,
            forall|k: int| 0 <= k < j ==> value_text(#[trigger] r@[k]) == row@[k]@,
        decreases row@.len() - j,
    {
        r.push(JsonValue::Str(row[j].clone()));
        j = j + 1;
    }
    r
}

fn str_rows(rows: &Vec<Vec<String>>) -> (r: Vec<Vec<JsonValue>>)
    ensures
        str_cells(rows_of(r@), text_rows_view(rows@)),
{
    let mut r: Vec<Vec<JsonValue>> = Vec::new();
    let mut i: usize = 0;
    while i < rows.len()
        invariant
            i <= rows@.len(),
            r@.len() == i,
            forall|k: int| 0 <= k < i ==> (#[trigger] r@[k])@.len() == rows@[k]@.len(),
            forall|k: int, j: int| 0 <= k < i && 0 <= j < r@[k]@.len() ==> value_text(#[trigger] r@[k]@[j]) == rows@[k]@[j]@,
        decreases rows@.len() - i,
    {
        let x = str_row(&rows[i]);
        r.push(x);
        i = i + 1;
    }
    proof {
        let js = rows_of(r@);
        let t = text_rows_view(rows@);
        assert forall|k: int, j: int| 0 <= k < js.len() && 0 <= j < js[k].len() implies value_text(#[trigger] js[k][j]) == t[k][j] by {
            assert(js[k] == r@[k]@);
            assert(t[k] == strings_view(rows@[k]@));
        }
    }
    r
}

fn text_width_exec(cvs: &Vec<Vec<CellValue>>) -> (w: usize)
    ensures
        w == text_width(texts_of_cells(cvs@.map_values(|v: Vec<CellValue>| v@))),
{
    let ghost t = texts_of_cells(cvs@.map_values(|v: Vec<CellValue>| v@));
    let mut w: usize = 0;
    let mut i: usize = 0;
    while i < cvs.len()
        invariant
            i <= cvs@.len(),
            t == texts_of_cells(cvs@.map_values(|v: Vec<CellValue>| v@)),
            w == text_width(t.take(i as int)),
        decreases cvs@.len() - i,
    {
        proof {
            assert(t.take(i + 1).drop_last() =~= t.take(i as int));
            assert(t.take(i + 1).last().len() == cvs@[i as int]@.len());
        }
        if cvs[i].len() > w {
            w = cvs[i].len();
        }
        i = i + 1;
    }
    proof {
        assert(t.take(cvs@.len() as int) =~= t);
    }
    w
}

/// One sheet as read, or `None` where it cannot be: its row numbers run out
/// of range, or its column types cannot be inferred.
fn read_sheet(raw: &RawSheet) -> (r: Option<SheetView>)
    ensures
        r is Some <==> sheet_readable(raw_view(*raw)),
        r matches Some(v) ==> sheet_read_as(v, raw_view(*raw)),
{
    let ghost rv = raw_view(*raw);
    let (sr, sc) = match raw.start {
        Some(p) => p,
        None => (0u32, 0u32),
    };
    let (er, ec) = match raw.end {
        Some(p) => p,
        None => (0u32, 0u32),
    };
    if !(sr <= er && er < u32::MAX && sc < u32::MAX && ec < u32::MAX) {
        return None;
    }
    let mut dims = column_letter(sc);
    push_str(&mut dims, u64_to_string((sr as u64) + 1).as_str());
    push_str(&mut dims, ":");
    push_str(&mut dims, column_letter(ec).as_str());
    push_str(&mut dims, u64_to_string((er as u64) + 1).as_str());
    proof {
        assert(dims@ =~= dims_text(corner(rv.1), corner(rv.2)));
    }
    let cvs = sheet_cells(&raw.rows);
    let ghost cv = cvs@.map_values(|v: Vec<CellValue>| v@);
    let ghost t = texts_of_cells(cv);
    proof {
        assert(rv.3 == raw.rows@.map_values(|x: Vec<(bool, String)>| raw_row_view(x)));
        assert(t == sheet_texts(rv.3));
    }
    let h = detect_header_row(&cvs);
    proof {
        lemma_header_texts(cv, 0);
    }
    let width = text_width_exec(&cvs);
    let n = cvs.len();
    let header_row = if h < n {
        let hr = padded_row(&cvs[h], width);
        proof {
            assert(cv[h as int].map_values(|c: CellValue| c.0@) == t[h as int]);
        }
        hr
    } else {
        Vec::new()
    };
    proof {
        assert(strings_view(header_row@) =~= header_row_of(t));
    }
    let skip = if h < n { h + 1 } else { 0 };
    let mut rows: Vec<Vec<String>> = Vec::new();
    let mut i: usize = skip;
    while i < n
        invariant
            skip <= i <= n,
            n == cvs@.len(),
            cv == cvs@.map_values(|v: Vec<CellValue>| v@),
            t == texts_of_cells(cv),
            width == text_width(t),
            skip == (if header_at(t) < t.len() { header_at(t) + 1 } else { 0 }),
            text_rows_view(rows@) == data_rows_of(t).take(i - skip),
        decreases n - i,
    {
        let row = padded_row(&cvs[i], width);
        let ghost before = text_rows_view(rows@);
        rows.push(row);
        proof {
            assert(cv[i as int].map_values(|c: CellValue| c.0@) == t[i as int]);
            assert(text_rows_view(rows@) =~= before.push(strings_view(row@)));
            assert(text_rows_view(rows@) =~= data_rows_of(t).take(i + 1 - skip));
        }
        i = i + 1;
    }
    proof {
        assert(data_rows_of(t).take(n - skip) =~= data_rows_of(t));
    }
    let typed = if rows.len() > 0 && header_row.len() > 0 {
        let x = str_rows(&rows);
        proof {
            assert(typed_rows_of(t) == text_rows_view(rows@));
            assert(str_cells(rows_of(x@), typed_rows_of(t)));
        }
        x
    } else {
        let mut all: Vec<Vec<String>> = Vec::new();
        let mut k: usize = 0;
        while k < n
            invariant
                k <= n,
                n == cvs@.len(),
                cv == cvs@.map_values(|v: Vec<CellValue>| v@),
                t == texts_of_cells(cv),
                width == text_width(t),
                text_rows_view(all@) == all_rows_of(t).take(k as int),
            decreases n - k,
        {
            let row = padded_row(&cvs[k], width);
            let ghost before = text_rows_view(all@);
            all.push(row);
            proof {
                assert(cv[k as int].map_values(|c: CellValue| c.0@) == t[k as int]);
                assert(text_rows_view(all@) =~= before.push(strings_view(row@)));
                assert(text_rows_view(all@) =~= all_rows_of(t).take(k + 1));
            }
            k = k + 1;
        }
        proof {
            assert(all_rows_of(t).take(n as int) =~= all_rows_of(t));
        }
        let x = str_rows(&all);
        proof {
            assert(typed_rows_of(t) == text_rows_view(all@));
            assert(str_cells(rows_of(x@), typed_rows_of(t)));
        }
        x
    };
    proof {
        lemma_str_types(rows_of(typed@), typed_rows_of(t));
    }
    if !can_infer_column_types(&typed) {
        return None;
    }
    let column_types = infer_column_types(&typed);
    let row_count = (er - sr + 1) as usize;
    Some(SheetView {
        name: raw.name.clone(),
        dimensions: dims,
        row_count,
        column_count: width,
        header_row,
        rows,
        column_types,
    })
}

/// The message `read_to_json` gives for a workbook it cannot read.  A sheet
/// that cannot be read is reported with the error before the sheet's name.
pub open spec fn read_error_text(e: (u8, Seq<char>, Seq<char>)) -> Seq<char> {
    if e.0 == 0 {
        "Failed to open workbook: "@ + e.2
    } else {
        "Failed to read sheet '"@ + e.2 + "': "@ + e.1
    }
}

pub open spec fn names_error_text(e: (u8, Seq<char>)) -> Seq<char> {
    if e.0 == 0 {
        "Failed to open workbook: "@ + e.1
    } else {
        "Failed to load merged regions: "@ + e.1
    }
}

/// The message the diff gives for a workbook it cannot read.
pub open spec fn diff_error_text(path: Seq<char>, e: (u8, Seq<char>, Seq<char>)) -> Seq<char> {
    if e.0 == 2 {
        "Cannot read sheet '"@ + e.1 + "': "@ + e.2
    } else {
        "Cannot open workbook '"@ + path + "': "@ + e.2
    }
}

/// The cells of each sheet of a workbook held in memory, as text (error
/// values with `#` before them), for comparing workbooks; or why it cannot
/// be read, naming `path`.
pub fn workbook_sheets(data: &[u8], path: &str) -> (r: Result<Vec<SheetCells>, String>)
    ensures
        match workbook_cells(data@) {
            Err(e) => r matches Err(m) && m@ == diff_error_text(path@, e),
            Ok(sheets) => r matches Ok(v) && v@.len() == sheets.len() && forall|k: int|
                0 <= k < v@.len() ==> (#[trigger] v@[k]).name@ == sheets[k].0 && text_rows_view(v@[k].rows@)
                    == sheet_texts(sheets[k].3),
        },
{
    let raws = match read_workbook(data) {
        Ok(w) => w,
        Err((kind, sheet, msg)) => {
            let mut m = String::new();
            if kind == 2 {
                push_str(&mut m, "Cannot read sheet '");
                push_str(&mut m, sheet.as_str());
                push_str(&mut m, "': ");
            } else {
                push_str(&mut m, "Cannot open workbook '");
                push_str(&mut m, path);
                push_str(&mut m, "': ");
            }
            push_str(&mut m, msg.as_str());
            return Err(m);
        },
    };
    let ghost sheets = workbook_cells(data@)->Ok_0;
    let mut out: Vec<SheetCells> = Vec::new();
    let mut k: usize = 0;
    while k < raws.len()
        invariant
            k <= raws@.len(),
            workbook_cells(data@) matches Ok(c) && c == sheets,
            sheets == raws@.map_values(|s: RawSheet| raw_view(s)),
            out@.len() == k,
            forall|j: int| 0 <= j < k ==> (#[trigger] out@[j]).name@ == sheets[j].0 && text_rows_view(out@[j].rows@)
                == sheet_texts(sheets[j].3),
        decreases raws@.len() - k,
    {
        let cvs = sheet_cells(&raws[k].rows);
        let mut rows: Vec<Vec<String>> = Vec::new();
        let mut i: usize = 0;
        let ghost t = texts_of_cells(cvs@.map_values(|v: Vec<CellValue>| v@));
        while i < cvs.len()
            invariant
                i <= cvs@.len(),
                t == texts_of_cells(cvs@.map_values(|v: Vec<CellValue>| v@)),
                text_rows_view(rows@) == t.take(i as int),
            decreases cvs@.len() - i,
        {
            let w = cvs[i].len();
            let row = padded_row(&cvs[i], w);
            let ghost before = text_rows_view(rows@);
            rows.push(row);
            proof {
                assert(t[i as int] == cvs@[i as int]@.map_values(|c: CellValue| c.0@));
                assert(padded(cvs@[i as int]@.map_values(|c: CellValue| c.0@), w as nat) =~= t[i as int]);
                assert(text_rows_view(rows@) =~= before.push(strings_view(row@)));
                assert(text_rows_view(rows@) =~= t.take(i + 1));
            }
            i = i + 1;
        }
        proof {
            assert(t.take(cvs@.len() as int) =~= t);
            assert(sheets[k as int] == raw_view(raws@[k as int]));
        }
        out.push(SheetCells { name: raws[k].name.clone(), rows });
        k = k + 1;
    }
    Ok(out)
}

impl ExcelReader {
    /// A workbook held in memory as structured data: each sheet's name,
    /// dimensions, row and column counts, header row, data rows and column
    /// types, and the workbook's defined names.  `None` where a sheet's row
    /// numbers run out of range or its column types cannot be inferred.
    pub fn read_to_json(data: &[u8], file: &str) -> (r: Option<Result<ExcelView, String>>)
        ensures
            match workbook_names(data@) {
                Err(e) => r matches Some(Err(m)) && m@ == names_error_text(e),
                Ok(names) => match workbook_cells(data@) {
                    Err(e) => r matches Some(Err(m)) && m@ == read_error_text(e),
                    Ok(sheets) => {
                        &&& r is None <==> exists|k: int| 0 <= k < sheets.len() && !sheet_readable(#[trigger] sheets[k])
                        &&& r matches Some(res) ==> res matches Ok(w) && workbook_read_as(w, (sheets, names), file@)
                    },
                },
            },
    {
        let names = match read_workbook_names(data) {
            Ok(v) => v,
            Err((kind, msg)) => {
                let mut m = String::new();
                if kind == 0 {
                    push_str(&mut m, "Failed to open workbook: ");
                } else {
                    push_str(&mut m, "Failed to load merged regions: ");
                }
                push_str(&mut m, msg.as_str());
                return Some(Err(m));
            },
        };
        let raws = match read_workbook(data) {
            Ok(w) => w,
            Err((kind, sheet, msg)) => {
                let mut m = String::new();
                if kind == 0 {
                    push_str(&mut m, "Failed to open workbook: ");
                    push_str(&mut m, msg.as_str());
                } else {
                    push_str(&mut m, "Failed to read sheet '");
                    push_str(&mut m, msg.as_str());
                    push_str(&mut m, "': ");
                    push_str(&mut m, sheet.as_str());
                }
                return Some(Err(m));
            },
        };
        let ghost cells = (workbook_cells(data@)->Ok_0, workbook_names(data@)->Ok_0);
        let mut sheets: Vec<SheetView> = Vec::new();
        let mut k: usize = 0;
        while k < raws.len()
            invariant
                k <= raws@.len(),
                workbook_cells(data@) matches Ok(c) && c == cells.0,
                workbook_names(data@) matches Ok(c) && c == cells.1,
                cells.0 == raws@.map_values(|s: RawSheet| raw_view(s)),
                cells.1 == names@.map_values(|p: (String, String)| (p.0@, p.1@)),
                sheets@.len() == k,
                forall|j: int| 0 <= j < k ==> sheet_read_as(#[trigger] sheets@[j], cells.0[j]),
                forall|j: int| 0 <= j < k ==> sheet_readable(#[trigger] cells.0[j]),
            decreases raws@.len() - k,
        {
            match read_sheet(&raws[k]) {
                Some(v) => {
                    sheets.push(v);
                },
                None => {
                    proof {
                        assert(cells.0[k as int] == raw_view(raws@[k as int]));
                        assert(!sheet_readable(cells.0[k as int]));
                        assert(exists|j: int| 0 <= j < cells.0.len() && !sheet_readable(#[trigger] cells.0[j]));
                    }
                    return None;
                },
            }
            k = k + 1;
        }
        let mut named_ranges: Vec<NamedRangeInfo> = Vec::new();
        let mut j: usize = 0;
        while j < names.len()
            invariant
                j <= names@.len(),
                cells.1 == names@.map_values(|p: (String, String)| (p.0@, p.1@)),
                named_ranges@.len() == j,
                forall|i: int| 0 <= i < j ==> (#[trigger] named_ranges@[i]).name@ == cells.1[i].0
                    && named_ranges@[i].range@ == cells.1[i].1,
            decreases names@.len() - j,
        {
            named_ranges.push(NamedRangeInfo { name: names[j].0.clone(), range: names[j].1.clone() });
            j = j + 1;
        }
        Some(Ok(ExcelView { format: "xlsx".to_owned(), file: file.to_owned(), sheets, named_ranges }))
    }
}

// ---------------------------------------------------------------------------
// Chunks
// ---------------------------------------------------------------------------

/// The rows a chunk holds at most.
pub const ROWS_PER_CHUNK: usize = 50;

/// A table row in a chunk: the cells between pipes.
pub open spec fn chunk_row(cells: Seq<Seq<char>>) -> Seq<char> {
    "| "@ + join(cells, " | "@) + " |\n"@
}

/// The rows `lo .. hi` as table rows.
pub open spec fn chunk_lines(rows: Seq<Seq<Seq<char>>>, lo: int, hi: int) -> Seq<char>
    decreases hi - lo,
{
    if hi <= lo {
        Seq::empty()
    } else {
        chunk_lines(rows, lo, hi - 1) + chunk_row(rows[hi - 1])
    }
}

/// The table's header and alignment rows; nothing without a header row.
pub open spec fn chunk_table_head(s: SheetView) -> Seq<char> {
    if s.header_row@.len() == 0 {
        Seq::empty()
    } else {
        chunk_row(strings_view(s.header_row@)) + "|"@ + join(Seq::new(s.header_row@.len(), |i: int| " :- "@), "|"@)
            + "|\n"@
    }
}

pub open spec fn type_lines(s: SheetView, n: int) -> Seq<char>
    decreases n,
{
    if n <= 0 {
        Seq::empty()
    } else {
        type_lines(s, n - 1) + "- "@ + type_entry(s, n - 1) + "\n"@
    }
}

/// What a sheet's first chunk opens with: its name, dimensions and counts,
/// and its column types.
pub open spec fn chunk_intro(s: SheetView) -> Seq<char> {
    "# Sheet: "@ + s.name@ + "\n\n"@ + "Dimensions: "@ + s.dimensions@ + " · "@ + decimal(s.row_count as nat)
        + " rows × "@ + decimal(s.column_count as nat) + " cols\n\n"@ + if s.column_types@.len() > 0 {
        "Column types:\n"@ + type_lines(s, s.column_types@.len() as int) + "\n"@
    } else {
        Seq::<char>::empty()
    }
}

/// How many chunks a sheet of `n` data rows makes: one per 50 rows, and one
/// for a sheet without rows.
pub open spec fn chunk_count(n: nat) -> nat {
    if n == 0 {
        1
    } else {
        ((n - 1) / 50 + 1) as nat
    }
}

/// Chunk `g` of a sheet: the sheet's introduction (or, after the first, a
/// continued heading), the table's head where there are rows, and the rows
/// `50 g .. 50 g + 50`; with the first and last row it covers.
pub open spec fn sheet_chunk(s: SheetView, g: int) -> (Seq<char>, nat, nat) {
    let rows = text_rows_view(s.rows@);
    let n = rows.len();
    let hi = if 50 * g + 50 < n { 50 * g + 50 } else { n as int };
    let text = (if g == 0 {
        chunk_intro(s)
    } else {
        "# Sheet: "@ + s.name@ + " (continued)\n\n"@
    }) + (if n > 0 {
        chunk_table_head(s)
    } else {
        Seq::<char>::empty()
    }) + chunk_lines(rows, 50 * g, hi);
    let end: nat = if g + 1 < chunk_count(n) {
        (50 * g + 49) as nat
    } else if n > 0 {
        (n - 1) as nat
    } else {
        0
    };
    (text, (50 * g) as nat, end)
}

/// The chunks of a sheet, text and row span, with the sheet's name.
pub open spec fn sheet_chunks(s: SheetView) -> Seq<(Seq<char>, Seq<char>, nat, nat)> {
    Seq::new(
        chunk_count(s.rows@.len()),
        |g: int| (sheet_chunk(s, g).0, s.name@, sheet_chunk(s, g).1, sheet_chunk(s, g).2),
    )
}

pub open spec fn workbook_chunks(sheets: Seq<SheetView>) -> Seq<(Seq<char>, Seq<char>, nat, nat)>
    decreases sheets.len(),
{
    if sheets.len() == 0 {
        Seq::empty()
    } else {
        workbook_chunks(sheets.drop_last()) + sheet_chunks(sheets.last())
    }
}

/// A chunk as reported: its index, its text, and its format, sheet and row
/// span as metadata.
pub open spec fn chunk_reported(c: DocumentChunk, k: int, want: (Seq<char>, Seq<char>, nat, nat)) -> bool {
    &&& c.index == k
    &&& c.text@ == want.0
    &&& c.metadata@.map_values(|m: (String, String)| (m.0@, m.1@)) == seq![
        ("format"@, "xlsx"@),
        ("sheet"@, want.1),
        ("row_start"@, decimal(want.2)),
        ("row_end"@, decimal(want.3)),
    ]
}

fn push_chunk_row(out: &mut String, cells: &Vec<String>)
    ensures
        final(out)@ == old(out)@ + chunk_row(strings_view(cells@)),
{
    push_str(out, "| ");
    let j = join_strings(cells, " | ");
    push_str(out, j.as_str());
    push_str(out, " |\n");
    proof {
        assert(final(out)@ =~= old(out)@ + chunk_row(strings_view(cells@)));
    }
}

fn push_table_head(out: &mut String, s: &SheetView)
    ensures
        final(out)@ == old(out)@ + chunk_table_head(*s),
{
    if s.header_row.len() == 0 {
        proof {
            assert(old(out)@ + chunk_table_head(*s) =~= old(out)@);
        }
        return;
    }
    push_chunk_row(out, &s.header_row);
    let mut seps: Vec<String> = Vec::new();
    let mut i: usize = 0;
    while i < s.header_row.len()
        invariant
            i <= s.header_row@.len(),
            strings_view(seps@) == Seq::new(i as nat, |k: int| " :- "@),
        decreases s.header_row@.len() - i,
    {
        let ghost before = strings_view(seps@);
        seps.push(" :- ".to_owned());
        proof {
            assert(strings_view(seps@) =~= before.push(" :- "@));
            assert(strings_view(seps@) =~= Seq::new((i + 1) as nat, |k: int| " :- "@));
        }
        i = i + 1;
    }
    push_str(out, "|");
    let j = join_strings(&seps, "|");
    push_str(out, j.as_str());
    push_str(out, "|\n");
    proof {
        assert(final(out)@ =~= old(out)@ + chunk_table_head(*s));
    }
}

fn chunk_intro_text(s: &SheetView) -> (r: String)
    ensures
        r@ == chunk_intro(*s),
{
    let mut t = String::new();
    push_str(&mut t, "# Sheet: ");
    push_str(&mut t, s.name.as_str());
    push_str(&mut t, "\n\n");
    push_str(&mut t, "Dimensions: ");
    push_str(&mut t, s.dimensions.as_str());
    push_str(&mut t, " · ");
    push_str(&mut t, u64_to_string(s.row_count as u64).as_str());
    push_str(&mut t, " rows × ");
    push_str(&mut t, u64_to_string(s.column_count as u64).as_str());
    push_str(&mut t, " cols\n\n");
    let ghost head = t@;
    if s.column_types.len() > 0 {
        push_str(&mut t, "Column types:\n");
        let ghost start = t@;
        let mut i: usize = 0;
        while i < s.column_types.len()
            invariant
                i <= s.column_types@.len(),
                t@ == start + type_lines(*s, i as int),
            decreases s.column_types@.len() - i,
        {
            push_str(&mut t, "- ");
            t.push('`');
            if i < s.header_row.len() {
                push_str(&mut t, s.header_row[i].as_str());
            }
            push_str(&mut t, "`: ");
            push_str(&mut t, s.column_types[i].as_str());
            push_str(&mut t, "\n");
            proof {
                assert(t@ =~= start + type_lines(*s, i + 1));
            }
            i = i + 1;
        }
        push_str(&mut t, "\n");
    }
    proof {
        assert(t@ =~= chunk_intro(*s));
    }
    t
}

/// The chunks of one sheet: text, first and last row.
fn chunk_sheet(s: &SheetView) -> (r: Vec<(String, usize, usize)>)
    requires
        s.rows@.len() + 100 < usize::MAX,
    ensures
        r@.len() == chunk_count(s.rows@.len()),
        forall|g: int| 0 <= g < r@.len() ==> (#[trigger] r@[g]).0@ == sheet_chunk(*s, g).0 && r@[g].1
            == sheet_chunk(*s, g).1 && r@[g].2 == sheet_chunk(*s, g).2,
{
    let ghost rows = text_rows_view(s.rows@);
    let n = s.rows.len();
    let count: usize = if n == 0 { 1 } else { (n - 1) / 50 + 1 };
    let mut out: Vec<(String, usize, usize)> = Vec::new();
    let mut g: usize = 0;
    while g < count
        invariant
            g <= count,
            n == s.rows@.len(),
            n + 100 < usize::MAX,
            rows == text_rows_view(s.rows@),
            count == chunk_count(n as nat),
            out@.len() == g,
            forall|k: int| 0 <= k < g ==> (#[trigger] out@[k]).0@ == sheet_chunk(*s, k).0 && out@[k].1
                == sheet_chunk(*s, k).1 && out@[k].2 == sheet_chunk(*s, k).2,
        decreases count - g,
    {
        proof {
            assert(50 * g <= n || n == 0) by (nonlinear_arith)
                requires
                    g < count,
                    count == (if n == 0 { 1 } else { (n - 1) / 50 + 1 }),
            ;
        }
        let lo = 50 * g;
        let mut text = if g == 0 {
            chunk_intro_text(s)
        } else {
            let mut t = String::new();
            push_str(&mut t, "# Sheet: ");
            push_str(&mut t, s.name.as_str());
            push_str(&mut t, " (continued)\n\n");
            t
        };
        if n > 0 {
            push_table_head(&mut text, s);
        }
        let hi = if lo + 50 < n { lo + 50 } else { n };
        let ghost base = text@;
        let mut i = lo;
        while i < hi
            invariant
                lo <= i <= hi,
                hi <= n,
                n == s.rows@.len(),
                rows == text_rows_view(s.rows@),
                text@ == base + chunk_lines(rows, lo as int, i as int),
            decreases hi - i,
        {
            push_chunk_row(&mut text, &s.rows[i]);
            proof {
                assert(rows[i as int] == strings_view(s.rows@[i as int]@));
                assert(text@ =~= base + chunk_lines(rows, lo as int, i + 1));
            }
            i = i + 1;
        }
        let end = if g + 1 < count {
            lo + 49
        } else if n > 0 {
            n - 1
        } else {
            0
        };
        proof {
            if lo >= hi {
                assert(chunk_lines(rows, lo as int, hi as int) == chunk_lines(rows, lo as int, lo as int));
            }
            assert(text@ =~= sheet_chunk(*s, g as int).0);
        }
        out.push((text, lo, end));
        g = g + 1;
    }
    out
}

impl ExcelReader {
    /// A workbook's sheets cut into chunks for retrieval: each sheet's
    /// introduction and table in pieces of at most 50 rows, each with its
    /// sheet and row span.
    pub fn read_to_chunks(w: &ExcelView) -> (r: Vec<DocumentChunk>)
        requires
            forall|k: int| 0 <= k < w.sheets@.len() ==> (#[trigger] w.sheets@[k]).rows@.len() + 100 < usize::MAX,
            workbook_chunks(w.sheets@).len() < usize::MAX,
        ensures
            r@.len() == workbook_chunks(w.sheets@).len(),
            forall|k: int| 0 <= k < r@.len() ==> chunk_reported(#[trigger] r@[k], k, workbook_chunks(w.sheets@)[k]),
    {
        let mut out: Vec<DocumentChunk> = Vec::new();
        let mut k: usize = 0;
        while k < w.sheets.len()
            invariant
                k <= w.sheets@.len(),
                forall|j: int| 0 <= j < w.sheets@.len() ==> (#[trigger] w.sheets@[j]).rows@.len() + 100 < usize::MAX,
                workbook_chunks(w.sheets@).len() < usize::MAX,
                out@.len() == workbook_chunks(w.sheets@.take(k as int)).len(),
                forall|j: int| 0 <= j < out@.len() ==> chunk_reported(#[trigger] out@[j], j, workbook_chunks(w.sheets@.take(k as int))[j]),
            decreases w.sheets@.len() - k,
        {
            let s = &w.sheets[k];
            let pieces = chunk_sheet(s);
            let ghost done = workbook_chunks(w.sheets@.take(k as int));
            let ghost mine = sheet_chunks(*s);
            proof {
                assert(w.sheets@.take(k + 1).drop_last() =~= w.sheets@.take(k as int));
                assert(workbook_chunks(w.sheets@.take(k + 1)) == done + mine);
                lemma_chunks_prefix(w.sheets@, k + 1);
            }
            let mut g: usize = 0;
            while g < pieces.len()
                invariant
                    g <= pieces@.len(),
                    pieces@.len() == mine.len(),
                    mine == sheet_chunks(*s),
                    forall|h: int| 0 <= h < pieces@.len() ==> (#[trigger] pieces@[h]).0@ == sheet_chunk(*s, h).0
                        && pieces@[h].1 == sheet_chunk(*s, h).1 && pieces@[h].2 == sheet_chunk(*s, h).2,
                    (done + mine).len() < usize::MAX,
                    out@.len() == done.len() + g,
                    forall|j: int| 0 <= j < out@.len() ==> chunk_reported(#[trigger] out@[j], j, (done + mine)[j]),
                decreases pieces@.len() - g,
            {
                let idx = out.len();
                let meta = vec![
                    ("format".to_owned(), "xlsx".to_owned()),
                    ("sheet".to_owned(), s.name.clone()),
                    ("row_start".to_owned(), u64_to_string(pieces[g].1 as u64)),
                    ("row_end".to_owned(), u64_to_string(pieces[g].2 as u64)),
                ];
                let c = DocumentChunk { index: idx, text: pieces[g].0.clone(), metadata: meta };
                proof {
                    assert((done + mine)[idx as int] == mine[g as int]);
                    assert(c.metadata@.map_values(|m: (String, String)| (m.0@, m.1@)) =~= seq![
                        ("format"@, "xlsx"@),
                        ("sheet"@, mine[g as int].1),
                        ("row_start"@, decimal(mine[g as int].2)),
                        ("row_end"@, decimal(mine[g as int].3)),
                    ]);
                }
                out.push(c);
                g = g + 1;
            }
            k = k + 1;
        }
        proof {
            assert(w.sheets@.take(w.sheets@.len() as int) =~= w.sheets@);
        }
        out
    }
}

proof fn lemma_chunks_prefix(sheets: Seq<SheetView>, k: int)
    requires
        0 <= k <= sheets.len(),
    ensures
        workbook_chunks(sheets.take(k)).len() <= workbook_chunks(sheets).len(),
    decreases sheets.len() - k,
{
    if k < sheets.len() {
        lemma_chunks_prefix(sheets, k + 1);
        assert(sheets.take(k + 1).drop_last() =~= sheets.take(k));
    } else {
        assert(sheets.take(k) =~= sheets);
    }
}

} // verus!
