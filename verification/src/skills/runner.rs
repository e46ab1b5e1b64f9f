//! How a basic workbook skill lays out its sheets: colours by theme, row
//! kinds, cell formats, column widths, frozen panes.
use vstd::prelude::*;
use crate::json::{JsonNumber, JsonValue, number_text, push_number};
use crate::text::{str_eq, decimal, is_ws, is_whitespace, chars_of};
use crate::skill::validator::{param, array_of, param_get, array_param};
use crate::json::{json_get, json_str};

verus! {

/// The colours of a theme: header fill, alternate-row fill, section fill,
/// title text.
pub open spec fn theme_colors(theme: Seq<char>) -> (Seq<char>, Seq<char>, Seq<char>, Seq<char>) {
    if theme == "green"@ {
        ("#2E7D32"@, "#C8E6C9"@, "#C8E6C9"@, "#1B5E20"@)
    } else if theme == "orange"@ {
        ("#E65100"@, "#FFE0B2"@, "#FFE0B2"@, "#BF360C"@)
    } else if theme == "purple"@ {
        ("#6A1B9A"@, "#E1BEE7"@, "#E1BEE7"@, "#4A148C"@)
    } else if theme == "teal"@ {
        ("#00695C"@, "#B2DFDB"@, "#B2DFDB"@, "#004D40"@)
    } else if theme == "navy"@ {
        ("#1A237E"@, "#C5CAE9"@, "#C5CAE9"@, "#0D1642"@)
    } else {
        ("#4472C4"@, "#D9E2F3"@, "#D9E2F3"@, "#1F3864"@)
    }
}

pub fn theme_palette(theme: &str) -> (r: (&'static str, &'static str, &'static str, &'static str))
    ensures
        (r.0@, r.1@, r.2@, r.3@) == theme_colors(theme@),
{
    if str_eq(theme, "green") {
        ("#2E7D32", "#C8E6C9", "#C8E6C9", "#1B5E20")
    } else if str_eq(theme, "orange") {
        ("#E65100", "#FFE0B2", "#FFE0B2", "#BF360C")
    } else if str_eq(theme, "purple") {
        ("#6A1B9A", "#E1BEE7", "#E1BEE7", "#4A148C")
    } else if str_eq(theme, "teal") {
        ("#00695C", "#B2DFDB", "#B2DFDB", "#004D40")
    } else if str_eq(theme, "navy") {
        ("#1A237E", "#C5CAE9", "#C5CAE9", "#0D1642")
    } else {
        ("#4472C4", "#D9E2F3", "#D9E2F3", "#1F3864")
    }
}

/// The format of a cell; the font size is in points.
pub struct CellFormat {
    pub bold: Option<bool>,
    pub font_size: Option<u32>,
    pub font_color: Option<String>,
    pub bg_color: Option<String>,
    pub num_format: Option<String>,
    pub border: Option<bool>,
    pub align_h: Option<String>,
}

pub open spec fn opt_view(o: Option<String>) -> Option<Seq<char>> {
    match o {
        Some(s) => Some(s@),
        None => None,
    }
}

/// A format as plain values: bold, size, colour, fill, number format,
/// border, alignment.
pub type FormatV = (Option<bool>, Option<u32>, Option<Seq<char>>, Option<Seq<char>>, Option<Seq<char>>, Option<bool>, Option<Seq<char>>);

pub open spec fn format_view(f: CellFormat) -> FormatV {
    (f.bold, f.font_size, opt_view(f.font_color), opt_view(f.bg_color), opt_view(f.num_format), f.border, opt_view(f.align_h))
}

/// The number format of a number: a percentage for a short fraction, two
/// decimals for any other number that is not whole, none for whole ones.
pub open spec fn number_format(n: JsonNumber) -> Seq<char> {
    match n {
        JsonNumber::Float { text, fraction, whole, .. } => if fraction && text@.len() <= 4 {
            "0.0%"@
        } else if !whole {
            "#,##0.00"@
        } else {
            "#,##0"@
        },
        _ => "#,##0"@,
    }
}

/// The format of a cell of a row of the given kind: titles large, bold and
/// centred without border; sections and headers filled and bold; totals
/// bold on grey; even data rows filled; numbers formatted except in titles
/// and sections.
pub open spec fn cell_format(kind: Seq<char>, even: bool, val: JsonValue, theme: Seq<char>) -> FormatV {
    let (hdr, alt, sec, title) = theme_colors(theme);
    let base: FormatV = if kind == "title"@ {
        (Some(true), Some(16u32), Some(title), None, None, Some(false), Some("center"@))
    } else if kind == "section"@ {
        (Some(true), None, Some(title), Some(sec), None, Some(true), Some("left"@))
    } else if kind == "header"@ {
        (Some(true), None, Some("#FFFFFF"@), Some(hdr), None, Some(true), Some("center"@))
    } else if kind == "total"@ {
        (Some(true), None, Some(title), Some("#F2F2F2"@), None, Some(true), None)
    } else if even {
        (None, None, None, Some(alt), None, Some(true), None)
    } else {
        (None, None, None, None, None, Some(true), None)
    };
    if kind != "title"@ && kind != "section"@ && val is Number {
        (base.0, base.1, base.2, base.3, Some(number_format(val->Number_0)), base.5, base.6)
    } else {
        base
    }
}

/// The kind of row `i`: its given kind (the last one repeating), else a
/// header for the first row of a sheet with a header, else data.
pub open spec fn row_kind(row_types: Seq<Seq<char>>, has_header: bool, i: int) -> Seq<char> {
    if row_types.len() > 0 {
        row_types[if i < row_types.len() - 1 { i } else { row_types.len() - 1 }]
    } else if has_header && i == 0 {
        "header"@
    } else {
        "data"@
    }
}

pub open spec fn even_row(kind: Seq<char>, i: int) -> bool {
    kind != "title"@ && kind != "section"@ && kind != "header"@ && kind != "total"@ && i % 2 == 0
}

/// How wide a cell's content counts for its column.
pub open spec fn content_width(v: JsonValue) -> nat {
    match v {
        JsonValue::Str(s) => s@.len(),
        JsonValue::Number(n) => number_text(n).len(),
        JsonValue::Bool(_) => 4,
        JsonValue::Null => 0,
        _ => 8,
    }
}

/// The widest content of column `c` over the first `n` rows, at least 8.
pub open spec fn widest(rows: Seq<Seq<JsonValue>>, c: int, n: int) -> nat
    decreases n,
{
    if n <= 0 {
        8
    } else {
        let w = widest(rows, c, n - 1);
        if c < rows[n - 1].len() && content_width(rows[n - 1][c]) > w {
            content_width(rows[n - 1][c])
        } else {
            w
        }
    }
}

/// A column's width: its widest content kept between 12 and 45, plus 2.
pub open spec fn column_width(rows: Seq<Seq<JsonValue>>, c: int) -> nat {
    let w = widest(rows, c, rows.len() as int);
    (if w < 12 { 12 } else if w > 45 { 45 } else { w }) + 2
}

/// How many of the leading row kinds are titles, sections or headers.
pub open spec fn leading_heads(row_types: Seq<Seq<char>>) -> nat
    decreases row_types.len(),
{
    if row_types.len() == 0 {
        0
    } else if row_types[0] == "title"@ || row_types[0] == "section"@ || row_types[0] == "header"@ {
        1 + leading_heads(row_types.drop_first())
    } else {
        0
    }
}

/// The frozen rows: as asked, else the heading rows of a sheet that has
/// row kinds or a header.
pub open spec fn frozen_rows(freeze_rows: u16, has_header: bool, row_types: Seq<Seq<char>>) -> Option<u16> {
    if freeze_rows > 0 {
        Some(freeze_rows)
    } else if has_header || row_types.len() > 0 {
        Some(if row_types.len() > 0 { leading_heads(row_types) as u16 } else { 1u16 })
    } else {
        None
    }
}

/// The layout of one sheet of a basic workbook.
pub struct SheetLayout {
    pub formats: Vec<Vec<CellFormat>>,
    pub column_widths: Vec<u32>,
    pub freeze_rows: Option<u16>,
    pub freeze_cols: Option<u16>,
    pub autofilter: bool,
}

pub open spec fn rows_view(data: Seq<Vec<JsonValue>>) -> Seq<Seq<JsonValue>> {
    data.map_values(|r: Vec<JsonValue>| r@)
}

pub open spec fn strings(v: Seq<String>) -> Seq<Seq<char>> {
    v.map_values(|s: String| s@)
}

/// What `sheet_layout` computes.
pub open spec fn layout_is(
    l: SheetLayout,
    data: Seq<Vec<JsonValue>>,
    has_header: bool,
    row_types: Seq<Seq<char>>,
    theme: Seq<char>,
    freeze_rows: u16,
    freeze_cols: u16,
) -> bool {
    let rows = rows_view(data);
    &&& l.formats@.len() == rows.len()
    &&& forall|i: int| 0 <= i < rows.len() ==> (#[trigger] l.formats@[i])@.len() == rows[i].len()
    &&& forall|i: int, j: int| 0 <= i < rows.len() && 0 <= j < rows[i].len() ==> format_view(
        #[trigger] l.formats@[i]@[j],
    ) == cell_format(row_kind(row_types, has_header, i), even_row(row_kind(row_types, has_header, i), i), rows[i][j], theme)
    &&& l.column_widths@.len() == (if rows.len() > 0 { rows[0].len() } else { 0 })
    &&& forall|c: int| 0 <= c < l.column_widths@.len() ==> (#[trigger] l.column_widths@[c]) == column_width(rows, c)
    &&& l.freeze_rows == frozen_rows(freeze_rows, has_header, row_types)
    &&& l.freeze_cols == if freeze_cols > 0 { Some(freeze_cols) } else { None::<u16> }
    &&& l.autofilter == (row_types.len() == 0 && has_header)
}

fn some_str(s: &str) -> (r: Option<String>)
    ensures
        opt_view(r) == Some(s@),
{
    Some(s.to_owned())
}

fn format_of(kind: &str, even: bool, val: &JsonValue, theme: &str) -> (f: CellFormat)
    ensures
        format_view(f) == cell_format(kind@, even, *val, theme@),
{
    let (hdr, alt, sec, title) = theme_palette(theme);
    let mut f = if str_eq(kind, "title") {
        CellFormat { bold: Some(true), font_size: Some(16), font_color: some_str(title), bg_color: None, num_format: None, border: Some(false), align_h: some_str("center") }
    } else if str_eq(kind, "section") {
        CellFormat { bold: Some(true), font_size: None, font_color: some_str(title), bg_color: some_str(sec), num_format: None, border: Some(true), align_h: some_str("left") }
    } else if str_eq(kind, "header") {
        CellFormat { bold: Some(true), font_size: None, font_color: some_str("#FFFFFF"), bg_color: some_str(hdr), num_format: None, border: Some(true), align_h: some_str("center") }
    } else if str_eq(kind, "total") {
        CellFormat { bold: Some(true), font_size: None, font_color: some_str(title), bg_color: some_str("#F2F2F2"), num_format: None, border: Some(true), align_h: None }
    } else if even {
        CellFormat { bold: None, font_size: None, font_color: None, bg_color: some_str(alt), num_format: None, border: Some(true), align_h: None }
    } else {
        CellFormat { bold: None, font_size: None, font_color: None, bg_color: None, num_format: None, border: Some(true), align_h: None }
    };
    if !str_eq(kind, "title") && !str_eq(kind, "section") {
        match val {
            JsonValue::Number(n) => {
                let nf = match n {
                    JsonNumber::Float { text, fraction, whole, .. } => {
                        if *fraction && text.unicode_len() <= 4 {
                            "0.0%"
                        } else if !*whole {
                            "#,##0.00"
                        } else {
                            "#,##0"
                        }
                    },
                    _ => "#,##0",
                };
                f.num_format = some_str(nf);
            },
            _ => {},
        }
    }
    f
}

fn width_of(v: &JsonValue) -> (w: usize)
    ensures
        w == content_width(*v),
{
    match v {
        JsonValue::Str(s) => s.unicode_len(),
        JsonValue::Number(n) => {
            let mut t = String::new();
            push_number(&mut t, n);
            t.unicode_len()
        },
        JsonValue::Bool(_) => 4,
        JsonValue::Null => 0,
        _ => 8,
    }
}

fn width_of_column(data: &Vec<Vec<JsonValue>>, c: usize) -> (w: u32)
    ensures
        w == column_width(rows_view(data@), c as int),
{
    let ghost rows = rows_view(data@);
    let mut widest_so_far: usize = 8;
    let mut r: usize = 0;
    while r < data.len()
        invariant
            r <= data@.len(),
            rows == rows_view(data@),
            widest_so_far == widest(rows, c as int, r as int),
        decreases data@.len() - r,
    {
        if c < data[r].len() {
            let w = width_of(&data[r][c]);
            if w > widest_so_far {
                widest_so_far = w;
            }
        }
        r = r + 1;
    }
    let clamped: u32 = if widest_so_far < 12 {
        12
    } else if widest_so_far > 45 {
        45
    } else {
        widest_so_far as u32
    };
    clamped + 2
}

fn heading_rows(row_types: &Vec<String>) -> (n: u16)
    ensures
        n == leading_heads(strings(row_types@)) as u16,
{
    let ghost tv = strings(row_types@);
    let mut i: usize = 0;
    proof {
        assert(tv.skip(0) =~= tv);
    }
    while i < row_types.len()
        && (str_eq(row_types[i].as_str(), "title") || str_eq(row_types[i].as_str(), "section")
            || str_eq(row_types[i].as_str(), "header"))
        invariant
            i <= row_types@.len(),
            tv == strings(row_types@),
            leading_heads(tv) == i + leading_heads(tv.skip(i as int)),
        decreases row_types@.len() - i,
    {
        proof {
            assert(tv.skip(i as int)[0] == tv[i as int]);
            assert(tv.skip(i as int).drop_first() =~= tv.skip(i + 1));
        }
        i = i + 1;
    }
    proof {
        if i < row_types@.len() {
            assert(tv.skip(i as int)[0] == tv[i as int]);
        }
    }
    #[verifier::truncate] (i as u16)
}

/// The layout of a sheet of a basic workbook: each cell's format by its
/// row's kind and its value, the columns' widths, the frozen panes and
/// whether the sheet gets an autofilter.
pub fn sheet_layout(
    data: &Vec<Vec<JsonValue>>,
    has_header: bool,
    row_types: &Vec<String>,
    theme: &str,
    freeze_rows: u16,
    freeze_cols: u16,
) -> (l: SheetLayout)
    ensures
        layout_is(l, data@, has_header, strings(row_types@), theme@, freeze_rows, freeze_cols),
{
    let ghost rows = rows_view(data@);
    let ghost tv = strings(row_types@);
    let has_types = row_types.len() > 0;
    let mut formats: Vec<Vec<CellFormat>> = Vec::new();
    let mut i: usize = 0;
    while i < data.len()
        invariant
            i <= data@.len(),
            rows == rows_view(data@),
            tv == strings(row_types@),
            has_types == (row_types@.len() > 0),
            formats@.len() == i,
            forall|k: int| 0 <= k < i ==> (#[trigger] formats@[k])@.len() == rows[k].len(),
            forall|k: int, j: int| 0 <= k < i && 0 <= j < rows[k].len() ==> format_view(
                #[trigger] formats@[k]@[j],
            ) == cell_format(row_kind(tv, has_header, k), even_row(row_kind(tv, has_header, k), k), rows[k][j], theme@),
        decreases data@.len() - i,
    {
        let kind: &str = if has_types {
            let idx = if i < row_types.len() - 1 { i } else { row_types.len() - 1 };
            row_types[idx].as_str()
        } else if has_header && i == 0 {
            "header"
        } else {
            "data"
        };
        proof {
            if has_types {
                assert(kind@ == row_kind(tv, has_header, i as int));
            }
        }
        let even = !str_eq(kind, "title") && !str_eq(kind, "section") && !str_eq(kind, "header")
            && !str_eq(kind, "total") && i % 2 == 0;
        let row = &data[i];
        let mut fr: Vec<CellFormat> = Vec::new();
        let mut j: usize = 0;
        while j < row.len()
            invariant
                j <= row@.len(),
                rows[i as int] == row@,
                kind@ == row_kind(tv, has_header, i as int),
                even == even_row(kind@, i as int),
                fr@.len() == j,
                forall|m: int| 0 <= m < j ==> format_view(#[trigger] fr@[m]) == cell_format(kind@, even, row@[m], theme@),
            decreases row@.len() - j,
        {
            let f = format_of(kind, even, &row[j], theme);
            fr.push(f);
            j = j + 1;
        }
        formats.push(fr);
        i = i + 1;
    }
    let ncols = if data.len() > 0 { data[0].len() } else { 0 };
    let mut widths: Vec<u32> = Vec::new();
    let mut c: usize = 0;
    while c < ncols
        invariant
            c <= ncols,
            rows == rows_view(data@),
            ncols == (if rows.len() > 0 { rows[0].len() } else { 0 }),
            widths@.len() == c,
            forall|k: int| 0 <= k < c ==> (#[trigger] widths@[k]) == column_width(rows, k),
        decreases ncols - c,
    {
        let w = width_of_column(data, c);
        widths.push(w);
        c = c + 1;
    }
    let fr = if freeze_rows > 0 {
        Some(freeze_rows)
    } else if has_header || has_types {
        Some(if has_types { heading_rows(row_types) } else { 1 })
    } else {
        None
    };
    SheetLayout {
        formats,
        column_widths: widths,
        freeze_rows: fr,
        freeze_cols: if freeze_cols > 0 { Some(freeze_cols) } else { None },
        autofilter: if has_types { false } else { has_header },
    }
}

// ---------------------------------------------------------------------------
// What a skill run reports
// ---------------------------------------------------------------------------

/// The number of words of a text: maximal runs of characters that are not
/// white space.
pub open spec fn word_count(s: Seq<char>) -> nat
    decreases s.len(),
{
    if s.len() == 0 {
        0
    } else {
        word_count(s.drop_last()) + if !is_ws(s.last()) && (s.len() == 1 || is_ws(s[s.len() - 2])) {
            1nat
        } else {
            0nat
        }
    }
}

fn count_words(s: &str) -> (n: usize)
    ensures
        n == word_count(s@),
{
    let cs = chars_of(s);
    let mut n: usize = 0;
    let mut i: usize = 0;
    proof {
        assert(cs@.take(0) =~= Seq::<char>::empty());
    }
    while i < cs.len()
        invariant
            i <= cs@.len(),
            n == word_count(cs@.take(i as int)),
            n <= i,
        decreases cs@.len() - i,
    {
        proof {
            assert(cs@.take(i + 1).drop_last() =~= cs@.take(i as int));
            if i > 0 {
                assert(cs@.take(i + 1)[i - 1] == cs@[i - 1]);
            }
        }
        if !is_whitespace(cs[i]) && (i == 0 || is_whitespace(cs[i - 1])) {
            n = n + 1;
        }
        i = i + 1;
    }
    proof {
        assert(cs@.take(cs@.len() as int) =~= cs@);
    }
    n
}

pub open spec fn len_of(v: Option<Seq<JsonValue>>) -> nat {
    match v {
        Some(items) => items.len(),
        None => 0,
    }
}

/// A count a skill reports, `None` for the names that are not counts.
pub open spec fn count_output(params: Seq<(String, JsonValue)>, name: Seq<char>) -> Option<nat> {
    if name == "rows_written"@ {
        Some(len_of(array_of(param(params, "data"@))))
    } else if name == "line_item_count"@ {
        Some(len_of(array_of(param(params, "line_items"@))))
    } else if name == "slide_count"@ {
        Some(len_of(array_of(param(params, "slides"@))))
    } else if name == "record_count"@ {
        Some(len_of(array_of(param(params, "data_source"@))))
    } else if name == "columns"@ {
        Some(match array_of(param(params, "data"@)) {
            Some(rows) => if rows.len() > 0 { len_of(array_of(Some(rows[0]))) } else { 0 },
            None => 0,
        })
    } else if name == "section_count"@ {
        Some(len_of(array_of(param(params, "sections"@))))
    } else if name == "series_count"@ {
        Some(match array_of(param(params, "data"@)) {
            Some(rows) => if rows.len() > 0 { (rows.len() - 1) as nat } else { 0 },
            None => 0,
        })
    } else if name == "word_count"@ || name == "word_count_estimate"@ {
        Some(match (if param(params, "markdown_text"@) is Some { param(params, "markdown_text"@) } else { param(params, "template_text"@) }) {
            Some(JsonValue::Str(t)) => word_count(t@),
            _ => 0,
        })
    } else {
        None
    }
}

fn array_len(params: &Vec<(String, JsonValue)>, key: &str) -> (n: usize)
    ensures
        n == len_of(array_of(param(params@, key@))),
{
    match array_param(params, key) {
        Some(items) => items.len(),
        None => 0,
    }
}

/// A count a skill reports for an output name, if the name is one of the
/// counted outputs.
pub fn count_of(params: &Vec<(String, JsonValue)>, name: &str) -> (r: Option<usize>)
    ensures
        match count_output(params@, name@) {
            Some(n) => r matches Some(m) && m == n,
            None => r is None,
        },
{
    if str_eq(name, "rows_written") {
        Some(array_len(params, "data"))
    } else if str_eq(name, "line_item_count") {
        Some(array_len(params, "line_items"))
    } else if str_eq(name, "slide_count") {
        Some(array_len(params, "slides"))
    } else if str_eq(name, "record_count") {
        Some(array_len(params, "data_source"))
    } else if str_eq(name, "columns") {
        Some(match array_param(params, "data") {
            Some(rows) => if rows.len() > 0 {
                match rows[0].as_array() {
                    Some(r) => r.len(),
                    None => 0,
                }
            } else {
                0
            },
            None => 0,
        })
    } else if str_eq(name, "section_count") {
        Some(array_len(params, "sections"))
    } else if str_eq(name, "series_count") {
        Some(match array_param(params, "data") {
            Some(rows) => if rows.len() > 0 { rows.len() - 1 } else { 0 },
            None => 0,
        })
    } else if str_eq(name, "word_count") || str_eq(name, "word_count_estimate") {
        let v = match param_get(params, "markdown_text") {
            Some(v) => Some(v),
            None => param_get(params, "template_text"),
        };
        Some(match v {
            Some(JsonValue::Str(t)) => count_words(t.as_str()),
            _ => 0,
        })
    } else {
        None
    }
}

/// The value of an output of a skill run.  The money amounts are sums and
/// products of floating-point parameters, which the caller computes.
pub enum OutputValue<'a> {
    Value(JsonValue),
    Param(&'a JsonValue),
    Subtotal,
    TaxAmount,
    Total,
}

pub open spec fn is_value(o: OutputValue, v: JsonValue) -> bool {
    o matches OutputValue::Value(w) && w == v
}

pub open spec fn strs_json(v: JsonValue) -> Option<Seq<Seq<char>>> {
    match v {
        JsonValue::Array(items) => if forall|i: int| 0 <= i < items@.len() ==> (#[trigger] items@[i]) is Str {
            Some(items@.map_values(|x: JsonValue| x->Str_0@))
        } else {
            None
        },
        _ => None,
    }
}

/// The types of the slides that have a text `type`, in order.
pub open spec fn slide_types(params: Seq<(String, JsonValue)>) -> Seq<Seq<char>> {
    match array_of(param(params, "slides"@)) {
        Some(slides) => types_of(slides),
        None => Seq::empty(),
    }
}

pub open spec fn types_of(slides: Seq<JsonValue>) -> Seq<Seq<char>>
    decreases slides.len(),
{
    if slides.len() == 0 {
        Seq::empty()
    } else {
        types_of(slides.drop_last()) + match json_get(slides.last(), "type"@) {
            Some(JsonValue::Str(t)) => seq![t@],
            _ => Seq::<Seq<char>>::empty(),
        }
    }
}

/// The theme an output reports: its name, background and text colours
/// (keys in sorted order).
pub open spec fn str_is(v: JsonValue, s: Seq<char>) -> bool {
    match v {
        JsonValue::Str(t) => t@ == s,
        _ => false,
    }
}

pub open spec fn theme_json(v: JsonValue, theme: Seq<char>) -> bool {
    match v {
        JsonValue::Object(fs) => {
            &&& fs@.len() == 3
            &&& fs@[0].0@ == "background"@
            &&& str_is(fs@[0].1, if theme == "dark"@ { "#1E1E1E"@ } else { "#FFFFFF"@ })
            &&& fs@[1].0@ == "text"@
            &&& str_is(fs@[1].1, if theme == "dark"@ { "#CCCCCC"@ } else { "#333333"@ })
            &&& fs@[2].0@ == "theme"@
            &&& str_is(fs@[2].1, theme)
        },
        _ => false,
    }
}

/// What a skill run reports for an output name.
pub open spec fn output_is(params: Seq<(String, JsonValue)>, name: Seq<char>, o: OutputValue) -> bool {
    if name == "subtotal"@ {
        o is Subtotal
    } else if name == "tax_amount"@ {
        o is TaxAmount
    } else if name == "total"@ {
        o is Total
    } else if count_output(params, name) is Some {
        o matches OutputValue::Value(JsonValue::Number(JsonNumber::PosInt(n))) && n == count_output(params, name).unwrap()
    } else if name == "file_path"@ || name == "chart_type"@ {
        o matches OutputValue::Value(JsonValue::Str(s)) && s@ == "generated_file"@
    } else if name == "row_fields"@ || name == "value_fields"@ {
        match param(params, name) {
            Some(v) => o matches OutputValue::Param(p) && *p == v,
            None => o matches OutputValue::Value(JsonValue::Array(items)) && items@.len() == 0,
        }
    } else if name == "aggregate"@ {
        match param(params, "aggregate"@) {
            Some(v) => o matches OutputValue::Param(p) && *p == v,
            None => o matches OutputValue::Value(JsonValue::Str(s)) && s@ == "sum"@,
        }
    } else if name == "fields_found"@ || name == "headings"@ {
        o matches OutputValue::Value(JsonValue::Array(items)) && items@.len() == 0
    } else if name == "slide_types"@ {
        o matches OutputValue::Value(v) && strs_json(v) == Some(slide_types(params))
    } else if name == "themes_applied"@ {
        o matches OutputValue::Value(v) && theme_json(v, match param(params, "theme"@) {
            Some(JsonValue::Str(t)) => t@,
            _ => "light"@,
        })
    } else {
        o matches OutputValue::Value(JsonValue::Null)
    }
}

fn slide_types_of(params: &Vec<(String, JsonValue)>) -> (r: Vec<JsonValue>)
    ensures
        forall|i: int| 0 <= i < r@.len() ==> (#[trigger] r@[i]) is Str,
        r@.map_values(|x: JsonValue| x->Str_0@) == slide_types(params@),
{
    let mut r: Vec<JsonValue> = Vec::new();
    match array_param(params, "slides") {
        Some(slides) => {
            let mut i: usize = 0;
            proof {
                assert(slides@.take(0) =~= Seq::<JsonValue>::empty());
                assert(r@.map_values(|x: JsonValue| x->Str_0@) =~= Seq::<Seq<char>>::empty());
            }
            while i < slides.len()
                invariant
                    i <= slides@.len(),
                    forall|k: int| 0 <= k < r@.len() ==> (#[trigger] r@[k]) is Str,
                    r@.map_values(|x: JsonValue| x->Str_0@) == types_of(slides@.take(i as int)),
                decreases slides@.len() - i,
            {
                proof {
                    assert(slides@.take(i + 1).drop_last() =~= slides@.take(i as int));
                    assert(slides@.take(i + 1).last() == slides@[i as int]);
                }
                let ghost before = r@;
                match slides[i].get("type") {
                    Some(JsonValue::Str(t)) => {
                        let s = t.clone();
                        r.push(JsonValue::Str(s));
                        proof {
                            assert(r@.map_values(|x: JsonValue| x->Str_0@) =~= before.map_values(|x: JsonValue| x->Str_0@).push(s@));
                        }
                    },
                    _ => {},
                }
                i = i + 1;
            }
            proof {
                assert(slides@.take(slides@.len() as int) =~= slides@);
            }
        },
        None => {
            assert(r@.map_values(|x: JsonValue| x->Str_0@) =~= Seq::<Seq<char>>::empty());
        },
    }
    r
}

fn str_value(s: &str) -> (v: JsonValue)
    ensures
        v matches JsonValue::Str(t) && t@ == s@,
{
    JsonValue::Str(s.to_owned())
}

/// What a skill run reports for one output.
pub fn output_value<'a>(params: &'a Vec<(String, JsonValue)>, name: &str) -> (o: OutputValue<'a>)
    ensures
        output_is(params@, name@, o),
{
    if str_eq(name, "subtotal") {
        return OutputValue::Subtotal;
    }
    if str_eq(name, "tax_amount") {
        return OutputValue::TaxAmount;
    }
    if str_eq(name, "total") {
        return OutputValue::Total;
    }
    match count_of(params, name) {
        Some(n) => {
            let k: u64 = n as u64;
            assert(count_output(params@, name@) == Some(k as nat));
            let o = OutputValue::Value(JsonValue::Number(JsonNumber::PosInt(k)));
            assert(o matches OutputValue::Value(JsonValue::Number(JsonNumber::PosInt(m))) && m == count_output(params@, name@).unwrap());
            return o;
        },
        None => {},
    }
    if str_eq(name, "file_path") || str_eq(name, "chart_type") {
        OutputValue::Value(str_value("generated_file"))
    } else if str_eq(name, "row_fields") || str_eq(name, "value_fields") {
        match param_get(params, name) {
            Some(v) => OutputValue::Param(v),
            None => OutputValue::Value(JsonValue::Array(Vec::new())),
        }
    } else if str_eq(name, "aggregate") {
        match param_get(params, "aggregate") {
            Some(v) => OutputValue::Param(v),
            None => OutputValue::Value(str_value("sum")),
        }
    } else if str_eq(name, "fields_found") || str_eq(name, "headings") {
        OutputValue::Value(JsonValue::Array(Vec::new()))
    } else if str_eq(name, "slide_types") {
        let items = slide_types_of(params);
        OutputValue::Value(JsonValue::Array(items))
    } else if str_eq(name, "themes_applied") {
        let theme: &str = match param_get(params, "theme") {
            Some(JsonValue::Str(t)) => t.as_str(),
            _ => "light",
        };
        let dark = str_eq(theme, "dark");
        let mut fs: Vec<(String, JsonValue)> = Vec::new();
        fs.push(("background".to_owned(), str_value(if dark { "#1E1E1E" } else { "#FFFFFF" })));
        fs.push(("text".to_owned(), str_value(if dark { "#CCCCCC" } else { "#333333" })));
        fs.push(("theme".to_owned(), str_value(theme)));
        OutputValue::Value(JsonValue::Object(fs))
    } else {
        OutputValue::Value(JsonValue::Null)
    }
}

/// What a skill run reports, output by output in the order the skill lists
/// them (the caller collects them into a map, a later name replacing an
/// earlier one).
pub fn build_output<'a>(params: &'a Vec<(String, JsonValue)>, outputs: &Vec<String>) -> (r: Vec<(String, OutputValue<'a>)>)
    ensures
        r@.len() == outputs@.len(),
        forall|i: int| 0 <= i < r@.len() ==> (#[trigger] r@[i]).0@ == outputs@[i]@ && output_is(params@, outputs@[i]@, r@[i].1),
{
    let mut r: Vec<(String, OutputValue<'a>)> = Vec::new();
    let mut i: usize = 0;
    while i < outputs.len()
        invariant
            i <= outputs@.len(),
            r@.len() == i,
            forall|k: int| 0 <= k < i ==> (#[trigger] r@[k]).0@ == outputs@[k]@ && output_is(params@, outputs@[k]@, r@[k].1),
        decreases outputs@.len() - i,
    {
        let o = output_value(params, outputs[i].as_str());
        r.push((outputs[i].clone(), o));
        i = i + 1;
    }
    r
}

} // verus!
