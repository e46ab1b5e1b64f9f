use vstd::prelude::*;
use crate::text::{
    decimal, u64_to_string, chars_of, ends_with, has_prefix, has_suffix, lower_char, lower_seq, parse_u32, parse_u32_chars, push_str, seq_eq,
    starts_with, str_eq, string_of, strings_view, to_lower, trim, trim_chars, trim_end, trim_end_chars,
    repeat, push_repeat, lines, lines_of, trim_start, trim_start_all, trim_start_all_chars, leading_ws,
    slice_chars, first_at, find_at, trim_leading, trim_leading_chars, replace_all, replace_all_chars,
};
use crate::xml::{
    XmlEvent, XmlKind, Ev, evs, trimmed_xml_scan, scan_xml, event_name, name_of, opt_chars,
    start_tag_attribute, start_tag_attributes, tag_attribute, tag_attributes, entity_text, entity_chars,
};

verus! {

// ---------------------------------------------------------------------------
// What a Word document holds
// ---------------------------------------------------------------------------

#[derive(Debug, Clone)]
pub struct WordMetadata {
    pub title: String,
    pub author: String,
    pub subject: String,
    pub keywords: String,
    pub word_count: usize,
}

#[derive(Debug)]
pub struct OutlineEntry {
    pub level: u32,
    pub text: String,
    pub children: Vec<OutlineEntry>,
}

/// A run of text with the formatting the reader reports (its point size is
/// not among them).
#[derive(Debug, Clone)]
pub struct RunInfo {
    pub text: String,
    pub bold: Option<bool>,
    pub italic: Option<bool>,
    pub underline: Option<bool>,
    pub strike: Option<bool>,
    pub color: Option<String>,
    pub font: Option<String>,
}

#[derive(Debug, Clone)]
pub struct TableRow {
    pub cells: Vec<String>,
}

#[derive(Debug, Clone)]
pub enum ContentBlock {
    Paragraph { text: String, style: Option<String>, runs: Vec<RunInfo> },
    Heading { text: String, level: u32 },
    ListItem { text: String, level: u32, ordered: bool },
    Table { rows: Vec<TableRow> },
    Image { alt_text: Option<String>, width_emu: i64, height_emu: i64 },
}

#[derive(Debug, Clone)]
pub struct ImageEntry {
    pub name: Option<String>,
    pub alt_text: Option<String>,
    pub width_emu: i64,
    pub height_emu: i64,
    pub is_floating: bool,
}

#[derive(Debug, Clone)]
pub struct LinkEntry {
    pub text: String,
    pub url: Option<String>,
    pub anchor: Option<String>,
}

#[derive(Debug, Clone)]
pub struct CommentEntry {
    pub id: String,
    pub author: String,
    pub text: String,
    pub target_text: Option<String>,
}

#[derive(Debug, Clone)]
pub struct TrackedChange {
    pub text: String,
    pub is_insertion: bool,
    pub author: Option<String>,
    pub date: Option<String>,
}

#[derive(Debug, Clone)]
pub struct ChunkMetadata {
    pub source: String,
    pub format: String,
    pub chunk_type: String,
}

#[derive(Debug, Clone)]
pub struct Chunk {
    pub index: usize,
    pub heading: Option<String>,
    pub heading_level: Option<u32>,
    pub text: String,
    pub metadata: ChunkMetadata,
}

// ---------------------------------------------------------------------------
// Views
// ---------------------------------------------------------------------------

pub struct RunV {
    pub text: Seq<char>,
    pub bold: Option<bool>,
    pub italic: Option<bool>,
    pub underline: Option<bool>,
    pub strike: Option<bool>,
    pub color: Option<Seq<char>>,
    pub font: Option<Seq<char>>,
}

pub enum BlockV {
    Paragraph { text: Seq<char>, style: Option<Seq<char>>, runs: Seq<RunV> },
    Heading { text: Seq<char>, level: u32 },
    ListItem { text: Seq<char>, level: u32, ordered: bool },
    Table { rows: Seq<Seq<Seq<char>>> },
    Image { alt_text: Option<Seq<char>>, width_emu: i64, height_emu: i64 },
}

impl View for RunInfo {
    type V = RunV;

    open spec fn view(&self) -> RunV {
        RunV {
            text: self.text@,
            bold: self.bold,
            italic: self.italic,
            underline: self.underline,
            strike: self.strike,
            color: opt_chars(self.color),
            font: opt_chars(self.font),
        }
    }
}

pub open spec fn rows_view(rows: Seq<TableRow>) -> Seq<Seq<Seq<char>>> {
    rows.map_values(|r: TableRow| strings_view(r.cells@))
}

impl View for ContentBlock {
    type V = BlockV;

    open spec fn view(&self) -> BlockV {
        match *self {
            ContentBlock::Paragraph { text, style, runs } => BlockV::Paragraph {
                text: text@,
                style: opt_chars(style),
                runs: runs@.map_values(|r: RunInfo| r@),
            },
            ContentBlock::Heading { text, level } => BlockV::Heading { text: text@, level },
            ContentBlock::ListItem { text, level, ordered } => BlockV::ListItem { text: text@, level, ordered },
            ContentBlock::Table { rows } => BlockV::Table { rows: rows_view(rows@) },
            ContentBlock::Image { alt_text, width_emu, height_emu } => BlockV::Image {
                alt_text: opt_chars(alt_text),
                width_emu,
                height_emu,
            },
        }
    }
}

pub open spec fn blocks_view(bs: Seq<ContentBlock>) -> Seq<BlockV> {
    bs.map_values(|b: ContentBlock| b@)
}

// ---------------------------------------------------------------------------
// Reading the body of a document
// ---------------------------------------------------------------------------

/// Where the reader stands after some events of a document body.
pub struct ParseState {
    pub in_body: bool,
    pub para: nat,
    pub run: nat,
    pub rpr: nat,
    pub ppr: nat,
    pub tbl: nat,
    pub tr: nat,
    pub tc: nat,
    pub pstyle: Seq<char>,
    pub numpr: bool,
    pub drawing: bool,
    pub runs: Seq<RunV>,
    pub ptext: Seq<char>,
    pub rtext: Seq<char>,
    pub bold: bool,
    pub italic: bool,
    pub strike: bool,
    pub underline: bool,
    pub rows: Seq<Seq<Seq<char>>>,
    pub cells: Seq<Seq<char>>,
    pub blocks: Seq<BlockV>,
}

pub open spec fn initial_state() -> ParseState {
    ParseState {
        in_body: false,
        para: 0,
        run: 0,
        rpr: 0,
        ppr: 0,
        tbl: 0,
        tr: 0,
        tc: 0,
        pstyle: Seq::empty(),
        numpr: false,
        drawing: false,
        runs: Seq::empty(),
        ptext: Seq::empty(),
        rtext: Seq::empty(),
        bold: false,
        italic: false,
        strike: false,
        underline: false,
        rows: Seq::empty(),
        cells: Seq::empty(),
        blocks: Seq::empty(),
    }
}

/// The style named by a `w:pStyle` tag: its `w:val` attribute where that
/// is found and not empty, else the first attribute whose key ends in `val`.
pub open spec fn pstyle_value(c: Seq<char>) -> Seq<char> {
    match start_tag_attribute(c, "w:val"@) {
        Some(v) if v.len() > 0 => v,
        _ => val_attribute(start_tag_attributes(c), 0),
    }
}

pub open spec fn val_attribute(attrs: Seq<(Seq<char>, Seq<char>)>, k: int) -> Seq<char>
    decreases attrs.len() - k,
{
    if k < 0 || k >= attrs.len() {
        Seq::empty()
    } else if ends_with(attrs[k].0, "val"@) {
        attrs[k].1
    } else {
        val_attribute(attrs, k + 1)
    }
}

/// The heading level a paragraph style gives: the number after `Heading`
/// (or `heading`), else 1 for a title and 2 for a subtitle or a plain heading.
pub open spec fn heading_level(ps: Seq<char>) -> Option<u32> {
    let num = if starts_with(ps, "Heading"@) || starts_with(ps, "heading"@) {
        parse_u32(ps.subrange(7, ps.len() as int))
    } else {
        None
    };
    match num {
        Some(n) => Some(n as u32),
        None => if lower_seq(ps) == "title"@ {
            Some(1u32)
        } else if lower_seq(ps) == "subtitle"@ || lower_seq(ps) == "heading"@ {
            Some(2u32)
        } else {
            None
        },
    }
}

/// Law: a paragraph styled as a title is a first-level heading and one
/// styled as a subtitle a second-level heading, whatever the case of the
/// style's name.
pub proof fn lemma_title_styles_are_headings(ps: Seq<char>)
    ensures
        lower_seq(ps) == "title"@ ==> heading_level(ps) == Some(1u32),
        lower_seq(ps) == "subtitle"@ ==> heading_level(ps) == Some(2u32),
{
    reveal_strlit("title");
    reveal_strlit("subtitle");
    reveal_strlit("Heading");
    reveal_strlit("heading");
    if lower_seq(ps) == "title"@ || lower_seq(ps) == "subtitle"@ {
        assert(ps.len() == lower_seq(ps).len());
        if ps.len() >= 7 {
            assert(lower_seq(ps)[0] == lower_char(ps[0]));
            assert(ps.subrange(0, 7)[0] == ps[0]);
        }
        assert(!starts_with(ps, "Heading"@));
        assert(!starts_with(ps, "heading"@));
    }
}

/// Law: a finished paragraph with text, styled as a title (in any case),
/// becomes a first-level heading holding its trimmed text.
pub proof fn lemma_title_paragraph_is_heading(st: ParseState)
    requires
        trim(st.ptext).len() > 0,
        lower_seq(st.pstyle) == "title"@,
    ensures
        paragraph_block(st) == Some(BlockV::Heading { text: trim(st.ptext), level: 1u32 }),
{
    lemma_title_styles_are_headings(st.pstyle);
}

/// Law: a paragraph styled `Heading<d>` (or `heading<d>`) for a digit `d`
/// is a heading of level `d`.
pub proof fn lemma_numbered_heading_level(d: char, capital: bool)
    requires
        '0' <= d <= '9',
    ensures
        heading_level((if capital { "Heading"@ } else { "heading"@ }) + seq![d]) == Some((d as u32 - '0' as u32) as u32),
{
    reveal_strlit("Heading");
    reveal_strlit("heading");
    let ps = (if capital { "Heading"@ } else { "heading"@ }) + seq![d];
    assert(ps.subrange(0, 7) =~= (if capital { "Heading"@ } else { "heading"@ }));
    let rest = ps.subrange(7, ps.len() as int);
    assert(rest =~= seq![d]);
    assert(rest.drop_last() =~= Seq::<char>::empty());
    assert(crate::text::unsigned_body(rest) == rest);
    assert(starts_with(ps, "Heading"@) || starts_with(ps, "heading"@));
    assert(crate::text::all_digits(rest));
    assert(rest.last() == d);
    assert(crate::text::digits_value(rest) == crate::text::digits_value(rest.drop_last()) * 10 + crate::text::digit_val(d));
    assert(crate::text::digits_value(rest) == crate::text::digit_val(d));
    assert(parse_u32(rest) == Some(crate::text::digit_val(d)));
}

pub open spec fn digit_of(c: char) -> u32 {
    if '0' <= c && c <= '9' {
        (c as u32 - '0' as u32) as u32
    } else {
        0
    }
}

/// The list level a style gives: its last character as a digit, else 0.
pub open spec fn list_level(ps: Seq<char>) -> u32 {
    if ps.len() == 0 {
        0
    } else {
        digit_of(ps.last())
    }
}

/// The block a finished paragraph gives, if any.
pub open spec fn paragraph_block(st: ParseState) -> Option<BlockV> {
    let text = trim(st.ptext);
    if text.len() > 0 || st.runs.len() > 0 || st.drawing {
        Some(
            match heading_level(st.pstyle) {
                Some(l) => BlockV::Heading { text, level: l },
                None => if st.drawing {
                    BlockV::Image {
                        alt_text: Some(
                            if text.len() == 0 {
                                "image"@
                            } else {
                                text
                            },
                        ),
                        width_emu: 0,
                        height_emu: 0,
                    }
                } else if st.numpr {
                    BlockV::ListItem {
                        text,
                        level: list_level(st.pstyle),
                        ordered: starts_with(lower_seq(st.pstyle), "listnumber"@),
                    }
                } else {
                    BlockV::Paragraph {
                        text,
                        style: if st.pstyle.len() == 0 {
                            None
                        } else {
                            Some(st.pstyle)
                        },
                        runs: st.runs,
                    }
                },
            },
        )
    } else {
        None
    }
}

/// The text a run adds to its paragraph: a space first where neither side
/// has one at the join.
pub open spec fn joined_text(ptext: Seq<char>, rtext: Seq<char>) -> Seq<char> {
    if ptext.len() > 0 && ptext.last() != ' ' && !(rtext.len() > 0 && rtext[0] == ' ') {
        ptext + seq![' '] + rtext
    } else {
        ptext + rtext
    }
}

pub open spec fn flag(b: bool) -> Option<bool> {
    if b {
        Some(true)
    } else {
        None
    }
}

/// The reader's state after an opening (or empty) tag named `tag`.
pub open spec fn step_open(st: ParseState, tag: Seq<char>, c: Seq<char>) -> ParseState {
    if tag == "w:body"@ {
        ParseState { in_body: true, ..st }
    } else if tag == "w:p"@ && st.in_body {
        if st.para == 0 {
            ParseState {
                pstyle: Seq::empty(),
                numpr: false,
                drawing: false,
                runs: Seq::empty(),
                ptext: Seq::empty(),
                rtext: Seq::empty(),
                bold: false,
                italic: false,
                strike: false,
                underline: false,
                para: 1,
                ..st
            }
        } else {
            ParseState { para: st.para + 1, ..st }
        }
    } else if tag == "w:pPr"@ && st.para > 0 {
        ParseState { ppr: st.ppr + 1, ..st }
    } else if tag == "w:numPr"@ && st.ppr > 0 {
        ParseState { numpr: true, ..st }
    } else if tag == "w:pStyle"@ && st.ppr > 0 {
        ParseState { pstyle: pstyle_value(c), ..st }
    } else if tag == "w:r"@ && st.para > 0 {
        if st.run == 0 {
            ParseState {
                run: 1,
                rtext: Seq::empty(),
                bold: false,
                italic: false,
                strike: false,
                underline: false,
                ..st
            }
        } else {
            ParseState { run: st.run + 1, ..st }
        }
    } else if tag == "w:rPr"@ && st.run > 0 {
        ParseState { rpr: st.rpr + 1, ..st }
    } else if tag == "w:b"@ && st.rpr > 0 {
        ParseState { bold: true, ..st }
    } else if tag == "w:i"@ && st.rpr > 0 {
        ParseState { italic: true, ..st }
    } else if tag == "w:strike"@ && st.rpr > 0 {
        ParseState { strike: true, ..st }
    } else if tag == "w:u"@ && st.rpr > 0 {
        ParseState { underline: true, ..st }
    } else if tag == "w:drawing"@ && st.run > 0 {
        ParseState { drawing: true, ..st }
    } else if tag == "w:tbl"@ && st.in_body {
        if st.tbl == 0 {
            ParseState { rows: Seq::empty(), tbl: 1, ..st }
        } else {
            ParseState { tbl: st.tbl + 1, ..st }
        }
    } else if tag == "w:tr"@ && st.tbl > 0 {
        if st.tr == 0 {
            ParseState { cells: Seq::empty(), tr: 1, ..st }
        } else {
            ParseState { tr: st.tr + 1, ..st }
        }
    } else if tag == "w:tc"@ && st.tr > 0 {
        if st.tc == 0 {
            ParseState { cells: st.cells.push(Seq::empty()), tc: 1, ..st }
        } else {
            ParseState { tc: st.tc + 1, ..st }
        }
    } else {
        st
    }
}

/// The reader's state after a closing tag named `tag`.
pub open spec fn step_close(st: ParseState, tag: Seq<char>) -> ParseState {
    if tag == "w:body"@ {
        ParseState { in_body: false, ..st }
    } else if tag == "w:p"@ && st.para > 0 {
        let st2 = ParseState { para: (st.para - 1) as nat, ..st };
        if st2.para > 0 || st2.tc > 0 {
            st2
        } else {
            match paragraph_block(st2) {
                Some(b) => ParseState { blocks: st2.blocks.push(b), ..st2 },
                None => st2,
            }
        }
    } else if tag == "w:pPr"@ && st.ppr > 0 {
        ParseState { ppr: (st.ppr - 1) as nat, ..st }
    } else if tag == "w:r"@ && st.run > 0 {
        let st2 = ParseState { run: (st.run - 1) as nat, ..st };
        if st2.run > 0 || st2.rtext.len() == 0 {
            st2
        } else {
            ParseState {
                runs: st2.runs.push(
                    RunV {
                        text: st2.rtext,
                        bold: flag(st2.bold),
                        italic: flag(st2.italic),
                        underline: flag(st2.underline),
                        strike: flag(st2.strike),
                        color: None,
                        font: None,
                    },
                ),
                ptext: joined_text(st2.ptext, st2.rtext),
                ..st2
            }
        }
    } else if tag == "w:rPr"@ && st.rpr > 0 {
        ParseState { rpr: (st.rpr - 1) as nat, ..st }
    } else if tag == "w:tbl"@ && st.tbl > 0 {
        let st2 = ParseState { tbl: (st.tbl - 1) as nat, ..st };
        if st2.tbl > 0 || st2.rows.len() == 0 {
            st2
        } else {
            ParseState { blocks: st2.blocks.push(BlockV::Table { rows: st2.rows }), rows: Seq::empty(), ..st2 }
        }
    } else if tag == "w:tr"@ && st.tr > 0 {
        let st2 = ParseState { tr: (st.tr - 1) as nat, ..st };
        if st2.tr > 0 || st2.cells.len() == 0 {
            st2
        } else {
            ParseState { rows: st2.rows.push(st2.cells), cells: Seq::empty(), ..st2 }
        }
    } else if tag == "w:tc"@ && st.tc > 0 {
        ParseState { tc: (st.tc - 1) as nat, ..st }
    } else {
        st
    }
}

/// The reader's state after text `t`: it goes to the current run (outside
/// its properties) and to the current table cell.
pub open spec fn step_text(st: ParseState, t: Seq<char>) -> ParseState {
    let st2 = if st.run > 0 && st.rpr == 0 {
        ParseState { rtext: st.rtext + t, ..st }
    } else {
        st
    };
    if st2.tc > 0 && st2.cells.len() > 0 {
        ParseState { cells: st2.cells.update(st2.cells.len() - 1, st2.cells.last() + t), ..st2 }
    } else {
        st2
    }
}

pub open spec fn step(st: ParseState, e: Ev) -> ParseState {
    if e.0 == XmlKind::Start || e.0 == XmlKind::Empty {
        step_open(st, event_name(e), e.1)
    } else if e.0 == XmlKind::End {
        step_close(st, e.1)
    } else if e.0 == XmlKind::Text {
        step_text(st, e.1)
    } else if e.0 == XmlKind::GeneralRef {
        match entity_text(e.1) {
            Some(t) => step_text(st, t),
            None => st,
        }
    } else {
        st
    }
}

pub open spec fn run_events(es: Seq<Ev>, n: int) -> ParseState
    decreases n,
{
    if n <= 0 {
        initial_state()
    } else {
        step(run_events(es, n - 1), es[n - 1])
    }
}

/// The blocks of a document body, or the tokenizer's error.
pub open spec fn body_blocks(doc_xml: Seq<u8>) -> Result<Seq<BlockV>, Seq<char>> {
    let (es, err) = trimmed_xml_scan(doc_xml);
    match err {
        Some(e) => Err("XML parse error: "@ + e),
        None => Ok(run_events(es, es.len() as int).blocks),
    }
}

/// The reader's working state.
pub struct Extraction {
    pub in_body: bool,
    pub para: usize,
    pub run: usize,
    pub rpr: usize,
    pub ppr: usize,
    pub tbl: usize,
    pub tr: usize,
    pub tc: usize,
    pub pstyle: String,
    pub numpr: bool,
    pub drawing: bool,
    pub runs: Vec<RunInfo>,
    pub ptext: String,
    pub rtext: String,
    pub bold: bool,
    pub italic: bool,
    pub strike: bool,
    pub underline: bool,
    pub rows: Vec<TableRow>,
    pub cells: Vec<String>,
    pub blocks: Vec<ContentBlock>,
}

impl View for Extraction {
    type V = ParseState;

    open spec fn view(&self) -> ParseState {
        ParseState {
            in_body: self.in_body,
            para: self.para as nat,
            run: self.run as nat,
            rpr: self.rpr as nat,
            ppr: self.ppr as nat,
            tbl: self.tbl as nat,
            tr: self.tr as nat,
            tc: self.tc as nat,
            pstyle: self.pstyle@,
            numpr: self.numpr,
            drawing: self.drawing,
            runs: self.runs@.map_values(|r: RunInfo| r@),
            ptext: self.ptext@,
            rtext: self.rtext@,
            bold: self.bold,
            italic: self.italic,
            strike: self.strike,
            underline: self.underline,
            rows: rows_view(self.rows@),
            cells: strings_view(self.cells@),
            blocks: blocks_view(self.blocks@),
        }
    }
}

impl Extraction {
    pub open spec fn counters_below(&self, n: nat) -> bool {
        &&& self.para <= n
        &&& self.run <= n
        &&& self.rpr <= n
        &&& self.ppr <= n
        &&& self.tbl <= n
        &&& self.tr <= n
        &&& self.tc <= n
    }

    pub fn new() -> (x: Self)
        ensures
            x@ == initial_state(),
            x.counters_below(0),
    {
        let x = Extraction {
            in_body: false,
            para: 0,
            run: 0,
            rpr: 0,
            ppr: 0,
            tbl: 0,
            tr: 0,
            tc: 0,
            pstyle: String::new(),
            numpr: false,
            drawing: false,
            runs: Vec::new(),
            ptext: String::new(),
            rtext: String::new(),
            bold: false,
            italic: false,
            strike: false,
            underline: false,
            rows: Vec::new(),
            cells: Vec::new(),
            blocks: Vec::new(),
        };
        proof {
            assert(x@.runs =~= Seq::<RunV>::empty());
            assert(x@.rows =~= Seq::<Seq<Seq<char>>>::empty());
            assert(x@.cells =~= Seq::<Seq<char>>::empty());
            assert(x@.blocks =~= Seq::<BlockV>::empty());
        }
        x
    }
}

fn pstyle_of(c: &str) -> (r: String)
    ensures
        r@ == pstyle_value(c@),
{
    match tag_attribute(c, "w:val") {
        Some(v) => {
            if v.as_str().unicode_len() > 0 {
                return v;
            }
        },
        None => {},
    }
    let attrs = tag_attributes(c);
    let ghost av = attrs@.map_values(|a: (String, String)| (a.0@, a.1@));
    let mut k: usize = 0;
    while k < attrs.len()
        invariant
            k <= attrs@.len(),
            av == attrs@.map_values(|a: (String, String)| (a.0@, a.1@)),
            av == start_tag_attributes(c@),
            val_attribute(av, k as int) == val_attribute(av, 0),
            !(start_tag_attribute(c@, "w:val"@) matches Some(v) && v.len() > 0),
        decreases attrs@.len() - k,
    {
        let key = chars_of(attrs[k].0.as_str());
        proof {
            assert(av[k as int] == (attrs@[k as int].0@, attrs@[k as int].1@));
        }
        if crate::text::has_suffix(&key, &chars_of("val")) {
            return attrs[k].1.clone();
        }
        k = k + 1;
    }
    String::new()
}

fn heading_of(ps: &str) -> (r: Option<u32>)
    ensures
        r == heading_level(ps@),
{
    let cs = chars_of(ps);
    let num = if has_prefix(&cs, &chars_of("Heading")) || has_prefix(&cs, &chars_of("heading")) {
        proof {
            reveal_strlit("Heading");
            reveal_strlit("heading");
        }
        let rest = crate::text::slice_chars(&cs, 7, cs.len());
        parse_u32_chars(&rest)
    } else {
        None
    };
    match num {
        Some(n) => Some(n),
        None => {
            let low = to_lower(&cs);
            if seq_eq(&low, &chars_of("title")) {
                Some(1u32)
            } else if seq_eq(&low, &chars_of("subtitle")) || seq_eq(&low, &chars_of("heading")) {
                Some(2u32)
            } else {
                None
            }
        },
    }
}

fn list_level_of(ps: &str) -> (r: u32)
    ensures
        r == list_level(ps@),
{
    let cs = chars_of(ps);
    if cs.len() == 0 {
        0
    } else {
        let c = cs[cs.len() - 1];
        if '0' <= c && c <= '9' {
            (c as u32) - ('0' as u32)
        } else {
            0
        }
    }
}

impl Extraction {
    fn finish_paragraph(&mut self)
        ensures
            final(self)@ == match paragraph_block(old(self)@) {
                Some(b) => ParseState { blocks: old(self)@.blocks.push(b), ..old(self)@ },
                None => old(self)@,
            },
            final(self).para == old(self).para,
            final(self).run == old(self).run,
            final(self).rpr == old(self).rpr,
            final(self).ppr == old(self).ppr,
            final(self).tbl == old(self).tbl,
            final(self).tr == old(self).tr,
            final(self).tc == old(self).tc,
    {
        let text = string_of(&trim_chars(&chars_of(self.ptext.as_str())));
        if !(text.as_str().unicode_len() > 0 || self.runs.len() > 0 || self.drawing) {
            return;
        }
        let block = match heading_of(self.pstyle.as_str()) {
            Some(l) => ContentBlock::Heading { text, level: l },
            None => if self.drawing {
                let alt = if text.as_str().unicode_len() == 0 {
                    "image".to_owned()
                } else {
                    text
                };
                ContentBlock::Image { alt_text: Some(alt), width_emu: 0, height_emu: 0 }
            } else if self.numpr {
                let low = to_lower(&chars_of(self.pstyle.as_str()));
                let ordered = has_prefix(&low, &chars_of("listnumber"));
                ContentBlock::ListItem { text, level: list_level_of(self.pstyle.as_str()), ordered }
            } else {
                let style = if self.pstyle.as_str().unicode_len() == 0 {
                    None
                } else {
                    Some(self.pstyle.clone())
                };
                let mut runs: Vec<RunInfo> = Vec::new();
                let mut k: usize = 0;
                while k < self.runs.len()
                    invariant
                        k <= self.runs@.len(),
                        runs@.len() == k,
                        runs@.map_values(|r: RunInfo| r@) == self.runs@.map_values(|r: RunInfo| r@).take(k as int),
                    decreases self.runs@.len() - k,
                {
                    let r = copy_run(&self.runs[k]);
                    let ghost before = runs@;
                    let ghost rv = r@;
                    runs.push(r);
                    proof {
                        assert(rv == self.runs@[k as int]@);
                        assert(runs@ == before.push(r));
                        assert forall|j: int| 0 <= j < k + 1 implies runs@[j]@ == self.runs@[j]@ by {
                            if j < k {
                                assert(runs@[j] == before[j]);
                                assert(before.map_values(|r: RunInfo| r@)[j] == self.runs@.map_values(|r: RunInfo| r@).take(k as int)[j]);
                            }
                        }
                        assert(runs@.map_values(|r: RunInfo| r@) =~= self.runs@.map_values(|r: RunInfo| r@).take(k + 1));
                    }
                    k = k + 1;
                }
                proof {
                    assert(self.runs@.map_values(|r: RunInfo| r@).take(self.runs@.len() as int) =~= self.runs@.map_values(|r: RunInfo| r@));
                }
                ContentBlock::Paragraph { text, style, runs }
            },
        };
        let ghost before = self.blocks@;
        self.blocks.push(block);
        proof {
            assert(blocks_view(self.blocks@) =~= blocks_view(before).push(block@));
        }
    }
}

fn copy_opt(o: &Option<String>) -> (r: Option<String>)
    ensures
        opt_chars(r) == opt_chars(*o),
{
    match o {
        Some(s) => Some(s.clone()),
        None => None,
    }
}

fn copy_run(r: &RunInfo) -> (c: RunInfo)
    ensures
        c@ == r@,
{
    RunInfo {
        text: r.text.clone(),
        bold: r.bold,
        italic: r.italic,
        underline: r.underline,
        strike: r.strike,
        color: copy_opt(&r.color),
        font: copy_opt(&r.font),
    }
}

fn is_name(tag: &Vec<char>, name: &str) -> (b: bool)
    ensures
        b == (tag@ == name@),
{
    seq_eq(tag, &chars_of(name))
}

impl Extraction {
    #[verifier::rlimit(80)]
    fn open_tag(&mut self, tag: &Vec<char>, content: &str)
        requires
            old(self).counters_below((usize::MAX - 1) as nat),
        ensures
            final(self)@ == step_open(old(self)@, tag@, content@),
            forall|n: nat| old(self).counters_below(n) ==> final(self).counters_below(n + 1),
    {
        if is_name(tag, "w:body") {
            self.in_body = true;
        } else if is_name(tag, "w:p") && self.in_body {
            if self.para == 0 {
                self.pstyle = String::new();
                self.numpr = false;
                self.drawing = false;
                self.runs = Vec::new();
                self.ptext = String::new();
                self.rtext = String::new();
                self.bold = false;
                self.italic = false;
                self.strike = false;
                self.underline = false;
                self.para = 1;
                proof {
                    assert(self@.runs =~= Seq::<RunV>::empty());
                    assert(self@ =~= step_open(old(self)@, tag@, content@));
                }
            } else {
                self.para = self.para + 1;
            }
        } else if is_name(tag, "w:pPr") && self.para > 0 {
            self.ppr = self.ppr + 1;
        } else if is_name(tag, "w:numPr") && self.ppr > 0 {
            self.numpr = true;
        } else if is_name(tag, "w:pStyle") && self.ppr > 0 {
            self.pstyle = pstyle_of(content);
        } else if is_name(tag, "w:r") && self.para > 0 {
            if self.run == 0 {
                self.run = 1;
                self.rtext = String::new();
                self.bold = false;
                self.italic = false;
                self.strike = false;
                self.underline = false;
            } else {
                self.run = self.run + 1;
            }
        } else if is_name(tag, "w:rPr") && self.run > 0 {
            self.rpr = self.rpr + 1;
        } else if is_name(tag, "w:b") && self.rpr > 0 {
            self.bold = true;
        } else if is_name(tag, "w:i") && self.rpr > 0 {
            self.italic = true;
        } else if is_name(tag, "w:strike") && self.rpr > 0 {
            self.strike = true;
        } else if is_name(tag, "w:u") && self.rpr > 0 {
            self.underline = true;
        } else if is_name(tag, "w:drawing") && self.run > 0 {
            self.drawing = true;
        } else if is_name(tag, "w:tbl") && self.in_body {
            if self.tbl == 0 {
                self.rows = Vec::new();
                self.tbl = 1;
                proof {
                    assert(self@.rows =~= Seq::<Seq<Seq<char>>>::empty());
                    assert(self@ =~= step_open(old(self)@, tag@, content@));
                }
            } else {
                self.tbl = self.tbl + 1;
            }
        } else if is_name(tag, "w:tr") && self.tbl > 0 {
            if self.tr == 0 {
                self.cells = Vec::new();
                self.tr = 1;
                proof {
                    assert(self@.cells =~= Seq::<Seq<char>>::empty());
                    assert(self@ =~= step_open(old(self)@, tag@, content@));
                }
            } else {
                self.tr = self.tr + 1;
            }
        } else if is_name(tag, "w:tc") && self.tr > 0 {
            if self.tc == 0 {
                let ghost before = self.cells@;
                self.cells.push(String::new());
                self.tc = 1;
                proof {
                    assert(self@.cells =~= strings_view(before).push(Seq::<char>::empty()));
                    assert(self@ =~= step_open(old(self)@, tag@, content@));
                }
            } else {
                self.tc = self.tc + 1;
            }
        }
    }

    #[verifier::rlimit(80)]
    fn close_tag(&mut self, tag: &Vec<char>)
        ensures
            final(self)@ == step_close(old(self)@, tag@),
            forall|n: nat| old(self).counters_below(n) ==> final(self).counters_below(n),
    {
        if is_name(tag, "w:body") {
            self.in_body = false;
        } else if is_name(tag, "w:p") && self.para > 0 {
            self.para = self.para - 1;
            if self.para > 0 || self.tc > 0 {
                return;
            }
            self.finish_paragraph();
        } else if is_name(tag, "w:pPr") && self.ppr > 0 {
            self.ppr = self.ppr - 1;
        } else if is_name(tag, "w:r") && self.run > 0 {
            self.run = self.run - 1;
            if self.run > 0 || self.rtext.as_str().unicode_len() == 0 {
                return;
            }
            let info = RunInfo {
                text: self.rtext.clone(),
                bold: if self.bold { Some(true) } else { None },
                italic: if self.italic { Some(true) } else { None },
                underline: if self.underline { Some(true) } else { None },
                strike: if self.strike { Some(true) } else { None },
                color: None,
                font: None,
            };
            let ghost before = self.runs@;
            self.runs.push(info);
            let pt = chars_of(self.ptext.as_str());
            let rt = chars_of(self.rtext.as_str());
            if pt.len() > 0 && pt[pt.len() - 1] != ' ' && !(rt.len() > 0 && rt[0] == ' ') {
                self.ptext.push(' ');
            }
            let r = self.rtext.clone();
            push_str(&mut self.ptext, r.as_str());
            proof {
                assert(self@.runs =~= before.map_values(|r: RunInfo| r@).push(info@));
                assert(self@.ptext =~= joined_text(pt@, rt@));
                assert(self@ =~= step_close(old(self)@, tag@));
            }
        } else if is_name(tag, "w:rPr") && self.rpr > 0 {
            self.rpr = self.rpr - 1;
        } else if is_name(tag, "w:tbl") && self.tbl > 0 {
            self.tbl = self.tbl - 1;
            if self.tbl > 0 || self.rows.len() == 0 {
                return;
            }
            let mut rows: Vec<TableRow> = Vec::new();
            std::mem::swap(&mut rows, &mut self.rows);
            let ghost before = self.blocks@;
            let block = ContentBlock::Table { rows };
            self.blocks.push(block);
            proof {
                assert(self@.rows =~= Seq::<Seq<Seq<char>>>::empty());
                assert(self@.blocks =~= blocks_view(before).push(block@));
                assert(self@ =~= step_close(old(self)@, tag@));
            }
        } else if is_name(tag, "w:tr") && self.tr > 0 {
            self.tr = self.tr - 1;
            if self.tr > 0 || self.cells.len() == 0 {
                return;
            }
            let mut cells: Vec<String> = Vec::new();
            std::mem::swap(&mut cells, &mut self.cells);
            let ghost before = self.rows@;
            let row = TableRow { cells };
            self.rows.push(row);
            proof {
                assert(self@.cells =~= Seq::<Seq<char>>::empty());
                assert(self@.rows =~= rows_view(before).push(strings_view(row.cells@)));
                assert(self@ =~= step_close(old(self)@, tag@));
            }
        } else if is_name(tag, "w:tc") && self.tc > 0 {
            self.tc = self.tc - 1;
        }
    }

    fn add_text(&mut self, t: &str)
        ensures
            final(self)@ == step_text(old(self)@, t@),
            final(self).para == old(self).para,
            final(self).run == old(self).run,
            final(self).rpr == old(self).rpr,
            final(self).ppr == old(self).ppr,
            final(self).tbl == old(self).tbl,
            final(self).tr == old(self).tr,
            final(self).tc == old(self).tc,
    {
        if self.run > 0 && self.rpr == 0 {
            push_str(&mut self.rtext, t);
        }
        if self.tc > 0 && self.cells.len() > 0 {
            let last = self.cells.len() - 1;
            let mut cell = self.cells[last].clone();
            push_str(&mut cell, t);
            let ghost before = self.cells@;
            self.cells.set(last, cell);
            proof {
                assert(self@.cells =~= strings_view(before).update(last as int, strings_view(before)[last as int] + t@));
            }
        }
    }

    /// Takes one event into account.
    pub fn step(&mut self, e: &XmlEvent)
        requires
            old(self).counters_below((usize::MAX - 1) as nat),
        ensures
            final(self)@ == step(old(self)@, e@),
            forall|n: nat| old(self).counters_below(n) ==> final(self).counters_below(n + 1),
    {
        if e.kind == XmlKind::Start || e.kind == XmlKind::Empty {
            let tag = name_of(e);
            self.open_tag(&tag, e.content.as_str());
        } else if e.kind == XmlKind::End {
            let tag = chars_of(e.content.as_str());
            self.close_tag(&tag);
        } else if e.kind == XmlKind::Text {
            self.add_text(e.content.as_str());
        } else if e.kind == XmlKind::GeneralRef {
            match entity_chars(e.content.as_str()) {
                Some(t) => self.add_text(t),
                None => {},
            }
        }
    }
}

/// The blocks of a document body (`word/document.xml`): paragraphs,
/// headings, list items, images and tables, in order.
pub fn extract_content_blocks(doc_xml: &[u8]) -> (r: Result<Vec<ContentBlock>, String>)
    ensures
        match body_blocks(doc_xml@) {
            Ok(bs) => r matches Ok(v) && blocks_view(v@) == bs,
            Err(m) => r matches Err(e) && e@ == m,
        },
{
    let (events, err) = scan_xml(doc_xml);
    match err {
        Some(e) => {
            let mut m = String::new();
            push_str(&mut m, "XML parse error: ");
            push_str(&mut m, e.as_str());
            return Err(m);
        },
        None => {},
    }
    let ghost es = evs(events@);
    let mut x = Extraction::new();
    let mut i: usize = 0;
    while i < events.len()
        invariant
            i <= events@.len(),
            es == evs(events@),
            x@ == run_events(es, i as int),
            x.counters_below(i as nat),
        decreases events@.len() - i,
    {
        proof {
            assert(es[i as int] == events@[i as int]@);
        }
        x.step(&events[i]);
        i = i + 1;
    }
    Ok(x.blocks)
}

// ---------------------------------------------------------------------------
// Markdown
// ---------------------------------------------------------------------------

/// A run as Markdown: struck through, then bold and/or italic, then underlined.
pub open spec fn run_markdown(r: RunV) -> Seq<char> {
    if r.text.len() == 0 {
        Seq::empty()
    } else {
        let t1 = if r.strike == Some(true) {
            "~~"@ + r.text + "~~"@
        } else {
            r.text
        };
        let bold = r.bold == Some(true);
        let italic = r.italic == Some(true);
        let t2 = if bold && italic {
            "***"@ + t1 + "***"@
        } else if bold {
            "**"@ + t1 + "**"@
        } else if italic {
            "*"@ + t1 + "*"@
        } else {
            t1
        };
        if r.underline == Some(true) {
            "<u>"@ + t2 + "</u>"@
        } else {
            t2
        }
    }
}

fn format_run_text(run: &RunInfo) -> (r: String)
    ensures
        r@ == run_markdown(run@),
{
    if run.text.as_str().unicode_len() == 0 {
        return String::new();
    }
    let mut t = run.text.clone();
    if run.strike == Some(true) {
        let mut u = String::new();
        push_str(&mut u, "~~");
        push_str(&mut u, t.as_str());
        push_str(&mut u, "~~");
        t = u;
    }
    let bold = run.bold == Some(true);
    let italic = run.italic == Some(true);
    let mark = if bold && italic {
        "***"
    } else if bold {
        "**"
    } else if italic {
        "*"
    } else {
        ""
    };
    let mut u = String::new();
    push_str(&mut u, mark);
    push_str(&mut u, t.as_str());
    push_str(&mut u, mark);
    proof {
        reveal_strlit("");
        if !bold && !italic {
            assert(u@ =~= t@);
        }
    }
    if run.underline == Some(true) {
        let mut w = String::new();
        push_str(&mut w, "<u>");
        push_str(&mut w, u.as_str());
        push_str(&mut w, "</u>");
        w
    } else {
        u
    }
}

pub open spec fn max_cols(rows: Seq<Seq<Seq<char>>>, n: int) -> nat
    decreases n,
{
    if n <= 0 {
        0
    } else {
        let m = max_cols(rows, n - 1);
        if rows[n - 1].len() > m {
            rows[n - 1].len()
        } else {
            m
        }
    }
}

/// The cells of a row, each ` text |` with line feeds as spaces.
pub open spec fn cells_markdown(cells: Seq<Seq<char>>, n: int) -> Seq<char>
    decreases n,
{
    if n <= 0 {
        Seq::empty()
    } else {
        cells_markdown(cells, n - 1) + " "@ + replace_all(cells[n - 1], seq!['\n'], seq![' ']) + " |"@
    }
}

pub open spec fn row_markdown(cells: Seq<Seq<char>>, width: nat, first: bool) -> Seq<char> {
    "|"@ + cells_markdown(cells, cells.len() as int) + repeat(" |"@, (width - cells.len()) as nat) + "\n"@ + if first {
        "|"@ + repeat("---|"@, width) + "\n"@
    } else {
        Seq::<char>::empty()
    }
}

pub open spec fn rows_markdown(rows: Seq<Seq<Seq<char>>>, width: nat, n: int) -> Seq<char>
    decreases n,
{
    if n <= 0 {
        Seq::empty()
    } else {
        rows_markdown(rows, width, n - 1) + row_markdown(rows[n - 1], width, n == 1)
    }
}

/// A table as a Markdown pipe table: a separator after the first row,
/// short rows padded; nothing for a table without cells.
pub open spec fn table_markdown(rows: Seq<Seq<Seq<char>>>) -> Seq<char> {
    let width = max_cols(rows, rows.len() as int);
    if rows.len() == 0 || width == 0 {
        Seq::empty()
    } else {
        rows_markdown(rows, width, rows.len() as int)
    }
}

pub proof fn lemma_max_cols(rows: Seq<Seq<Seq<char>>>, n: int, k: int)
    requires
        0 <= k < n <= rows.len(),
    ensures
        rows[k].len() <= max_cols(rows, n),
    decreases n,
{
    if k < n - 1 {
        lemma_max_cols(rows, n - 1, k);
    }
}

fn format_table(rows: &Vec<TableRow>) -> (r: String)
    ensures
        r@ == table_markdown(rows_view(rows@)),
{
    let ghost rv = rows_view(rows@);
    if rows.len() == 0 {
        return String::new();
    }
    let mut width: usize = 0;
    let mut i: usize = 0;
    while i < rows.len()
        invariant
            i <= rows@.len(),
            rv == rows_view(rows@),
            width == max_cols(rv, i as int),
        decreases rows@.len() - i,
    {
        proof {
            assert(rv[i as int].len() == rows@[i as int].cells@.len());
        }
        if rows[i].cells.len() > width {
            width = rows[i].cells.len();
        }
        i = i + 1;
    }
    if width == 0 {
        return String::new();
    }
    let mut md = String::new();
    let mut k: usize = 0;
    while k < rows.len()
        invariant
            k <= rows@.len(),
            rv == rows_view(rows@),
            width == max_cols(rv, rv.len() as int),
            md@ == rows_markdown(rv, width as nat, k as int),
        decreases rows@.len() - k,
    {
        let cells = &rows[k].cells;
        proof {
            assert(rv[k as int] == strings_view(cells@));
            lemma_max_cols(rv, rv.len() as int, k as int);
        }
        let ghost before = md@;
        push_str(&mut md, "|");
        let mut c: usize = 0;
        while c < cells.len()
            invariant
                c <= cells@.len(),
                md@ == before + "|"@ + cells_markdown(strings_view(cells@), c as int),
            decreases cells@.len() - c,
        {
            push_str(&mut md, " ");
            let nlv = vec!['\n'];
            let spv = vec![' '];
            proof {
                assert(nlv@ =~= seq!['\n']);
                assert(spv@ =~= seq![' ']);
            }
            let cleaned = replace_all_chars(&chars_of(cells[c].as_str()), &nlv, &spv);
            push_str(&mut md, string_of(&cleaned).as_str());
            push_str(&mut md, " |");
            proof {
                assert(strings_view(cells@)[c as int] == cells@[c as int]@);
                assert(md@ =~= before + "|"@ + cells_markdown(strings_view(cells@), c + 1));
            }
            c = c + 1;
        }
        push_repeat(&mut md, " |", (width - cells.len()) as u64);
        push_str(&mut md, "\n");
        if k == 0 {
            push_str(&mut md, "|");
            push_repeat(&mut md, "---|", width as u64);
            push_str(&mut md, "\n");
        }
        proof {
            assert(md@ =~= rows_markdown(rv, width as nat, k + 1));
        }
        k = k + 1;
    }
    md
}

/// The Markdown of one block.
pub open spec fn block_markdown(b: BlockV) -> Seq<char> {
    match b {
        BlockV::Heading { text, level } => repeat("#"@, level as nat) + " "@ + text + "\n\n"@,
        BlockV::Paragraph { text, runs, .. } => if runs.len() > 0 {
            runs_markdown(runs, runs.len() as int) + "\n\n"@
        } else {
            text + "\n\n"@
        },
        BlockV::ListItem { text, level, ordered } => repeat("  "@, level as nat) + if ordered {
            "1."@
        } else {
            "-"@
        } + " "@ + text + "\n"@,
        BlockV::Table { rows } => table_markdown(rows) + "\n"@,
        BlockV::Image { alt_text, .. } => "!["@ + match alt_text {
            Some(a) => a,
            None => "image"@,
        } + "](image.png)\n\n"@,
    }
}

/// The first `n` runs of a paragraph, a space between two runs where
/// neither has one at the join.
pub open spec fn runs_markdown(runs: Seq<RunV>, n: int) -> Seq<char>
    decreases n,
{
    if n <= 0 {
        Seq::empty()
    } else {
        let i = n - 1;
        runs_markdown(runs, n - 1) + if i > 0 && !starts_with(runs[i].text, " "@) && !ends_with(runs[i - 1].text, " "@) {
            " "@
        } else {
            Seq::<char>::empty()
        } + run_markdown(runs[i])
    }
}

pub open spec fn blocks_markdown(bs: Seq<BlockV>, n: int) -> Seq<char>
    decreases n,
{
    if n <= 0 {
        Seq::empty()
    } else {
        blocks_markdown(bs, n - 1) + block_markdown(bs[n - 1])
    }
}

/// The Markdown of a document's blocks, without trailing white space.
pub open spec fn content_markdown(bs: Seq<BlockV>) -> Seq<char> {
    trim_end(blocks_markdown(bs, bs.len() as int))
}

fn push_block(md: &mut String, b: &ContentBlock)
    ensures
        final(md)@ == old(md)@ + block_markdown(b@),
{
    let ghost start = md@;
    match b {
        ContentBlock::Heading { text, level } => {
            push_repeat(md, "#", *level as u64);
            push_str(md, " ");
            push_str(md, text.as_str());
            push_str(md, "\n\n");
        },
        ContentBlock::Paragraph { text, runs, .. } => {
            if runs.len() > 0 {
                let ghost rv = runs@.map_values(|r: RunInfo| r@);
                let mut i: usize = 0;
                while i < runs.len()
                    invariant
                        i <= runs@.len(),
                        rv == runs@.map_values(|r: RunInfo| r@),
                        md@ == start + runs_markdown(rv, i as int),
                    decreases runs@.len() - i,
                {
                    if i > 0 && !has_prefix(&chars_of(runs[i].text.as_str()), &chars_of(" ")) && !has_suffix(
                        &chars_of(runs[i - 1].text.as_str()),
                        &chars_of(" "),
                    ) {
                        push_str(md, " ");
                    }
                    let f = format_run_text(&runs[i]);
                    push_str(md, f.as_str());
                    proof {
                        assert(rv[i as int] == runs@[i as int]@);
                        if i > 0 {
                            assert(rv[i - 1] == runs@[i - 1]@);
                        }
                        assert(md@ =~= start + runs_markdown(rv, i + 1));
                    }
                    i = i + 1;
                }
            } else {
                push_str(md, text.as_str());
            }
            push_str(md, "\n\n");
        },
        ContentBlock::ListItem { text, level, ordered } => {
            push_repeat(md, "  ", *level as u64);
            push_str(md, if *ordered { "1." } else { "-" });
            push_str(md, " ");
            push_str(md, text.as_str());
            push_str(md, "\n");
        },
        ContentBlock::Table { rows } => {
            let t = format_table(rows);
            push_str(md, t.as_str());
            push_str(md, "\n");
        },
        ContentBlock::Image { alt_text, .. } => {
            push_str(md, "![");
            match alt_text {
                Some(a) => push_str(md, a.as_str()),
                None => push_str(md, "image"),
            }
            push_str(md, "](image.png)\n\n");
        },
    }
    assert(md@ =~= start + block_markdown(b@));
}

/// The Markdown of a document's blocks.
pub fn content_blocks_to_markdown(content: &Vec<ContentBlock>) -> (r: String)
    ensures
        r@ == content_markdown(blocks_view(content@)),
{
    let ghost bv = blocks_view(content@);
    let mut md = String::new();
    let mut i: usize = 0;
    while i < content.len()
        invariant
            i <= content@.len(),
            bv == blocks_view(content@),
            md@ == blocks_markdown(bv, i as int),
        decreases content@.len() - i,
    {
        push_block(&mut md, &content[i]);
        proof {
            assert(bv[i as int] == content@[i as int]@);
        }
        i = i + 1;
    }
    string_of(&trim_end_chars(&chars_of(md.as_str())))
}

/// Markdown with a leading front-matter block (between `---` lines)
/// removed, and leading white space with it.
pub open spec fn without_frontmatter(md: Seq<char>) -> Seq<char> {
    let trimmed = trim_start(md);
    if !starts_with(trimmed, "---"@) {
        trimmed
    } else {
        let after = trim_start(trim_start_all(trimmed, "---"@));
        match first_at(after, "\n---"@, 0) {
            Some(end) => trim_start(after.subrange(end + 4, after.len() as int)),
            None => trimmed,
        }
    }
}

fn strip_yaml_frontmatter(md: &str) -> (r: String)
    ensures
        r@ == without_frontmatter(md@),
{
    let cs = chars_of(md);
    let n = leading_ws(&cs);
    let trimmed = slice_chars(&cs, n, cs.len());
    let dashes = chars_of("---");
    if !has_prefix(&trimmed, &dashes) {
        return string_of(&trimmed);
    }
    let stripped = trim_start_all_chars(&trimmed, &dashes);
    let m = leading_ws(&stripped);
    let after = slice_chars(&stripped, m, stripped.len());
    match find_at(&after, &chars_of("\n---"), 0) {
        Some(end) => {
            proof {
                reveal_strlit("\n---");
            }
            let rest = slice_chars(&after, end + 4, after.len());
            let k = leading_ws(&rest);
            string_of(&slice_chars(&rest, k, rest.len()))
        },
        None => string_of(&trimmed),
    }
}

// ---------------------------------------------------------------------------
// Chunks
// ---------------------------------------------------------------------------

pub struct ChunkV {
    pub index: nat,
    pub heading: Option<Seq<char>>,
    pub heading_level: Option<u32>,
    pub text: Seq<char>,
    pub chunk_type: Seq<char>,
}

/// The chunker's state: chunks so far, text of the current section, its
/// heading and level, the next chunk's index.
pub struct ChunkerState {
    pub chunks: Seq<ChunkV>,
    pub current: Seq<char>,
    pub heading: Option<Seq<char>>,
    pub level: Option<u32>,
    pub index: nat,
}

/// The section's chunk, where it has text.
pub open spec fn flushed(st: ChunkerState) -> ChunkerState {
    if trim(st.current).len() > 0 {
        ChunkerState {
            chunks: st.chunks.push(
                ChunkV {
                    index: st.index,
                    heading: st.heading,
                    heading_level: st.level,
                    text: trim(st.current),
                    chunk_type: "section"@,
                },
            ),
            index: st.index + 1,
            ..st
        }
    } else {
        st
    }
}

/// A heading line starts a section; any other line joins the current one.
pub open spec fn chunk_line(st: ChunkerState, line: Seq<char>) -> ChunkerState {
    if starts_with(line, "#"@) {
        let f = flushed(st);
        ChunkerState {
            current: Seq::empty(),
            heading: Some(trim(trim_leading(line, '#'))),
            level: Some((line.len() - trim_leading(line, '#').len()) as u32),
            ..f
        }
    } else {
        ChunkerState {
            current: if st.current.len() > 0 {
                st.current + "\n"@ + line
            } else {
                line
            },
            ..st
        }
    }
}

pub open spec fn chunk_lines(ls: Seq<Seq<char>>, n: int) -> ChunkerState
    decreases n,
{
    if n <= 0 {
        ChunkerState { chunks: Seq::empty(), current: Seq::empty(), heading: None, level: None, index: 0 }
    } else {
        chunk_line(chunk_lines(ls, n - 1), ls[n - 1])
    }
}

/// The sections of a Markdown text, one chunk per heading with text under
/// it; the whole text as one chunk where no section has text.
pub open spec fn markdown_chunks(md: Seq<char>) -> Seq<ChunkV> {
    let ls = lines(md);
    let cs = flushed(chunk_lines(ls, ls.len() as int)).chunks;
    if cs.len() == 0 && trim(md).len() > 0 {
        seq![ChunkV { index: 0, heading: None, heading_level: None, text: trim(md), chunk_type: "full"@ }]
    } else {
        cs
    }
}

pub open spec fn chunk_matches(c: Chunk, v: ChunkV, source: Seq<char>) -> bool {
    &&& c.index == v.index
    &&& opt_chars(c.heading) == v.heading
    &&& c.heading_level == v.heading_level
    &&& c.text@ == v.text
    &&& c.metadata.source@ == source
    &&& c.metadata.format@ == "docx"@
    &&& c.metadata.chunk_type@ == v.chunk_type
}

fn make_chunk(index: usize, heading: &Option<String>, level: Option<u32>, text: String, source: &str, kind: &str) -> (c: Chunk)
    ensures
        c.index == index,
        opt_chars(c.heading) == opt_chars(*heading),
        c.heading_level == level,
        c.text@ == text@,
        c.metadata.source@ == source@,
        c.metadata.format@ == "docx"@,
        c.metadata.chunk_type@ == kind@,
{
    Chunk {
        index,
        heading: copy_opt(heading),
        heading_level: level,
        text,
        metadata: ChunkMetadata { source: source.to_owned(), format: "docx".to_owned(), chunk_type: kind.to_owned() },
    }
}

/// Splits Markdown into chunks at its headings.
pub fn split_markdown_into_chunks(markdown: &str, source: &str) -> (r: Vec<Chunk>)
    ensures
        r@.len() == markdown_chunks(markdown@).len(),
        forall|k: int| 0 <= k < r@.len() ==> chunk_matches(#[trigger] r@[k], markdown_chunks(markdown@)[k], source@),
{
    let ls = lines_of(&chars_of(markdown));
    let ghost lv = ls@.map_values(|l: Vec<char>| l@);
    let mut chunks: Vec<Chunk> = Vec::new();
    let mut current = String::new();
    let mut heading: Option<String> = None;
    let mut level: Option<u32> = None;
    let mut index: usize = 0;
    let mut i: usize = 0;
    while i < ls.len()
        invariant
            i <= ls@.len(),
            lv == ls@.map_values(|l: Vec<char>| l@),
            lv == lines(markdown@),
            index <= i,
            ({
                let st = chunk_lines(lv, i as int);
                &&& st.current == current@
                &&& st.heading == opt_chars(heading)
                &&& st.level == level
                &&& st.index == index
                &&& st.chunks.len() == chunks@.len()
                &&& forall|k: int| 0 <= k < chunks@.len() ==> chunk_matches(#[trigger] chunks@[k], st.chunks[k], source@)
            }),
        decreases ls@.len() - i,
    {
        let line = &ls[i];
        proof {
            assert(lv[i as int] == line@);
            reveal_strlit("#");
            reveal_strlit("\n");
        }
        let ghost before = chunks@;
        let is_heading = line.len() > 0 && line[0] == '#';
        proof {
            if is_heading {
                assert(line@.subrange(0, 1) =~= "#"@);
            } else if line@.len() > 0 {
                assert(line@.subrange(0, 1)[0] != "#"@[0]);
            }
            assert(is_heading == starts_with(line@, "#"@));
        }
        if is_heading {
            let t = trim_chars(&chars_of(current.as_str()));
            if t.len() > 0 {
                let c = make_chunk(index, &heading, level, string_of(&t), source, "section");
                chunks.push(c);
                index = index + 1;
            }
            let rest = trim_leading_chars(line, '#');
            proof {
                lemma_trim_leading_len(line@, '#');
            }
            let hashes: u32 = #[verifier::truncate] ((line.len() - rest.len()) as u32);
            level = Some(hashes);
            heading = Some(string_of(&trim_chars(&rest)));
            current = String::new();
        } else {
            if current.as_str().unicode_len() > 0 {
                current.push('\n');
            }
            push_str(&mut current, string_of(line).as_str());
        }
        proof {
            let st = chunk_lines(lv, (i + 1) as int);
            assert(st == chunk_line(chunk_lines(lv, i as int), line@));
            assert(st.current =~= current@);
            assert forall|k: int| 0 <= k < chunks@.len() implies chunk_matches(#[trigger] chunks@[k], st.chunks[k], source@) by {
                if k < before.len() {
                    assert(chunks@[k] == before[k]);
                }
            }
        }
        i = i + 1;
    }
    let ghost before = chunks@;
    let t = trim_chars(&chars_of(current.as_str()));
    if t.len() > 0 {
        let c = make_chunk(index, &heading, level, string_of(&t), source, "section");
        chunks.push(c);
    }
    proof {
        assert(ls@.len() == lv.len());
        let st = flushed(chunk_lines(lv, lv.len() as int));
        assert forall|k: int| 0 <= k < chunks@.len() implies chunk_matches(#[trigger] chunks@[k], st.chunks[k], source@) by {
            if k < before.len() {
                assert(chunks@[k] == before[k]);
            }
        }
    }
    if chunks.len() == 0 {
        let all = trim_chars(&chars_of(markdown));
        if all.len() > 0 {
            let c = make_chunk(0, &None, None, string_of(&all), source, "full");
            chunks.push(c);
        }
    }
    chunks
}

// ---------------------------------------------------------------------------
// List styles
// ---------------------------------------------------------------------------

/// The list level and kind a paragraph style names: bullet, number and
/// paragraph list styles (any case), their level the style's last digit.
/// Lower-casing is taken on ASCII letters, as no other character
/// lower-cases into the compared prefixes.
pub open spec fn list_style(style: Option<Seq<char>>) -> Option<(u32, bool)> {
    match style {
        Some(s) => {
            let low = lower_seq(s);
            if starts_with(low, "listbullet"@) || starts_with(low, "listnumber"@) || starts_with(low, "listparagraph"@) {
                Some((list_level(s), starts_with(low, "listnumber"@)))
            } else {
                None
            }
        },
        None => None,
    }
}

pub fn is_list_style(style_id: Option<&str>) -> (r: Option<(u32, bool)>)
    ensures
        r == list_style(match style_id {
            Some(s) => Some(s@),
            None => None,
        }),
{
    let s = match style_id {
        Some(s) => s,
        None => {
            return None;
        },
    };
    let low = to_lower(&chars_of(s));
    if has_prefix(&low, &chars_of("listbullet")) || has_prefix(&low, &chars_of("listnumber")) || has_prefix(
        &low,
        &chars_of("listparagraph"),
    ) {
        Some((list_level_of(s), has_prefix(&low, &chars_of("listnumber"))))
    } else {
        None
    }
}

pub open spec fn ascii_digit(c: char) -> bool {
    '0' <= c && c <= '9'
}

/// The list item a line of text looks like: its bullet gives its level, a
/// number (`1.`, `1)` or `(1)`) makes it ordered.
pub open spec fn list_item_of(text: Seq<char>) -> Option<(u32, bool)> {
    let t = trim_start(text);
    if starts_with(t, "- "@) || starts_with(t, "* "@) || starts_with(t, "+ "@) || starts_with(t, "\u{2022} "@) {
        Some((0u32, false))
    } else if starts_with(t, "o "@) || starts_with(t, "\u{25E6} "@) {
        Some((1u32, false))
    } else if starts_with(t, "\u{25CB} "@) {
        Some((2u32, false))
    } else if starts_with(t, "\u{25A0} "@) {
        Some((3u32, false))
    } else if t.len() >= 3 && ascii_digit(t[0]) && (t[1] == '.' || t[1] == ')') && t[2] == ' ' {
        Some((0u32, true))
    } else if t.len() >= 3 && t[0] == '(' && ascii_digit(t[1]) && t[2] == ')' {
        Some((0u32, true))
    } else {
        None
    }
}

pub fn detect_list_item(text: &str) -> (r: Option<(u32, bool)>)
    ensures
        r == list_item_of(text@),
{
    let cs = chars_of(text);
    let n = leading_ws(&cs);
    let t = slice_chars(&cs, n, cs.len());
    if has_prefix(&t, &chars_of("- ")) || has_prefix(&t, &chars_of("* ")) || has_prefix(&t, &chars_of("+ "))
        || has_prefix(&t, &chars_of("\u{2022} ")) {
        return Some((0, false));
    }
    if has_prefix(&t, &chars_of("o ")) || has_prefix(&t, &chars_of("\u{25E6} ")) {
        return Some((1, false));
    }
    if has_prefix(&t, &chars_of("\u{25CB} ")) {
        return Some((2, false));
    }
    if has_prefix(&t, &chars_of("\u{25A0} ")) {
        return Some((3, false));
    }
    if t.len() >= 3 && '0' <= t[0] && t[0] <= '9' && (t[1] == '.' || t[1] == ')') && t[2] == ' ' {
        return Some((0, true));
    }
    if t.len() >= 3 && t[0] == '(' && '0' <= t[1] && t[1] <= '9' && t[2] == ')' {
        return Some((0, true));
    }
    None
}

proof fn lemma_trim_leading_len(s: Seq<char>, c: char)
    ensures
        trim_leading(s, c).len() <= s.len(),
    decreases s.len(),
{
    if s.len() > 0 && s[0] == c {
        lemma_trim_leading_len(s.drop_first(), c);
    }
}

// ---------------------------------------------------------------------------
// Comments and recorded changes
// ---------------------------------------------------------------------------

/// The text between `key` and the next `term` after it, or empty.
pub open spec fn attr_value(xml: Seq<char>, key: Seq<char>, term: Seq<char>) -> Seq<char> {
    match first_at(xml, key, 0) {
        Some(st) => {
            let vs = st + key.len();
            match first_at(xml, term, vs) {
                Some(e) => xml.subrange(vs, e),
                None => Seq::empty(),
            }
        },
        None => Seq::empty(),
    }
}

pub fn extract_attr(xml: &str, key: &str, term: &str) -> (r: String)
    ensures
        r@ == attr_value(xml@, key@, term@),
{
    let x = chars_of(xml);
    let k = chars_of(key);
    match find_at(&x, &k, 0) {
        Some(st) => {
            let vs = st + k.len();
            match find_at(&x, &chars_of(term), vs) {
                Some(e) => string_of(&slice_chars(&x, vs, e)),
                None => String::new(),
            }
        },
        None => String::new(),
    }
}

/// The text of the `open`...`close` elements of `inner` from `pos` on,
/// appended to `buf` with a space between pieces.
pub open spec fn element_texts(inner: Seq<char>, open: Seq<char>, close: Seq<char>, pos: int, buf: Seq<char>) -> Seq<char>
    decreases inner.len() - pos,
{
    match first_at(inner, open, pos) {
        None => buf,
        Some(from) => match first_at(inner, ">"@, from) {
            None => buf,
            Some(g) => match first_at(inner, close, g + 1) {
                None => buf,
                Some(te) => {
                    let nb = (if buf.len() > 0 {
                        buf + " "@
                    } else {
                        buf
                    }) + inner.subrange(g + 1, te);
                    if te + close.len() <= pos || close.len() == 0 {
                        nb
                    } else {
                        element_texts(inner, open, close, te + close.len(), nb)
                    }
                },
            },
        },
    }
}

proof fn lemma_first_at_facts(s: Seq<char>, p: Seq<char>, from: int)
    ensures
        first_at(s, p, from) matches Some(i) ==> from <= i && i + p.len() <= s.len() && 0 <= i,
{
    if first_at(s, p, from) is Some {
        let i = choose|i: int| crate::text::is_first_from(s, p, from, i);
    }
}

fn collect_texts(inner: &Vec<char>, open: &Vec<char>, close: &Vec<char>, buf: &mut String)
    requires
        close@.len() > 0,
    ensures
        final(buf)@ == element_texts(inner@, open@, close@, 0, old(buf)@),
{
    let mut pos: usize = 0;
    let gt = chars_of(">");
    proof {
        reveal_strlit(">");
    }
    loop
        invariant_except_break
            pos <= inner@.len(),
            close@.len() > 0,
            gt@ == ">"@,
            gt@.len() == 1,
            element_texts(inner@, open@, close@, pos as int, buf@) == element_texts(inner@, open@, close@, 0, old(buf)@),
        ensures
            buf@ == element_texts(inner@, open@, close@, 0, old(buf)@),
        decreases inner@.len() - pos,
    {
        let from = match find_at(inner, open, pos) {
            Some(f) => f,
            None => {
                break;
            },
        };
        let g = match find_at(inner, &gt, from) {
            Some(g) => g,
            None => {
                break;
            },
        };
        let te = match find_at(inner, close, g + 1) {
            Some(t) => t,
            None => {
                break;
            },
        };
        proof {
            lemma_first_at_facts(inner@, open@, pos as int);
            lemma_first_at_facts(inner@, gt@, from as int);
            lemma_first_at_facts(inner@, close@, g + 1);
        }
        let ghost b0 = buf@;
        if buf.as_str().unicode_len() > 0 {
            buf.push(' ');
        }
        push_str(buf, string_of(&slice_chars(inner, g + 1, te)).as_str());
        proof {
            reveal_strlit(" ");
            let nb = (if b0.len() > 0 { b0 + " "@ } else { b0 }) + inner@.subrange(g + 1, te as int);
            assert(buf@ =~= nb);
            assert(element_texts(inner@, open@, close@, pos as int, b0) == element_texts(inner@, open@, close@, te + close@.len(), nb));
        }
        pos = te + close.len();
    }
}

pub struct CommentV {
    pub id: Seq<char>,
    pub author: Seq<char>,
    pub text: Seq<char>,
}

/// The comments of a comments part from `pos` on, or `None` where a
/// comment's content would end before it starts.
pub open spec fn comments_from(xml: Seq<char>, pos: int) -> Option<Seq<CommentV>>
    decreases xml.len() - pos,
{
    match first_at(xml, "<w:comment "@, pos) {
        None => Some(Seq::empty()),
        Some(abs) => {
            let rest = xml.subrange(abs, xml.len() as int);
            match first_at(xml, ">"@, abs) {
                None => Some(Seq::empty()),
                Some(g) => match first_at(xml, "</w:comment>"@, abs) {
                    None => Some(Seq::empty()),
                    Some(end) => if g + 1 > end || abs + 1 <= pos {
                        None
                    } else {
                        let c = CommentV {
                            id: attr_value(rest, "w:id=\""@, "\""@),
                            author: attr_value(rest, "w:author=\""@, "\""@),
                            text: element_texts(xml.subrange(g + 1, end), "<w:t"@, "</w:t>"@, 0, Seq::empty()),
                        };
                        match comments_from(xml, abs + 1) {
                            Some(more) => Some(seq![c] + more),
                            None => None,
                        }
                    },
                },
            }
        },
    }
}

pub open spec fn comment_matches(c: CommentEntry, v: CommentV) -> bool {
    c.id@ == v.id && c.author@ == v.author && c.text@ == v.text && c.target_text is None
}

/// The comments of a comments part (`word/comments.xml`): id, author and
/// text of each.
pub fn extract_comments(xml: &str) -> (r: Vec<CommentEntry>)
    requires
        comments_from(xml@, 0) is Some,
    ensures
        r@.len() == comments_from(xml@, 0).unwrap().len(),
        forall|k: int| 0 <= k < r@.len() ==> comment_matches(#[trigger] r@[k], comments_from(xml@, 0).unwrap()[k]),
{
    let x = chars_of(xml);
    let open = chars_of("<w:comment ");
    let gt = chars_of(">");
    let close = chars_of("</w:comment>");
    let topen = chars_of("<w:t");
    let tclose = chars_of("</w:t>");
    proof {
        reveal_strlit("</w:t>");
    }
    let mut out: Vec<CommentEntry> = Vec::new();
    let mut pos: usize = 0;
    loop
        invariant_except_break
            pos <= x@.len(),
            x@ == xml@,
            open@ == "<w:comment "@,
            gt@ == ">"@,
            close@ == "</w:comment>"@,
            topen@ == "<w:t"@,
            tclose@ == "</w:t>"@,
            tclose@.len() > 0,
            comments_from(xml@, pos as int) is Some,
            ({
                let all = comments_from(xml@, 0).unwrap();
                let later = comments_from(xml@, pos as int).unwrap();
                &&& all.len() == out@.len() + later.len()
                &&& forall|k: int| 0 <= k < out@.len() ==> comment_matches(#[trigger] out@[k], all[k])
                &&& forall|k: int| 0 <= k < later.len() ==> all[out@.len() + k] == later[k]
            }),
        ensures
            out@.len() == comments_from(xml@, 0).unwrap().len(),
            forall|k: int| 0 <= k < out@.len() ==> comment_matches(#[trigger] out@[k], comments_from(xml@, 0).unwrap()[k]),
        decreases x@.len() - pos,
    {
        let abs = match find_at(&x, &open, pos) {
            Some(a) => a,
            None => {
                break;
            },
        };
        let g = match find_at(&x, &gt, abs) {
            Some(g) => g,
            None => {
                break;
            },
        };
        let end = match find_at(&x, &close, abs) {
            Some(e) => e,
            None => {
                break;
            },
        };
        proof {
            lemma_first_at_facts(x@, open@, pos as int);
            lemma_first_at_facts(x@, gt@, abs as int);
            lemma_first_at_facts(x@, close@, abs as int);
        }
        let rest = string_of(&slice_chars(&x, abs, x.len()));
        let author = extract_attr(rest.as_str(), "w:author=\"", "\"");
        let id = extract_attr(rest.as_str(), "w:id=\"", "\"");
        let inner = slice_chars(&x, g + 1, end);
        let mut text = String::new();
        collect_texts(&inner, &topen, &tclose, &mut text);
        let ghost before = out@;
        let c = CommentEntry { id, author, text, target_text: None };
        out.push(c);
        proof {
            let all = comments_from(xml@, 0).unwrap();
            let later = comments_from(xml@, pos as int).unwrap();
            let next = comments_from(xml@, abs + 1).unwrap();
            assert(later == seq![later[0]] + next);
            assert(comment_matches(c, later[0]));
            assert forall|k: int| 0 <= k < out@.len() implies comment_matches(#[trigger] out@[k], all[k]) by {
                if k < before.len() {
                    assert(out@[k] == before[k]);
                } else {
                    assert(all[before.len() as int] == later[0]);
                }
            }
            assert forall|k: int| 0 <= k < next.len() implies all[out@.len() + k] == next[k] by {
                assert(all[before.len() as int + (k + 1)] == later[k + 1]);
            }
        }
        pos = abs + 1;
    }
    out
}

/// Whether every comment of a comments part has its content after its
/// opening tag: where one does not, `extract_comments` cannot take the part.
pub fn comments_readable(xml: &str) -> (b: bool)
    ensures
        b == comments_from(xml@, 0) is Some,
{
    let x = chars_of(xml);
    let open = chars_of("<w:comment ");
    let gt = chars_of(">");
    let close = chars_of("</w:comment>");
    let mut pos: usize = 0;
    loop
        invariant
            pos <= x@.len(),
            x@ == xml@,
            open@ == "<w:comment "@,
            gt@ == ">"@,
            close@ == "</w:comment>"@,
            (comments_from(xml@, 0) is Some) == (comments_from(xml@, pos as int) is Some),
        decreases x@.len() - pos,
    {
        let abs = match find_at(&x, &open, pos) {
            Some(a) => a,
            None => {
                return true;
            },
        };
        let g = match find_at(&x, &gt, abs) {
            Some(g) => g,
            None => {
                return true;
            },
        };
        let end = match find_at(&x, &close, abs) {
            Some(e) => e,
            None => {
                return true;
            },
        };
        proof {
            lemma_first_at_facts(x@, open@, pos as int);
            lemma_first_at_facts(x@, gt@, abs as int);
            lemma_first_at_facts(x@, close@, abs as int);
        }
        if g >= end {
            return false;
        }
        pos = abs + 1;
    }
}

pub struct ChangeV {
    pub text: Seq<char>,
    pub is_insertion: bool,
    pub author: Option<Seq<char>>,
    pub date: Option<Seq<char>>,
}

pub open spec fn nonempty(s: Seq<char>) -> Option<Seq<char>> {
    if s.len() > 0 {
        Some(s)
    } else {
        None
    }
}

pub open spec fn change_tags(insertion: bool) -> (Seq<char>, Seq<char>) {
    if insertion {
        ("<w:ins "@, "</w:ins>"@)
    } else {
        ("<w:del "@, "</w:del>"@)
    }
}

/// The recorded insertions (or deletions) of a document body from `pos` on
/// that have text, or `None` where one's content would end before it starts.
pub open spec fn changes_from(xml: Seq<char>, pos: int, insertion: bool) -> Option<Seq<ChangeV>>
    decreases xml.len() - pos,
{
    let (tag, close) = change_tags(insertion);
    match first_at(xml, tag, pos) {
        None => Some(Seq::empty()),
        Some(abs) => {
            let rest = xml.subrange(abs, xml.len() as int);
            match first_at(xml, ">"@, abs) {
                None => Some(Seq::empty()),
                Some(g) => match first_at(xml, close, abs) {
                    None => Some(Seq::empty()),
                    Some(end) => if g + 1 > end || abs + 1 <= pos {
                        None
                    } else {
                        match changes_from(xml, abs + 1, insertion) {
                            Some(more) => Some(change_at(xml, abs, g, end, insertion) + more),
                            None => None,
                        }
                    },
                },
            }
        },
    }
}

/// The change whose tag starts at `abs`, its content from `g + 1` to
/// `end`: none where it has no text.
pub open spec fn change_at(xml: Seq<char>, abs: int, g: int, end: int, insertion: bool) -> Seq<ChangeV> {
    let rest = xml.subrange(abs, xml.len() as int);
    let inner = xml.subrange(g + 1, end);
    let text = element_texts(
        inner,
        "<w:delText"@,
        "</w:delText>"@,
        0,
        element_texts(inner, "<w:t"@, "</w:t>"@, 0, Seq::empty()),
    );
    if text.len() > 0 {
        seq![
            ChangeV {
                text,
                is_insertion: insertion,
                author: nonempty(attr_value(rest, "w:author=\""@, "\""@)),
                date: nonempty(attr_value(rest, "w:date=\""@, "\""@)),
            },
        ]
    } else {
        Seq::empty()
    }
}

fn change_here(x: &Vec<char>, abs: usize, g: usize, end: usize, insertion: bool) -> (r: Option<TrackedChange>)
    requires
        abs <= x@.len(),
        g + 1 <= end <= x@.len(),
    ensures
        match r {
            Some(c) => change_at(x@, abs as int, g as int, end as int, insertion).len() == 1 && change_matches(
                c,
                change_at(x@, abs as int, g as int, end as int, insertion)[0],
            ),
            None => change_at(x@, abs as int, g as int, end as int, insertion).len() == 0,
        },
{
    let topen = chars_of("<w:t");
    let tclose = chars_of("</w:t>");
    let dopen = chars_of("<w:delText");
    let dclose = chars_of("</w:delText>");
    proof {
        reveal_strlit("</w:t>");
        reveal_strlit("</w:delText>");
    }
    let rest = string_of(&slice_chars(x, abs, x.len()));
    let author = extract_attr(rest.as_str(), "w:author=\"", "\"");
    let date = extract_attr(rest.as_str(), "w:date=\"", "\"");
    let inner = slice_chars(x, g + 1, end);
    let mut text = String::new();
    collect_texts(&inner, &topen, &tclose, &mut text);
    collect_texts(&inner, &dopen, &dclose, &mut text);
    if text.as_str().unicode_len() > 0 {
        Some(TrackedChange { text, is_insertion: insertion, author: nonempty_string(author), date: nonempty_string(date) })
    } else {
        None
    }
}

/// Insertions first, then deletions.
pub open spec fn tracked_changes(xml: Seq<char>) -> Option<Seq<ChangeV>> {
    match (changes_from(xml, 0, true), changes_from(xml, 0, false)) {
        (Some(a), Some(b)) => Some(a + b),
        _ => None,
    }
}

pub open spec fn change_matches(c: TrackedChange, v: ChangeV) -> bool {
    c.text@ == v.text && c.is_insertion == v.is_insertion && opt_chars(c.author) == v.author && opt_chars(c.date)
        == v.date
}

fn nonempty_string(s: String) -> (r: Option<String>)
    ensures
        opt_chars(r) == nonempty(s@),
{
    if s.as_str().unicode_len() > 0 {
        Some(s)
    } else {
        None
    }
}

#[verifier::rlimit(40)]
fn changes_pass(x: &Vec<char>, insertion: bool, out: &mut Vec<TrackedChange>)
    requires
        changes_from(x@, 0, insertion) is Some,
    ensures
        final(out)@.len() == old(out)@.len() + changes_from(x@, 0, insertion).unwrap().len(),
        forall|k: int| 0 <= k < old(out)@.len() ==> final(out)@[k] == old(out)@[k],
        forall|k: int|
            0 <= k < changes_from(x@, 0, insertion).unwrap().len() ==> change_matches(
                #[trigger] final(out)@[old(out)@.len() + k],
                changes_from(x@, 0, insertion).unwrap()[k],
            ),
{
    let open = if insertion { chars_of("<w:ins ") } else { chars_of("<w:del ") };
    let close = if insertion { chars_of("</w:ins>") } else { chars_of("</w:del>") };
    let gt = chars_of(">");
    let ghost start = out@;
    let ghost all = changes_from(x@, 0, insertion).unwrap();
    let mut pos: usize = 0;
    let mut done: usize = 0;
    loop
        invariant_except_break
            pos <= x@.len(),
            (open@, close@) == change_tags(insertion),
            gt@ == ">"@,
            all == changes_from(x@, 0, insertion).unwrap(),
            changes_from(x@, pos as int, insertion) is Some,
            out@.len() == start.len() + done,
            forall|k: int| 0 <= k < start.len() ==> out@[k] == start[k],
            ({
                let later = changes_from(x@, pos as int, insertion).unwrap();
                &&& all.len() == done + later.len()
                &&& forall|k: int| 0 <= k < done ==> change_matches(#[trigger] out@[start.len() + k], all[k])
                &&& forall|k: int| 0 <= k < later.len() ==> all[done + k] == later[k]
            }),
        ensures
            out@.len() == start.len() + all.len(),
            forall|k: int| 0 <= k < start.len() ==> out@[k] == start[k],
            forall|k: int| 0 <= k < all.len() ==> change_matches(#[trigger] out@[start.len() + k], all[k]),
        decreases x@.len() - pos,
    {
        let abs = match find_at(x, &open, pos) {
            Some(a) => a,
            None => {
                break;
            },
        };
        let g = match find_at(x, &gt, abs) {
            Some(g) => g,
            None => {
                break;
            },
        };
        let end = match find_at(x, &close, abs) {
            Some(e) => e,
            None => {
                break;
            },
        };
        proof {
            lemma_first_at_facts(x@, open@, pos as int);
            lemma_first_at_facts(x@, gt@, abs as int);
            lemma_first_at_facts(x@, close@, abs as int);
        }
        let found = change_here(x, abs, g, end, insertion);
        let ghost later = changes_from(x@, pos as int, insertion).unwrap();
        let ghost next = changes_from(x@, abs + 1, insertion).unwrap();
        let ghost here = change_at(x@, abs as int, g as int, end as int, insertion);
        proof {
            assert(later == here + next);
        }
        let ghost before = out@;
        match found {
            Some(c) => {
                out.push(c);
                proof {
                    assert(later[0] == here[0]);
                    assert forall|k: int| 0 <= k < done + 1 implies change_matches(#[trigger] out@[start.len() + k], all[k]) by {
                        if k < done {
                            assert(out@[start.len() + k] == before[start.len() + k]);
                        } else {
                            assert(all[done + 0] == later[0]);
                        }
                    }
                    assert forall|k: int| 0 <= k < next.len() implies all[(done + 1) + k] == next[k] by {
                        assert(all[done + (k + 1)] == later[k + 1]);
                    }
                    assert forall|k: int| 0 <= k < start.len() implies out@[k] == start[k] by {
                        assert(out@[k] == before[k]);
                    }
                }
                assert(done + 1 <= out.len());
                done = done + 1;
            },
            None => {
                proof {
                    assert(later =~= next);
                }
            },
        }
        pos = abs + 1;
    }
}

fn changes_pass_ok(x: &Vec<char>, insertion: bool) -> (b: bool)
    ensures
        b == changes_from(x@, 0, insertion) is Some,
{
    let (tag, close) = if insertion {
        (chars_of("<w:ins "), chars_of("</w:ins>"))
    } else {
        (chars_of("<w:del "), chars_of("</w:del>"))
    };
    let gt = chars_of(">");
    let mut pos: usize = 0;
    loop
        invariant
            pos <= x@.len(),
            (tag@, close@) == change_tags(insertion),
            gt@ == ">"@,
            (changes_from(x@, 0, insertion) is Some) == (changes_from(x@, pos as int, insertion) is Some),
        decreases x@.len() - pos,
    {
        let abs = match find_at(x, &tag, pos) {
            Some(a) => a,
            None => {
                return true;
            },
        };
        let g = match find_at(x, &gt, abs) {
            Some(g) => g,
            None => {
                return true;
            },
        };
        let end = match find_at(x, &close, abs) {
            Some(e) => e,
            None => {
                return true;
            },
        };
        proof {
            lemma_first_at_facts(x@, tag@, pos as int);
            lemma_first_at_facts(x@, gt@, abs as int);
            lemma_first_at_facts(x@, close@, abs as int);
        }
        if g >= end {
            return false;
        }
        pos = abs + 1;
    }
}

/// Whether every recorded insertion and deletion of a document body has its
/// content after its opening tag: where one does not,
/// `extract_tracked_changes` cannot take the body.
pub fn changes_readable(xml: &str) -> (b: bool)
    ensures
        b == tracked_changes(xml@) is Some,
{
    let x = chars_of(xml);
    let ins = changes_pass_ok(&x, true);
    let del = changes_pass_ok(&x, false);
    ins && del
}

/// The recorded changes of a document body (`word/document.xml`) that have
/// text: insertions, then deletions, each with its author and date.
pub fn extract_tracked_changes(xml: &str) -> (r: Vec<TrackedChange>)
    requires
        tracked_changes(xml@) is Some,
    ensures
        r@.len() == tracked_changes(xml@).unwrap().len(),
        forall|k: int| 0 <= k < r@.len() ==> change_matches(#[trigger] r@[k], tracked_changes(xml@).unwrap()[k]),
{
    let x = chars_of(xml);
    let mut out: Vec<TrackedChange> = Vec::new();
    changes_pass(&x, true, &mut out);
    let ghost mid = out@;
    changes_pass(&x, false, &mut out);
    proof {
        let a = changes_from(xml@, 0, true).unwrap();
        let b = changes_from(xml@, 0, false).unwrap();
        let all = a + b;
        assert forall|k: int| 0 <= k < out@.len() implies change_matches(#[trigger] out@[k], all[k]) by {
            if k < a.len() {
                assert(out@[k] == mid[0 + k]);
                assert(change_matches(mid[0 + k], a[k]));
            } else {
                assert(out@[mid.len() + (k - a.len())] == out@[k]);
            }
        }
    }
    out
}

// ---------------------------------------------------------------------------
// The document as Markdown
// ---------------------------------------------------------------------------

pub open spec fn meta_line(label: Seq<char>, v: Seq<char>, quoted: bool) -> Seq<char> {
    if v.len() == 0 {
        Seq::empty()
    } else if quoted {
        label + ": \""@ + v + "\"\n"@
    } else {
        label + ": ["@ + v + "]\n"@
    }
}

/// The YAML front matter: the metadata that is set.
pub open spec fn frontmatter(m: WordMetadata) -> Seq<char> {
    "---\n"@ + meta_line("title"@, m.title@, true) + meta_line("author"@, m.author@, true) + meta_line(
        "subject"@,
        m.subject@,
        true,
    ) + meta_line("keywords"@, m.keywords@, false) + (if m.word_count > 0 {
        "word_count: "@ + decimal(m.word_count as nat) + "\n"@
    } else {
        Seq::empty()
    }) + "---\n\n"@
}

pub open spec fn comment_lines(cs: Seq<CommentEntry>, n: int) -> Seq<char>
    decreases n,
{
    if n <= 0 {
        Seq::empty()
    } else {
        comment_lines(cs, n - 1) + "> **"@ + cs[n - 1].author@ + ":** "@ + cs[n - 1].text@ + "\n>\n"@
    }
}

pub open spec fn change_lines(ts: Seq<TrackedChange>, n: int) -> Seq<char>
    decreases n,
{
    if n <= 0 {
        Seq::empty()
    } else {
        change_lines(ts, n - 1) + if ts[n - 1].is_insertion {
            "- <ins>"@ + ts[n - 1].text@ + "</ins>\n"@
        } else {
            "- <del>"@ + ts[n - 1].text@ + "</del>\n"@
        }
    }
}

/// A Word document as Markdown: front matter, content, then comments and
/// recorded changes where there are any.
pub open spec fn word_markdown(m: WordMetadata, bs: Seq<ContentBlock>, cs: Seq<CommentEntry>, ts: Seq<TrackedChange>) -> Seq<char> {
    frontmatter(m) + content_markdown(blocks_view(bs)) + (if cs.len() > 0 {
        "\n\n---\n\n## Comments\n\n"@ + comment_lines(cs, cs.len() as int)
    } else {
        Seq::empty()
    }) + (if ts.len() > 0 {
        "\n\n---\n\n## Tracked Changes\n\n"@ + change_lines(ts, ts.len() as int)
    } else {
        Seq::empty()
    })
}

fn push_meta(out: &mut String, label: &str, v: &str, quoted: bool)
    ensures
        final(out)@ == old(out)@ + meta_line(label@, v@, quoted),
{
    if v.unicode_len() == 0 {
        proof {
            assert(old(out)@ + meta_line(label@, v@, quoted) =~= old(out)@);
        }
        return;
    }
    push_str(out, label);
    if quoted {
        push_str(out, ": \"");
        push_str(out, v);
        push_str(out, "\"\n");
    } else {
        push_str(out, ": [");
        push_str(out, v);
        push_str(out, "]\n");
    }
    proof {
        assert(final(out)@ =~= old(out)@ + meta_line(label@, v@, quoted));
    }
}

/// A Word document as Markdown, from its metadata, content blocks,
/// comments and recorded changes.
pub fn read_word_to_md(
    metadata: &WordMetadata,
    content: &Vec<ContentBlock>,
    comments: &Vec<CommentEntry>,
    revisions: &Vec<TrackedChange>,
) -> (r: String)
    ensures
        r@ == word_markdown(*metadata, content@, comments@, revisions@),
{
    let mut md = String::new();
    push_str(&mut md, "---\n");
    push_meta(&mut md, "title", metadata.title.as_str(), true);
    push_meta(&mut md, "author", metadata.author.as_str(), true);
    push_meta(&mut md, "subject", metadata.subject.as_str(), true);
    push_meta(&mut md, "keywords", metadata.keywords.as_str(), false);
    if metadata.word_count > 0 {
        push_str(&mut md, "word_count: ");
        push_str(&mut md, u64_to_string(metadata.word_count as u64).as_str());
        push_str(&mut md, "\n");
    }
    push_str(&mut md, "---\n\n");
    proof {
        assert(md@ =~= frontmatter(*metadata));
    }
    let body = content_blocks_to_markdown(content);
    push_str(&mut md, body.as_str());
    let ghost after_body = md@;
    if comments.len() > 0 {
        push_str(&mut md, "\n\n---\n\n## Comments\n\n");
        let ghost head = md@;
        let mut i: usize = 0;
        while i < comments.len()
            invariant
                i <= comments@.len(),
                md@ == head + comment_lines(comments@, i as int),
            decreases comments@.len() - i,
        {
            push_str(&mut md, "> **");
            push_str(&mut md, comments[i].author.as_str());
            push_str(&mut md, ":** ");
            push_str(&mut md, comments[i].text.as_str());
            push_str(&mut md, "\n>\n");
            proof {
                assert(md@ =~= head + comment_lines(comments@, i + 1));
            }
            i = i + 1;
        }
    }
    let ghost after_comments = md@;
    proof {
        if comments@.len() == 0 {
            assert(after_comments =~= after_body + Seq::<char>::empty());
        }
    }
    if revisions.len() > 0 {
        push_str(&mut md, "\n\n---\n\n## Tracked Changes\n\n");
        let ghost head = md@;
        let mut i: usize = 0;
        while i < revisions.len()
            invariant
                i <= revisions@.len(),
                md@ == head + change_lines(revisions@, i as int),
            decreases revisions@.len() - i,
        {
            if revisions[i].is_insertion {
                push_str(&mut md, "- <ins>");
                push_str(&mut md, revisions[i].text.as_str());
                push_str(&mut md, "</ins>\n");
            } else {
                push_str(&mut md, "- <del>");
                push_str(&mut md, revisions[i].text.as_str());
                push_str(&mut md, "</del>\n");
            }
            proof {
                assert(md@ =~= head + change_lines(revisions@, i + 1));
            }
            i = i + 1;
        }
    }
    proof {
        assert(md@ =~= word_markdown(*metadata, content@, comments@, revisions@));
    }
    md
}

/// The chunks of a document's Markdown: its sections, front matter left out.
pub fn read_word_to_chunks(md: &str, source: &str) -> (r: Vec<Chunk>)
    ensures
        r@.len() == markdown_chunks(without_frontmatter(md@)).len(),
        forall|k: int| 0 <= k < r@.len() ==> chunk_matches(#[trigger] r@[k], markdown_chunks(without_frontmatter(md@))[k], source@),
{
    let body = strip_yaml_frontmatter(md);
    split_markdown_into_chunks(body.as_str(), source)
}

} // verus!
