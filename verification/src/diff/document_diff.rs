use vstd::prelude::*;
use similar::{ChangeTag, TextDiff};
use crate::paths::path_extension;
use crate::text::{
    chars_of, ends_with, push_str, push_range, starts_with, string_of, trim, trim_chars, join_strings,
    u64_to_string, decimal,
};
use crate::xml::{
    XmlEvent, XmlKind, Ev, evs, xml_scan, scan_xml_events, event_name, name_of, entity_text,
    entity_chars,
};

verus! {

pub struct DiffChange {
    pub change_type: String,
    pub content: String,
    pub line_number_a: Option<i32>,
    pub line_number_b: Option<i32>,
}

pub struct DiffStats {
    pub additions: i32,
    pub deletions: i32,
    pub unchanged_lines: i32,
}

/// The changes between two texts, with their statistics.
pub struct DiffSummary {
    pub changeset: Vec<DiffChange>,
    pub stats: DiffStats,
}

pub struct DocumentDiff;

impl DocumentDiff {
    pub fn new() -> (r: DocumentDiff) {
        DocumentDiff
    }
}

// ---------------------------------------------------------------------------
// Line changes
// ---------------------------------------------------------------------------

#[derive(Clone, Copy, PartialEq, Eq, Structural)]
pub enum LineTag {
    Equal,
    Delete,
    Insert,
}

/// The line changes a Myers diff (no deadline) finds between two texts, in
/// order, each with its line (line feed included).
pub uninterp spec fn line_changes(a: Seq<char>, b: Seq<char>) -> Seq<(LineTag, Seq<char>)>;

/// Calls `similar::TextDiff::from_lines` and `iter_all_changes`.  Trusted:
/// with no deadline set the changes are a function of the two texts alone.
#[verifier::external_body]
fn diff_lines(a: &str, b: &str) -> (r: Vec<(LineTag, String)>)
    ensures
        r@.map_values(|c: (LineTag, String)| (c.0, c.1@)) == line_changes(a@, b@),
{
    let diff = TextDiff::from_lines(a, b);
    let mut out = Vec::new();
    for c in diff.iter_all_changes() {
        let tag = match c.tag() { ChangeTag::Equal => LineTag::Equal, ChangeTag::Delete => LineTag::Delete, ChangeTag::Insert => LineTag::Insert };
        out.push((tag, c.value().to_string()));
    }
    out
}

pub open spec fn change_type_of(t: LineTag) -> Seq<char> {
    match t {
        LineTag::Equal => "unchanged"@,
        LineTag::Delete => "removed"@,
        LineTag::Insert => "added"@,
    }
}

/// A line without its final line feed.
pub open spec fn without_newline(v: Seq<char>) -> Seq<char> {
    if ends_with(v, seq!['\n']) {
        v.drop_last()
    } else {
        v
    }
}

pub open spec fn count_tag(cs: Seq<(LineTag, Seq<char>)>, t: LineTag) -> nat
    decreases cs.len(),
{
    if cs.len() == 0 {
        0
    } else {
        count_tag(cs.drop_last(), t) + if cs.last().0 == t { 1nat } else { 0nat }
    }
}

/// Lines of the first text among the changes: the unchanged and removed ones.
pub open spec fn old_lines(cs: Seq<(LineTag, Seq<char>)>) -> nat {
    count_tag(cs, LineTag::Equal) + count_tag(cs, LineTag::Delete)
}

/// Lines of the second text among the changes: the unchanged and added ones.
pub open spec fn new_lines(cs: Seq<(LineTag, Seq<char>)>) -> nat {
    count_tag(cs, LineTag::Equal) + count_tag(cs, LineTag::Insert)
}

/// Change `k` as reported: its kind, its line without the line feed, and
/// its line numbers (from 0) in the texts it belongs to.
pub open spec fn reported(c: DiffChange, cs: Seq<(LineTag, Seq<char>)>, k: int) -> bool {
    let t = cs[k].0;
    let before = cs.take(k);
    &&& c.change_type@ == change_type_of(t)
    &&& c.content@ == without_newline(cs[k].1)
    &&& if t != LineTag::Insert {
        c.line_number_a matches Some(n) && n == old_lines(before)
    } else {
        c.line_number_a is None
    }
    &&& if t != LineTag::Delete {
        c.line_number_b matches Some(n) && n == new_lines(before)
    } else {
        c.line_number_b is None
    }
}

pub open spec fn summary_of(r: DiffSummary, cs: Seq<(LineTag, Seq<char>)>) -> bool {
    &&& r.changeset@.len() == cs.len()
    &&& forall|k: int| 0 <= k < cs.len() ==> reported(#[trigger] r.changeset@[k], cs, k)
    &&& r.stats.additions == count_tag(cs, LineTag::Insert)
    &&& r.stats.deletions == count_tag(cs, LineTag::Delete)
    &&& r.stats.unchanged_lines == count_tag(cs, LineTag::Equal)
}

pub proof fn lemma_count_bound(cs: Seq<(LineTag, Seq<char>)>, t: LineTag)
    ensures
        count_tag(cs, t) <= cs.len(),
        count_tag(cs, LineTag::Equal) + count_tag(cs, LineTag::Delete) + count_tag(cs, LineTag::Insert)
            == cs.len(),
    decreases cs.len(),
{
    if cs.len() > 0 {
        lemma_count_bound(cs.drop_last(), t);
    }
}

pub open spec fn changes_view(v: Seq<(LineTag, String)>) -> Seq<(LineTag, Seq<char>)> {
    v.map_values(|c: (LineTag, String)| (c.0, c.1@))
}

impl DocumentDiff {
    /// Reports a list of line changes: each with its kind, its line and its
    /// line numbers, and how many lines were added, removed and kept.
    pub fn summarize(changes: &Vec<(LineTag, String)>) -> (r: DiffSummary)
        requires
            changes@.len() <= i32::MAX,
        ensures
            summary_of(r, changes_view(changes@)),
    {
        let ghost cs = changes_view(changes@);
        let mut out: Vec<DiffChange> = Vec::new();
        let mut line_a: i32 = 0;
        let mut line_b: i32 = 0;
        let mut adds: i32 = 0;
        let mut dels: i32 = 0;
        let mut same: i32 = 0;
        let mut k: usize = 0;
        while k < changes.len()
            invariant
                k <= changes@.len(),
                changes@.len() <= i32::MAX,
                cs == changes_view(changes@),
                out@.len() == k,
                forall|j: int| 0 <= j < k ==> reported(#[trigger] out@[j], cs, j),
                adds == count_tag(cs.take(k as int), LineTag::Insert),
                dels == count_tag(cs.take(k as int), LineTag::Delete),
                same == count_tag(cs.take(k as int), LineTag::Equal),
                line_a == old_lines(cs.take(k as int)),
                line_b == new_lines(cs.take(k as int)),
            decreases changes@.len() - k,
        {
            proof {
                lemma_count_bound(cs.take(k as int), LineTag::Equal);
                assert(cs.take(k + 1).drop_last() =~= cs.take(k as int));
                assert(cs.take(k + 1).last() == cs[k as int]);
            }
            let tag = changes[k].0;
            proof {
                let x = cs.take(k + 1);
                assert(cs[k as int].0 == tag);
                assert(count_tag(x, LineTag::Equal) == count_tag(cs.take(k as int), LineTag::Equal)
                    + if tag == LineTag::Equal { 1nat } else { 0nat });
                assert(count_tag(x, LineTag::Delete) == count_tag(cs.take(k as int), LineTag::Delete)
                    + if tag == LineTag::Delete { 1nat } else { 0nat });
                assert(count_tag(x, LineTag::Insert) == count_tag(cs.take(k as int), LineTag::Insert)
                    + if tag == LineTag::Insert { 1nat } else { 0nat });
            }
            let value = chars_of(changes[k].1.as_str());
            let end = if value.len() > 0 && value[value.len() - 1] == '\n' {
                value.len() - 1
            } else {
                value.len()
            };
            let mut content = String::new();
            push_range(&mut content, &value, 0, end);
            proof {
                assert(cs[k as int].1 == value@);
                if value@.len() > 0 {
                    assert(value@.subrange(value@.len() - 1, value@.len() as int) =~= seq![value@.last()]);
                }
                if end < value.len() {
                    assert(ends_with(value@, seq!['\n']));
                    assert(content@ =~= value@.drop_last());
                } else {
                    if value@.len() > 0 {
                        assert(value@.subrange(value@.len() - 1, value@.len() as int)[0] == value@.last());
                    }
                    assert(!ends_with(value@, seq!['\n']));
                    assert(content@ =~= value@);
                }
                assert(content@ =~= without_newline(cs[k as int].1));
            }
            let ghost before_k = cs.take(k as int);
            let c = match tag {
                LineTag::Equal => {
                    let c = DiffChange {
                        change_type: "unchanged".to_owned(),
                        content,
                        line_number_a: Some(line_a),
                        line_number_b: Some(line_b),
                    };
                    line_a = line_a + 1;
                    line_b = line_b + 1;
                    same = same + 1;
                    c
                },
                LineTag::Delete => {
                    let c = DiffChange {
                        change_type: "removed".to_owned(),
                        content,
                        line_number_a: Some(line_a),
                        line_number_b: None,
                    };
                    line_a = line_a + 1;
                    dels = dels + 1;
                    c
                },
                LineTag::Insert => {
                    let c = DiffChange {
                        change_type: "added".to_owned(),
                        content,
                        line_number_a: None,
                        line_number_b: Some(line_b),
                    };
                    line_b = line_b + 1;
                    adds = adds + 1;
                    c
                },
            };
            assert(reported(c, cs, k as int));
            out.push(c);
            k = k + 1;
        }
        proof {
            assert(cs.take(changes@.len() as int) =~= cs);
        }
        DiffSummary { changeset: out, stats: DiffStats { additions: adds, deletions: dels, unchanged_lines: same } }
    }

    /// The line diff of two texts, reported; `None` when there are more
    /// changes than 32-bit line numbers can count.
    pub fn text_diff(text_a: &str, text_b: &str) -> (r: Option<DiffSummary>)
        ensures
            match r {
                Some(s) => line_changes(text_a@, text_b@).len() <= i32::MAX
                    && summary_of(s, line_changes(text_a@, text_b@)),
                None => line_changes(text_a@, text_b@).len() > i32::MAX,
            },
    {
        let changes = diff_lines(text_a, text_b);
        if changes.len() > 2147483647 {
            return None;
        }
        Some(Self::summarize(&changes))
    }
}

// ---------------------------------------------------------------------------
// Extensions
// ---------------------------------------------------------------------------

/// What `str::to_lowercase` makes of a text.
pub uninterp spec fn lowercase(s: Seq<char>) -> Seq<char>;

/// Calls `str::to_lowercase`.  Trusted: the Unicode lower-case mapping, a
/// function of the text alone.
#[verifier::external_body]
pub(crate) fn to_lowercase(s: &str) -> (r: String)
    ensures
        r@ == lowercase(s@),
{
    s.to_lowercase()
}

/// The lower-cased extension of a path, an error when it has none.
pub open spec fn extension_of(path: Seq<char>) -> Result<Seq<char>, Seq<char>> {
    let e = match path_extension(path) {
        Some(e) => e,
        None => Seq::empty(),
    };
    if lowercase(e).len() == 0 {
        Err("File has no extension: "@ + path)
    } else {
        Ok(lowercase(e))
    }
}

pub open spec fn result_view(r: Result<String, String>) -> Result<Seq<char>, Seq<char>> {
    match r {
        Ok(s) => Ok(s@),
        Err(e) => Err(e@),
    }
}

/// The kind of document a lower-cased extension names.
#[derive(Clone, Copy, PartialEq, Eq, Structural)]
pub enum DocKind {
    Word,
    Workbook,
    Slides,
}

pub open spec fn kind_of(ext: Seq<char>) -> Option<DocKind> {
    if ext == "docx"@ || ext == "doc"@ {
        Some(DocKind::Word)
    } else if ext == "xlsx"@ || ext == "xls"@ {
        Some(DocKind::Workbook)
    } else if ext == "pptx"@ || ext == "ppt"@ {
        Some(DocKind::Slides)
    } else {
        None
    }
}

/// Which document kind a path names, or why it names none.
pub open spec fn source_kind_of(path: Seq<char>) -> Result<DocKind, Seq<char>> {
    match extension_of(path) {
        Err(e) => Err(e),
        Ok(ext) => match kind_of(ext) {
            Some(k) => Ok(k),
            None => Err("Unsupported format: "@ + ext + ". Supported: docx, xlsx, pptx"@),
        },
    }
}

impl DocumentDiff {
    /// The lower-cased extension of a path.
    pub fn get_extension(path: &str) -> (r: Result<String, String>)
        ensures
            result_view(r) == extension_of(path@),
    {
        let p = chars_of(path);
        let e: Vec<char> = match crate::paths::file_name_of(&p) {
            Some(n) => match crate::paths::name_extension_of(&n) {
                Some(e) => e,
                None => Vec::new(),
            },
            None => Vec::new(),
        };
        let es = string_of(&e);
        let lower = to_lowercase(es.as_str());
        if lower.unicode_len() == 0 {
            let mut m = String::new();
            push_str(&mut m, "File has no extension: ");
            push_str(&mut m, path);
            Err(m)
        } else {
            Ok(lower)
        }
    }

    /// Checks that both files exist and have the same extension.
    pub fn validate_paths(path_a: &str, path_b: &str, a_exists: bool, b_exists: bool) -> (r: Result<(), String>)
        ensures
            !a_exists ==> (r matches Err(m) && m@ == "File not found: "@ + path_a@),
            a_exists && !b_exists ==> (r matches Err(m) && m@ == "File not found: "@ + path_b@),
            a_exists && b_exists ==> match (extension_of(path_a@), extension_of(path_b@)) {
                (Err(e), _) => r matches Err(m) && m@ == e,
                (Ok(_), Err(e)) => r matches Err(m) && m@ == e,
                (Ok(a), Ok(b)) => if a == b {
                    r is Ok
                } else {
                    r matches Err(m) && m@ == "Format mismatch: files have different extensions ("@ + a
                        + " vs "@ + b + "). Both files must be the same format."@
                },
            },
    {
        if !a_exists {
            let mut m = String::new();
            push_str(&mut m, "File not found: ");
            push_str(&mut m, path_a);
            return Err(m);
        }
        if !b_exists {
            let mut m = String::new();
            push_str(&mut m, "File not found: ");
            push_str(&mut m, path_b);
            return Err(m);
        }
        let a = match Self::get_extension(path_a) {
            Ok(a) => a,
            Err(e) => {
                return Err(e);
            },
        };
        let b = match Self::get_extension(path_b) {
            Ok(b) => b,
            Err(e) => {
                return Err(e);
            },
        };
        if crate::text::str_eq(a.as_str(), b.as_str()) {
            Ok(())
        } else {
            let mut m = String::new();
            push_str(&mut m, "Format mismatch: files have different extensions (");
            push_str(&mut m, a.as_str());
            push_str(&mut m, " vs ");
            push_str(&mut m, b.as_str());
            push_str(&mut m, "). Both files must be the same format.");
            Err(m)
        }
    }

    /// The kind of document whose text a path calls for.
    pub fn source_kind(path: &str) -> (r: Result<DocKind, String>)
        ensures
            match source_kind_of(path@) {
                Ok(k) => r == Ok::<DocKind, String>(k),
                Err(e) => r matches Err(m) && m@ == e,
            },
    {
        let ext = match Self::get_extension(path) {
            Ok(e) => e,
            Err(e) => {
                return Err(e);
            },
        };
        let x = ext.as_str();
        if crate::text::str_eq(x, "docx") || crate::text::str_eq(x, "doc") {
            Ok(DocKind::Word)
        } else if crate::text::str_eq(x, "xlsx") || crate::text::str_eq(x, "xls") {
            Ok(DocKind::Workbook)
        } else if crate::text::str_eq(x, "pptx") || crate::text::str_eq(x, "ppt") {
            Ok(DocKind::Slides)
        } else {
            let mut m = String::new();
            push_str(&mut m, "Unsupported format: ");
            push_str(&mut m, x);
            push_str(&mut m, ". Supported: docx, xlsx, pptx");
            Err(m)
        }
    }
}

// ---------------------------------------------------------------------------
// Column letters
// ---------------------------------------------------------------------------

pub open spec fn letter(n: nat) -> char {
    (65 + n) as char
}

/// The spreadsheet column name of a column index from 0: A … Z, AA, AB, …
pub open spec fn column_name(c: nat) -> Seq<char>
    decreases c,
{
    if c < 26 {
        seq![letter(c)]
    } else {
        column_name((c / 26 - 1) as nat) + seq![letter(c % 26)]
    }
}

/// The spreadsheet column name of a column index from 0.
pub fn column_letter(col: u32) -> (r: String)
    ensures
        r@ == column_name(col as nat),
    decreases col,
{
    let rem = col % 26;
    let ch = ((65 + rem) as u8) as char;
    if col < 26 {
        let mut r = String::new();
        r.push(ch);
        assert(r@ =~= column_name(col as nat));
        r
    } else {
        let mut r = column_letter(col / 26 - 1);
        r.push(ch);
        r
    }
}

// ---------------------------------------------------------------------------
// Word paragraphs
// ---------------------------------------------------------------------------

/// Where the paragraph reader stands: the text so far, the paragraph being
/// read, whether it is inside a paragraph and inside a text element, and how
/// many paragraphs it has written.
pub struct ParaState {
    pub text: Seq<char>,
    pub para: Seq<char>,
    pub in_p: bool,
    pub in_t: bool,
    pub count: nat,
}

/// A finished paragraph as written: numbered `[P<n>] ` in the detailed form.
pub open spec fn para_line(tr: Seq<char>, count: nat, detailed: bool) -> Seq<char> {
    if detailed {
        "[P"@ + decimal(count) + "] "@ + tr
    } else {
        tr
    }
}

pub open spec fn para_text_step(st: ParaState, t: Seq<char>) -> ParaState {
    if st.in_t {
        ParaState { para: st.para + t, ..st }
    } else {
        st
    }
}

/// One event: `w:p` opens a paragraph, `w:t` inside one opens text, text
/// (and the predefined entities) inside text is kept; the end of a paragraph
/// writes its trimmed text, on a line of its own, unless it is empty.
pub open spec fn para_step(st: ParaState, e: Ev, detailed: bool) -> ParaState {
    if e.0 == XmlKind::Start || e.0 == XmlKind::Empty {
        if event_name(e) == "w:p"@ {
            ParaState { in_p: true, para: Seq::empty(), ..st }
        } else if event_name(e) == "w:t"@ && st.in_p {
            ParaState { in_t: true, ..st }
        } else {
            st
        }
    } else if e.0 == XmlKind::Text {
        para_text_step(st, e.1)
    } else if e.0 == XmlKind::GeneralRef {
        match entity_text(e.1) {
            Some(t) => para_text_step(st, t),
            None => st,
        }
    } else if e.0 == XmlKind::End {
        if e.1 == "w:t"@ {
            ParaState { in_t: false, ..st }
        } else if e.1 == "w:p"@ && st.in_p {
            let tr = trim(st.para);
            if tr.len() == 0 {
                ParaState { in_p: false, ..st }
            } else {
                let line = para_line(tr, st.count, detailed);
                ParaState {
                    text: if st.text.len() == 0 { line } else { st.text + seq!['\n'] + line },
                    in_p: false,
                    count: st.count + 1,
                    ..st
                }
            }
        } else {
            st
        }
    } else {
        st
    }
}

pub open spec fn para_run(es: Seq<Ev>, detailed: bool) -> ParaState
    decreases es.len(),
{
    if es.len() == 0 {
        ParaState { text: Seq::empty(), para: Seq::empty(), in_p: false, in_t: false, count: 0 }
    } else {
        para_step(para_run(es.drop_last(), detailed), es.last(), detailed)
    }
}

/// The paragraphs of a Word body, one per line; an error when the XML does
/// not read to its end.
pub open spec fn docx_text(xml: Seq<char>) -> Result<Seq<char>, Seq<char>> {
    let scan = xml_scan(vstd::utf8::encode_utf8(xml), false);
    match scan.1 {
        Some(e) => Err("XML parse error in word/document.xml: "@ + e),
        None => Ok(para_run(scan.0, false).text),
    }
}

/// The paragraphs of a Word body, numbered, one per line, as far as the XML
/// reads.
pub open spec fn docx_text_detailed(xml: Seq<char>) -> Seq<char> {
    para_run(xml_scan(vstd::utf8::encode_utf8(xml), false).0, true).text
}

fn para_events(events: &Vec<XmlEvent>, detailed: bool) -> (r: String)
    ensures
        r@ == para_run(evs(events@), detailed).text,
{
    let ghost ev = evs(events@);
    let mut text = String::new();
    let mut para = String::new();
    let mut in_p = false;
    let mut in_t = false;
    let mut count: u64 = 0;
    let wp = chars_of("w:p");
    let wt = chars_of("w:t");
    let mut i: usize = 0;
    proof {
        assert(ev.take(0) =~= Seq::<Ev>::empty());
    }
    while i < events.len()
        invariant
            i <= events@.len(),
            ev == evs(events@),
            wp@ == "w:p"@,
            wt@ == "w:t"@,
            count <= i,
            ({
                let st = para_run(ev.take(i as int), detailed);
                &&& st.text == text@
                &&& st.para == para@
                &&& st.in_p == in_p
                &&& st.in_t == in_t
                &&& st.count == count
            }),
        decreases events@.len() - i,
    {
        proof {
            assert(ev.take(i + 1).drop_last() =~= ev.take(i as int));
            assert(ev.take(i + 1).last() == events@[i as int]@);
        }
        let e = &events[i];
        if e.kind == XmlKind::Start || e.kind == XmlKind::Empty {
            let n = name_of(e);
            if crate::text::seq_eq(&n, &wp) {
                in_p = true;
                para = String::new();
            } else if crate::text::seq_eq(&n, &wt) && in_p {
                in_t = true;
            }
        } else if e.kind == XmlKind::Text {
            if in_t {
                push_str(&mut para, e.content.as_str());
            }
        } else if e.kind == XmlKind::GeneralRef {
            if in_t {
                match entity_chars(e.content.as_str()) {
                    Some(t) => push_str(&mut para, t),
                    None => {},
                }
            }
        } else if e.kind == XmlKind::End {
            let n = chars_of(e.content.as_str());
            if crate::text::seq_eq(&n, &wt) {
                in_t = false;
            } else if crate::text::seq_eq(&n, &wp) && in_p {
                let pv = chars_of(para.as_str());
                let tr = trim_chars(&pv);
                if tr.len() > 0 {
                    if text.unicode_len() > 0 {
                        text.push('\n');
                    }
                    if detailed {
                        push_str(&mut text, "[P");
                        let d = u64_to_string(count);
                        push_str(&mut text, d.as_str());
                        push_str(&mut text, "] ");
                    }
                    push_range(&mut text, &tr, 0, tr.len());
                    proof {
                        assert(tr@.subrange(0, tr@.len() as int) =~= tr@);
                    }
                    count = count + 1;
                }
                in_p = false;
            }
        }
        i = i + 1;
    }
    proof {
        assert(ev.take(events@.len() as int) =~= ev);
    }
    text
}

// ---------------------------------------------------------------------------
// Slides
// ---------------------------------------------------------------------------

/// The text of a slide: the contents of its `a:t` elements, run together, as
/// far as the XML reads.
pub open spec fn slide_step(st: (Seq<char>, bool), e: Ev) -> (Seq<char>, bool) {
    if e.0 == XmlKind::Start && event_name(e) == "a:t"@ {
        (st.0, true)
    } else if e.0 == XmlKind::Text {
        if st.1 { (st.0 + e.1, st.1) } else { st }
    } else if e.0 == XmlKind::GeneralRef {
        match entity_text(e.1) {
            Some(t) => if st.1 { (st.0 + t, st.1) } else { st },
            None => st,
        }
    } else if e.0 == XmlKind::End && e.1 == "a:t"@ {
        (st.0, false)
    } else {
        st
    }
}

pub open spec fn slide_run(es: Seq<Ev>) -> (Seq<char>, bool)
    decreases es.len(),
{
    if es.len() == 0 {
        (Seq::empty(), false)
    } else {
        slide_step(slide_run(es.drop_last()), es.last())
    }
}

pub open spec fn slide_text(xml: Seq<char>) -> Seq<char> {
    slide_run(xml_scan(vstd::utf8::encode_utf8(xml), false).0).0
}

fn slide_text_of(xml: &str) -> (r: String)
    ensures
        r@ == slide_text(xml@),
{
    let bytes = crate::text::str_bytes(xml);
    let (events, _) = scan_xml_events(bytes.as_slice(), false);
    let ghost ev = evs(events@);
    let mut text = String::new();
    let mut in_t = false;
    let at = chars_of("a:t");
    let mut i: usize = 0;
    proof {
        assert(ev.take(0) =~= Seq::<Ev>::empty());
    }
    while i < events.len()
        invariant
            i <= events@.len(),
            ev == evs(events@),
            at@ == "a:t"@,
            slide_run(ev.take(i as int)) == (text@, in_t),
        decreases events@.len() - i,
    {
        proof {
            assert(ev.take(i + 1).drop_last() =~= ev.take(i as int));
            assert(ev.take(i + 1).last() == events@[i as int]@);
        }
        let e = &events[i];
        if e.kind == XmlKind::Start {
            let n = name_of(e);
            if crate::text::seq_eq(&n, &at) {
                in_t = true;
            }
        } else if e.kind == XmlKind::Text {
            if in_t {
                push_str(&mut text, e.content.as_str());
            }
        } else if e.kind == XmlKind::GeneralRef {
            match entity_chars(e.content.as_str()) {
                Some(t) => {
                    if in_t {
                        push_str(&mut text, t);
                    }
                },
                None => {},
            }
        } else if e.kind == XmlKind::End {
            let n = chars_of(e.content.as_str());
            if crate::text::seq_eq(&n, &at) {
                in_t = false;
            }
        }
        i = i + 1;
    }
    proof {
        assert(ev.take(events@.len() as int) =~= ev);
    }
    text
}

// ---------------------------------------------------------------------------
// Ordering slides by part name
// ---------------------------------------------------------------------------

/// Lexicographic order of texts by code point, the order of `str`.
pub open spec fn lex_lt(a: Seq<char>, b: Seq<char>) -> bool
    decreases a.len(),
{
    if a.len() == 0 {
        b.len() > 0
    } else if b.len() == 0 {
        false
    } else if a[0] != b[0] {
        (a[0] as int) < (b[0] as int)
    } else {
        lex_lt(a.drop_first(), b.drop_first())
    }
}

pub open spec fn lex_le(a: Seq<char>, b: Seq<char>) -> bool {
    a == b || lex_lt(a, b)
}

pub proof fn lemma_lex_total(a: Seq<char>, b: Seq<char>)
    ensures
        !lex_lt(a, b) ==> lex_le(b, a),
    decreases a.len(),
{
    if a.len() > 0 && b.len() > 0 {
        if a[0] == b[0] {
            lemma_lex_total(a.drop_first(), b.drop_first());
            if a.drop_first() == b.drop_first() {
                assert(a =~= seq![a[0]] + a.drop_first());
                assert(b =~= seq![b[0]] + b.drop_first());
                assert(a =~= b);
            }
        } else {
            assert((a[0] as int) != (b[0] as int));
        }
    } else if a.len() == 0 && b.len() == 0 {
        assert(a =~= b);
    }
}

fn lex_less(a: &Vec<char>, b: &Vec<char>) -> (r: bool)
    ensures
        r == lex_lt(a@, b@),
{
    let mut i: usize = 0;
    proof {
        assert(a@.skip(0) =~= a@);
        assert(b@.skip(0) =~= b@);
    }
    loop
        invariant
            i <= a@.len(),
            i <= b@.len(),
            lex_lt(a@, b@) == lex_lt(a@.skip(i as int), b@.skip(i as int)),
        decreases a@.len() - i,
    {
        if i == a.len() {
            return i < b.len();
        }
        if i == b.len() {
            return false;
        }
        proof {
            assert(a@.skip(i as int)[0] == a@[i as int]);
            assert(b@.skip(i as int)[0] == b@[i as int]);
            assert(a@.skip(i as int).drop_first() =~= a@.skip(i + 1));
            assert(b@.skip(i as int).drop_first() =~= b@.skip(i + 1));
        }
        if a[i] != b[i] {
            return a[i] < b[i];
        }
        i = i + 1;
    }
}

pub type SlideV = (Seq<char>, Result<Seq<char>, Seq<char>>);

pub open spec fn slide_view(x: (String, Result<String, String>)) -> SlideV {
    (x.0@, result_view(x.1))
}

pub open spec fn slides_view(v: Seq<(String, Result<String, String>)>) -> Seq<SlideV> {
    v.map_values(|x: (String, Result<String, String>)| slide_view(x))
}

pub open spec fn by_name(v: Seq<SlideV>) -> bool {
    forall|i: int| 0 <= i < v.len() - 1 ==> lex_le(#[trigger] v[i].0, v[i + 1].0)
}

/// The slides ordered by part name.
fn sort_slides(items: Vec<(String, Result<String, String>)>) -> (r: Vec<(String, Result<String, String>)>)
    ensures
        slides_view(r@).to_multiset() == slides_view(items@).to_multiset(),
        by_name(slides_view(r@)),
        r@.len() == items@.len(),
{
    let ghost iv = slides_view(items@);
    let mut out: Vec<(String, Result<String, String>)> = Vec::new();
    let mut items = items;
    let ghost all = items@;
    let mut k: usize = 0;
    proof {
        assert(slides_view(out@) =~= Seq::<SlideV>::empty());
        assert(iv.take(0) =~= Seq::<SlideV>::empty());
    }
    while k < items.len()
        invariant
            k <= items@.len(),
            items@ == all,
            iv == slides_view(all),
            out@.len() == k,
            slides_view(out@).to_multiset() == iv.take(k as int).to_multiset(),
            by_name(slides_view(out@)),
        decreases items@.len() - k,
    {
        let x = items[k].0.clone();
        let xv = chars_of(x.as_str());
        let mut p: usize = 0;
        while p < out.len()
            invariant
                p <= out@.len(),
                k < all.len(),
                xv@ == all[k as int].0@,
                forall|j: int| 0 <= j < p ==> !lex_lt(xv@, #[trigger] slides_view(out@)[j].0),
            ensures
                p <= out@.len(),
                forall|j: int| 0 <= j < p ==> !lex_lt(xv@, #[trigger] slides_view(out@)[j].0),
                p < out@.len() ==> lex_lt(xv@, slides_view(out@)[p as int].0),
            decreases out@.len() - p,
        {
            let yv = chars_of(out[p].0.as_str());
            if lex_less(&xv, &yv) {
                break;
            }
            p = p + 1;
        }
        let ghost before = slides_view(out@);
        let item = (x, match &items[k].1 {
            Ok(s) => Ok(s.clone()),
            Err(e) => Err(e.clone()),
        });
        let ghost iview = slide_view(item);
        assert(iview == iv[k as int]);
        out.insert(p, item);
        proof {
            assert(slides_view(out@) =~= before.insert(p as int, iview));
            assert(iv.take(k + 1) =~= iv.take(k as int).push(iv[k as int]));
            vstd::seq_lib::to_multiset_insert(before, p as int, iview);
            vstd::seq_lib::to_multiset_build(iv.take(k as int), iv[k as int]);
            let sv = slides_view(out@);
            assert forall|i: int| 0 <= i < sv.len() - 1 implies lex_le(#[trigger] sv[i].0, sv[i + 1].0) by {
                if i + 1 < p {
                    assert(sv[i] == before[i] && sv[i + 1] == before[i + 1]);
                } else if i + 1 == p {
                    lemma_lex_total(xv@, before[i].0);
                } else if i == p {
                    if p < before.len() {
                        assert(lex_lt(xv@, before[p as int].0));
                    }
                } else {
                    assert(sv[i] == before[i - 1] && sv[i + 1] == before[i]);
                }
            }
        }
        k = k + 1;
    }
    proof {
        assert(iv.take(items@.len() as int) =~= iv);
    }
    out
}

// ---------------------------------------------------------------------------
// The text of a document
// ---------------------------------------------------------------------------

/// A worksheet as read: its name and its rows of cell texts.
pub struct SheetCells {
    pub name: String,
    pub rows: Vec<Vec<String>>,
}

/// What was read of a document, by kind: the XML of a Word body, the sheets
/// of a workbook, or the slide parts of a presentation (each with its XML);
/// or the message of the step that failed.
pub enum DocSource {
    Word(Result<String, String>),
    Workbook(Result<Vec<SheetCells>, String>),
    Slides(Result<Vec<(String, Result<String, String>)>, String>),
}

pub open spec fn source_is(s: DocSource, k: DocKind) -> bool {
    match k {
        DocKind::Word => s is Word,
        DocKind::Workbook => s is Workbook,
        DocKind::Slides => s is Slides,
    }
}

/// Whether a part holds a slide.
pub open spec fn slide_part(n: Seq<char>) -> bool {
    starts_with(n, "ppt/slides/slide"@) && ends_with(n, ".xml"@)
}

/// Whether a part holds a slide.
pub fn is_slide_part(name: &str) -> (b: bool)
    ensures
        b == slide_part(name@),
{
    let n = chars_of(name);
    let p = chars_of("ppt/slides/slide");
    let x = chars_of(".xml");
    crate::text::has_prefix(&n, &p) && crate::text::has_suffix(&n, &x)
}

/// The text of slides in the order given: each under a `--- Slide <n> ---`
/// line, trimmed, slides separated by a line feed; the first unreadable one
/// makes it an error.
pub open spec fn slides_text(v: Seq<SlideV>) -> Result<Seq<char>, Seq<char>>
    decreases v.len(),
{
    if v.len() == 0 {
        Ok(Seq::empty())
    } else {
        match slides_text(v.drop_last()) {
            Err(e) => Err(e),
            Ok(t) => match v.last().1 {
                Err(e) => Err(e),
                Ok(x) => Ok(t + (if v.len() > 1 { seq!['\n'] } else { Seq::empty() }) + "--- Slide "@
                    + decimal(v.len()) + " ---\n"@ + trim(slide_text(x))),
            },
        }
    }
}

/// The text of a presentation: no slides is an error; otherwise the slides
/// in the order of their part names.
pub open spec fn presentation_text(v: Seq<SlideV>, r: Result<Seq<char>, Seq<char>>) -> bool {
    if v.len() == 0 {
        r == Err::<Seq<char>, Seq<char>>("No slides found in presentation"@)
    } else {
        exists|w: Seq<SlideV>| w.to_multiset() == v.to_multiset() && by_name(w) && w.len() == v.len()
            && r == slides_text(w)
    }
}

fn pptx_text(slides: Vec<(String, Result<String, String>)>) -> (r: Result<String, String>)
    ensures
        presentation_text(slides_view(slides@), result_view(r)),
{
    if slides.len() == 0 {
        return Err("No slides found in presentation".to_owned());
    }
    let ghost v0 = slides_view(slides@);
    let sorted = sort_slides(slides);
    let ghost w = slides_view(sorted@);
    let mut text = String::new();
    let mut k: usize = 0;
    proof {
        assert(w.take(0) =~= Seq::<SlideV>::empty());
    }
    while k < sorted.len()
        invariant
            k <= sorted@.len(),
            w == slides_view(sorted@),
            w.to_multiset() == v0.to_multiset(),
            v0 == slides_view(slides@),
            by_name(w),
            w.len() == v0.len(),
            v0.len() > 0,
            slides_text(w.take(k as int)) == Ok::<Seq<char>, Seq<char>>(text@),
        decreases sorted@.len() - k,
    {
        proof {
            assert(w.take(k + 1).drop_last() =~= w.take(k as int));
            assert(w.take(k + 1).last() == w[k as int]);
        }
        match &sorted[k].1 {
            Err(e) => {
                let r: Result<String, String> = Err(e.clone());
                proof {
                    lemma_slides_err(w, k as int);
                    assert(result_view(r) == slides_text(w));
                    assert(w.to_multiset() == v0.to_multiset() && by_name(w) && w.len() == v0.len()
                        && result_view(r) == slides_text(w));
                }
                return r;
            },
            Ok(xml) => {
                let ghost old_text = text@;
                if k > 0 {
                    text.push('\n');
                }
                push_str(&mut text, "--- Slide ");
                let n = u64_to_string(k as u64 + 1);
                push_str(&mut text, n.as_str());
                push_str(&mut text, " ---\n");
                let st = slide_text_of(xml.as_str());
                let sv = chars_of(st.as_str());
                let tr = trim_chars(&sv);
                push_range(&mut text, &tr, 0, tr.len());
                proof {
                    assert(tr@.subrange(0, tr@.len() as int) =~= tr@);
                    assert(w[k as int].1 == Ok::<Seq<char>, Seq<char>>(xml@));
                    assert(w.take(k + 1).len() == k + 1);
                    assert(text@ =~= old_text + (if k + 1 > 1 { seq!['\n'] } else { Seq::<char>::empty() })
                        + "--- Slide "@ + decimal((k + 1) as nat) + " ---\n"@ + trim(slide_text(xml@)));
                }
            },
        }
        k = k + 1;
    }
    proof {
        assert(w.take(sorted@.len() as int) =~= w);
    }
    let r: Result<String, String> = Ok(text);
    assert(result_view(r) == slides_text(w));
    r
}

proof fn lemma_slides_err(w: Seq<SlideV>, k: int)
    requires
        0 <= k < w.len(),
        slides_text(w.take(k)) is Ok,
        w[k].1 is Err,
    ensures
        slides_text(w) == Err::<Seq<char>, Seq<char>>(w[k].1.get_Err_0()),
    decreases w.len() - k,
{
    assert(w.take(k + 1).drop_last() =~= w.take(k));
    assert(w.take(k + 1).last() == w[k]);
    lemma_slides_err_prefix(w, k + 1);
}

proof fn lemma_slides_err_prefix(w: Seq<SlideV>, m: int)
    requires
        0 < m <= w.len(),
        slides_text(w.take(m)) is Err,
    ensures
        slides_text(w) == slides_text(w.take(m)),
    decreases w.len() - m,
{
    if m == w.len() {
        assert(w.take(m) =~= w);
    } else {
        assert(w.take(m + 1).drop_last() =~= w.take(m));
        lemma_slides_err_prefix(w, m + 1);
    }
}

pub open spec fn row_line(cells: Seq<Seq<char>>) -> Seq<char> {
    crate::text::join(cells, "\t"@) + seq!['\n']
}

pub open spec fn rows_text(rows: Seq<Seq<Seq<char>>>) -> Seq<char>
    decreases rows.len(),
{
    if rows.len() == 0 {
        Seq::empty()
    } else {
        rows_text(rows.drop_last()) + row_line(rows.last())
    }
}

pub open spec fn sheet_rows(s: SheetCells) -> Seq<Seq<Seq<char>>> {
    s.rows@.map_values(|r: Vec<String>| crate::text::strings_view(r@))
}

/// The text of a workbook, in the plain and the detailed form alike: each
/// sheet under an `=== Sheet: <name> ===` line, sheets separated by a blank
/// line; rows one per line, cells tab-separated.
pub open spec fn workbook_text(sheets: Seq<SheetCells>) -> Seq<char>
    decreases sheets.len(),
{
    if sheets.len() == 0 {
        Seq::empty()
    } else {
        let s = sheets.last();
        workbook_text(sheets.drop_last()) + (if sheets.len() > 1 {
            seq!['\n']
        } else {
            Seq::empty()
        }) + "=== Sheet: "@ + s.name@ + " ===\n"@ + rows_text(sheet_rows(s))
    }
}

fn sheets_text(sheets: &Vec<SheetCells>) -> (r: String)
    ensures
        r@ == workbook_text(sheets@),
{
    let mut text = String::new();
    let mut si: usize = 0;
    proof {
        assert(sheets@.take(0) =~= Seq::<SheetCells>::empty());
    }
    while si < sheets.len()
        invariant
            si <= sheets@.len(),
            text@ == workbook_text(sheets@.take(si as int)),
        decreases sheets@.len() - si,
    {
        proof {
            assert(sheets@.take(si + 1).drop_last() =~= sheets@.take(si as int));
            assert(sheets@.take(si + 1).last() == sheets@[si as int]);
        }
        let s = &sheets[si];
        if si > 0 {
            text.push('\n');
        }
        push_str(&mut text, "=== Sheet: ");
        push_str(&mut text, s.name.as_str());
        push_str(&mut text, " ===\n");
        let ghost head = text@;
        let ghost rv = sheet_rows(*s);
        let mut ri: usize = 0;
        proof {
            assert(rv.take(0) =~= Seq::<Seq<Seq<char>>>::empty());
        }
        while ri < s.rows.len()
            invariant
                ri <= s.rows@.len(),
                rv == sheet_rows(*s),
                text@ == head + rows_text(rv.take(ri as int)),
            decreases s.rows@.len() - ri,
        {
            proof {
                assert(rv.take(ri + 1).drop_last() =~= rv.take(ri as int));
                assert(rv.take(ri + 1).last() == crate::text::strings_view(s.rows@[ri as int]@));
            }
            let line = join_strings(&s.rows[ri], "\t");
            push_str(&mut text, line.as_str());
            text.push('\n');
            ri = ri + 1;
        }
        proof {
            assert(rv.take(s.rows@.len() as int) =~= rv);
        }
        si = si + 1;
    }
    proof {
        assert(sheets@.take(sheets@.len() as int) =~= sheets@);
    }
    text
}

/// The text of a document as the plain diff compares it.
pub open spec fn document_text(path: Seq<char>, src: DocSource, r: Result<Seq<char>, Seq<char>>) -> bool {
    match source_kind_of(path) {
        Err(e) => r == Err::<Seq<char>, Seq<char>>(e),
        Ok(_) => match src {
            DocSource::Word(Err(e)) => r == Err::<Seq<char>, Seq<char>>(e@),
            DocSource::Word(Ok(x)) => r == docx_text(x@),
            DocSource::Workbook(Err(e)) => r == Err::<Seq<char>, Seq<char>>(e@),
            DocSource::Workbook(Ok(sheets)) => r == Ok::<Seq<char>, Seq<char>>(workbook_text(sheets@)),
            DocSource::Slides(Err(e)) => r == Err::<Seq<char>, Seq<char>>(e@),
            DocSource::Slides(Ok(slides)) => presentation_text(slides_view(slides@), r),
        },
    }
}

/// The text of a document as the detailed diff compares it.
pub open spec fn document_text_detailed(path: Seq<char>, src: DocSource, r: Result<Seq<char>, Seq<char>>) -> bool {
    match extension_of(path) {
        Err(e) => r == Err::<Seq<char>, Seq<char>>(e),
        Ok(ext) => match kind_of(ext) {
            None => r == Err::<Seq<char>, Seq<char>>("Unsupported format: "@ + ext),
            Some(_) => match src {
                DocSource::Word(Err(e)) => r == Err::<Seq<char>, Seq<char>>(e@),
                DocSource::Word(Ok(x)) => r == Ok::<Seq<char>, Seq<char>>(docx_text_detailed(x@)),
                DocSource::Workbook(Err(e)) => r == Err::<Seq<char>, Seq<char>>(e@),
                DocSource::Workbook(Ok(sheets)) => r == Ok::<Seq<char>, Seq<char>>(workbook_text(sheets@)),
                DocSource::Slides(Err(e)) => r == Err::<Seq<char>, Seq<char>>(e@),
                DocSource::Slides(Ok(slides)) => presentation_text(slides_view(slides@), r),
            },
        },
    }
}

fn parse_docx_xml(xml: &str, detailed: bool) -> (r: Result<String, String>)
    ensures
        !detailed ==> result_view(r) == docx_text(xml@),
        detailed ==> result_view(r) == Ok::<Seq<char>, Seq<char>>(docx_text_detailed(xml@)),
{
    let bytes = crate::text::str_bytes(xml);
    let (events, err) = scan_xml_events(bytes.as_slice(), false);
    match err {
        Some(e) => {
            if !detailed {
                let mut m = String::new();
                push_str(&mut m, "XML parse error in word/document.xml: ");
                push_str(&mut m, e.as_str());
                return Err(m);
            }
        },
        None => {},
    }
    Ok(para_events(&events, detailed))
}

impl DocumentDiff {
    /// The text of a document, from what was read of it (`source_kind`
    /// tells which reading the path calls for).
    pub fn extract_text(path: &str, source: DocSource) -> (r: Result<String, String>)
        requires
            source_kind_of(path@) matches Ok(k) ==> source_is(source, k),
        ensures
            document_text(path@, source, result_view(r)),
    {
        match Self::source_kind(path) {
            Err(e) => Err(e),
            Ok(_) => match source {
                DocSource::Word(Err(e)) => Err(e),
                DocSource::Word(Ok(x)) => parse_docx_xml(x.as_str(), false),
                DocSource::Workbook(Err(e)) => Err(e),
                DocSource::Workbook(Ok(sheets)) => Ok(sheets_text(&sheets)),
                DocSource::Slides(Err(e)) => Err(e),
                DocSource::Slides(Ok(slides)) => pptx_text(slides),
            },
        }
    }

    /// The text of a document with its structure marked (numbered
    /// paragraphs, cells by column, slides).
    pub fn extract_text_detailed(path: &str, source: DocSource) -> (r: Result<String, String>)
        requires
            source_kind_of(path@) matches Ok(k) ==> source_is(source, k),
        ensures
            document_text_detailed(path@, source, result_view(r)),
    {
        let ext = match Self::get_extension(path) {
            Ok(e) => e,
            Err(e) => {
                return Err(e);
            },
        };
        match Self::source_kind(path) {
            Err(_) => {
                let mut m = String::new();
                push_str(&mut m, "Unsupported format: ");
                push_str(&mut m, ext.as_str());
                Err(m)
            },
            Ok(_) => match source {
                DocSource::Word(Err(e)) => Err(e),
                DocSource::Word(Ok(x)) => parse_docx_xml(x.as_str(), true),
                DocSource::Workbook(Err(e)) => Err(e),
                DocSource::Workbook(Ok(sheets)) => Ok(sheets_text(&sheets)),
                DocSource::Slides(Err(e)) => Err(e),
                DocSource::Slides(Ok(slides)) => pptx_text(slides),
            },
        }
    }
}

/// Every change is an addition, a deletion or an unchanged line: the three
/// counts add up to the number of changes reported.
pub proof fn lemma_stats_total(r: DiffSummary, cs: Seq<(LineTag, Seq<char>)>)
    requires
        summary_of(r, cs),
    ensures
        r.stats.additions + r.stats.deletions + r.stats.unchanged_lines == r.changeset@.len(),
{
    lemma_count_bound(cs, LineTag::Equal);
}

/// Distinct column indices have distinct names.
pub proof fn lemma_column_name_injective(a: nat, b: nat)
    requires
        column_name(a) == column_name(b),
    ensures
        a == b,
    decreases a + b,
{
    let na = column_name(a);
    let nb = column_name(b);
    if a < 26 && b < 26 {
        assert(na[0] == letter(a));
        assert(nb[0] == letter(b));
    } else if a < 26 {
        lemma_column_name_len(((b / 26) - 1) as nat);
        assert(nb.len() >= 2);
    } else if b < 26 {
        lemma_column_name_len(((a / 26) - 1) as nat);
        assert(na.len() >= 2);
    } else {
        let pa = column_name(((a / 26) - 1) as nat);
        let pb = column_name(((b / 26) - 1) as nat);
        assert(na.last() == letter(a % 26));
        assert(nb.last() == letter(b % 26));
        assert(na.drop_last() =~= pa);
        assert(nb.drop_last() =~= pb);
        lemma_column_name_injective(((a / 26) - 1) as nat, ((b / 26) - 1) as nat);
    }
}

proof fn lemma_column_name_len(c: nat)
    ensures
        column_name(c).len() >= 1,
    decreases c,
{
    if c >= 26 {
        lemma_column_name_len(((c / 26) - 1) as nat);
    }
}

} // verus!
