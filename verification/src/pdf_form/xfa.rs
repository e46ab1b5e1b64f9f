//! Reading and filling the data of XFA forms.
use vstd::prelude::*;
use crate::pdf_form::{FieldInfo, PdfFormFiller};
use crate::text::{
    chars_of, contains, contains_seq, find_at, first_at, has_prefix, replace_pairs, replace_pairs_chars,
    seq_eq, slice_chars, starts_with, string_of, strings_view,
};
use crate::text::{
    ends_with, has_suffix, str_bytes, trim, trim_chars, trim_start_all, trim_start_all_chars,
};
use crate::patchers::{trim_end_all, trim_end_all_exec};
use crate::xml::{
    entity_chars, entity_text, escape, event_text, evs, opt_chars, push_escaped, push_event, scan_xml,
    scan_xml_events, tag_name, tag_name_chars, trimmed_xml_scan, xml_scan, xml_ws, Ev, XmlEvent, XmlKind,
};
use crate::text::push_str;

verus! {

/// A form field as the library reports it: name, type and current value.
pub type FieldV = (Seq<char>, Seq<char>, Option<Seq<char>>);

impl View for FieldInfo {
    type V = FieldV;

    open spec fn view(&self) -> FieldV {
        (self.name@, self.field_type@, opt_chars(self.current_value))
    }
}

pub open spec fn fields_view(v: Seq<FieldInfo>) -> Seq<FieldV> {
    v.map_values(|f: FieldInfo| f@)
}

// ---------------------------------------------------------------------------
// Finding fields by scanning the text
// ---------------------------------------------------------------------------

/// Where a tag name that starts at `i` ends: at the first `>`, space or `/`,
/// or at the end of the text.
pub open spec fn name_end(cs: Seq<char>, i: int) -> int
    decreases cs.len() - i,
{
    if i < 0 || i >= cs.len() || cs[i] == '>' || cs[i] == ' ' || cs[i] == '/' {
        i
    } else {
        name_end(cs, i + 1)
    }
}

/// The part of a name after its first colon (the whole name if it has none).
pub open spec fn local_part(name: Seq<char>) -> Seq<char> {
    match first_at(name, ":"@, 0) {
        Some(i) => name.subrange(i + 1, name.len() as int),
        None => name,
    }
}

/// The five predefined entities resolved, `&amp;` first.
pub open spec fn unescape_entities(v: Seq<char>) -> Seq<char> {
    replace_pairs(
        v,
        seq!["&amp;"@, "&lt;"@, "&gt;"@, "&quot;"@, "&apos;"@],
        seq!["&"@, "<"@, ">"@, "\""@, "'"@],
    )
}

/// Tags the scan steps over whole: declarations and the XDP, dataset and
/// data wrappers.
pub open spec fn is_wrapper(t: Seq<char>) -> bool {
    starts_with(t, "?"@) || t == "xdp:xdp"@ || t == "xfa:datasets"@ || t == "xfa:data"@
}

/// Whether a tag (with local part `clean`) names a data field rather than a
/// subform, a page or a wrapper.
pub open spec fn is_field_tag(clean: Seq<char>, t: Seq<char>) -> bool {
    &&& clean.len() > 0
    &&& clean != "topSubform"@
    &&& clean != "topmostSubform"@
    &&& !starts_with(clean, "Page"@)
    &&& t != "xfa:data"@
    &&& t != "xfa:datasets"@
}

pub open spec fn close_tag(t: Seq<char>) -> Seq<char> {
    "</"@ + t + ">"@
}

/// The fields found by scanning `cs` from `pos`: each element (with no
/// prefix, or the `xfa:` prefix) that has a closing tag gives its local name
/// and the text up to that closing tag, entities resolved (no value when the
/// element is empty); self-closing tags, closing tags, subforms, pages and
/// wrappers give none.
pub open spec fn text_fields(cs: Seq<char>, pos: int) -> Seq<FieldV>
    decreases cs.len() - pos,
{
    if pos < 0 || pos >= cs.len() {
        Seq::empty()
    } else if cs[pos] != '<' || (pos + 1 < cs.len() && cs[pos + 1] == '/') {
        text_fields(cs, pos + 1)
    } else {
        let te = name_end(cs, pos + 1);
        if te <= pos + 1 || te > cs.len() {
            text_fields(cs, pos + 1)
        } else {
            let t = cs.subrange(pos + 1, te);
            if is_wrapper(t) {
                match first_at(cs, ">"@, pos) {
                    Some(p) => if pos <= p && p < cs.len() { text_fields(cs, p + 1) } else { Seq::empty() },
                    None => Seq::empty(),
                }
            } else if contains_seq(t, ":"@) && !starts_with(t, "xfa:"@) {
                text_fields(cs, pos + 1)
            } else {
                match first_at(cs, close_tag(t), pos) {
                    Some(cl) => match first_at(cs, ">"@, pos) {
                        Some(tep) => if !(pos <= cl && cl + close_tag(t).len() <= cs.len() && pos <= tep && tep < cs.len()) {
                            Seq::empty()
                        } else if tep > 0 && cs[tep - 1] == '/' {
                            text_fields(cs, tep + 1)
                        } else {
                            let rest = text_fields(cs, cl + close_tag(t).len());
                            let value = if cl > tep + 1 {
                                Some(unescape_entities(cs.subrange(tep + 1, cl)))
                            } else {
                                None
                            };
                            if is_field_tag(local_part(t), t) {
                                seq![(local_part(t), "XFA"@, value)] + rest
                            } else {
                                rest
                            }
                        },
                        None => Seq::empty(),
                    },
                    None => text_fields(cs, pos + 1),
                }
            }
        }
    }
}

fn name_end_exec(cs: &Vec<char>, i: usize) -> (r: usize)
    requires
        i <= cs@.len(),
    ensures
        r == name_end(cs@, i as int),
        i <= r <= cs@.len(),
{
    let mut j = i;
    while j < cs.len() && cs[j] != '>' && cs[j] != ' ' && cs[j] != '/'
        invariant
            i <= j <= cs@.len(),
            name_end(cs@, i as int) == name_end(cs@, j as int),
        decreases cs@.len() - j,
    {
        j = j + 1;
    }
    j
}

fn local_part_exec(t: &Vec<char>) -> (r: Vec<char>)
    ensures
        r@ == local_part(t@),
{
    let colon = chars_of(":");
    proof {
        reveal_strlit(":");
    }
    match find_at(t, &colon, 0) {
        Some(i) => slice_chars(t, i + 1, t.len()),
        None => slice_chars(t, 0, t.len()),
    }
}

fn unescape_exec(v: &Vec<char>) -> (r: Vec<char>)
    ensures
        r@ == unescape_entities(v@),
{
    let mut find: Vec<String> = Vec::new();
    find.push("&amp;".to_owned());
    find.push("&lt;".to_owned());
    find.push("&gt;".to_owned());
    find.push("&quot;".to_owned());
    find.push("&apos;".to_owned());
    let mut repl: Vec<String> = Vec::new();
    repl.push("&".to_owned());
    repl.push("<".to_owned());
    repl.push(">".to_owned());
    repl.push("\"".to_owned());
    repl.push("'".to_owned());
    proof {
        assert(strings_view(find@) =~= seq!["&amp;"@, "&lt;"@, "&gt;"@, "&quot;"@, "&apos;"@]);
        assert(strings_view(repl@) =~= seq!["&"@, "<"@, ">"@, "\""@, "'"@]);
    }
    replace_pairs_chars(v, find.as_slice(), repl.as_slice())
}

fn is_wrapper_exec(t: &Vec<char>) -> (b: bool)
    ensures
        b == is_wrapper(t@),
{
    has_prefix(t, &chars_of("?")) || seq_eq(t, &chars_of("xdp:xdp")) || seq_eq(t, &chars_of("xfa:datasets"))
        || seq_eq(t, &chars_of("xfa:data"))
}

fn is_field_tag_exec(clean: &Vec<char>, t: &Vec<char>) -> (b: bool)
    ensures
        b == is_field_tag(clean@, t@),
{
    clean.len() > 0 && !seq_eq(clean, &chars_of("topSubform")) && !seq_eq(clean, &chars_of("topmostSubform"))
        && !has_prefix(clean, &chars_of("Page")) && !seq_eq(t, &chars_of("xfa:data"))
        && !seq_eq(t, &chars_of("xfa:datasets"))
}

fn close_tag_exec(t: &Vec<char>) -> (r: Vec<char>)
    ensures
        r@ == close_tag(t@),
{
    let mut r: Vec<char> = Vec::new();
    r.push('<');
    r.push('/');
    proof {
        reveal_strlit("</");
        reveal_strlit(">");
        assert(r@ =~= "</"@ + t@.subrange(0, 0));
    }
    let mut i: usize = 0;
    while i < t.len()
        invariant
            i <= t@.len(),
            r@ == "</"@ + t@.subrange(0, i as int),
        decreases t@.len() - i,
    {
        r.push(t[i]);
        i = i + 1;
        proof {
            assert(r@ =~= "</"@ + t@.subrange(0, i as int));
        }
    }
    r.push('>');
    proof {
        assert(t@.subrange(0, t@.len() as int) =~= t@);
        assert(r@ =~= close_tag(t@));
    }
    r
}

// ---------------------------------------------------------------------------
// Filling values by editing the text
// ---------------------------------------------------------------------------

/// The first value given for `key`.
pub open spec fn value_for(fields: Seq<(String, String)>, key: Seq<char>) -> Option<Seq<char>>
    decreases fields.len(),
{
    if fields.len() == 0 {
        None
    } else if fields[0].0@ == key {
        Some(fields[0].1@)
    } else {
        value_for(fields.drop_first(), key)
    }
}

/// A value escaped for XML text, `&` first.
pub open spec fn encode_value(v: Seq<char>) -> Seq<char> {
    replace_pairs(
        v,
        seq!["&"@, "<"@, ">"@, "\""@, "'"@],
        seq!["&amp;"@, "&lt;"@, "&gt;"@, "&quot;"@, "&apos;"@],
    )
}

/// The opening-tag patterns tried for a field, in order.
pub open spec fn field_patterns(name: Seq<char>) -> Seq<Seq<char>> {
    seq!["<"@ + name + ">"@, "<"@ + name + " "@, "<xfa:"@ + name + ">"@, "<xfa:"@ + name + " "@]
}

/// The element name a pattern stands for: trailing spaces and `>`, and the
/// leading `<`, removed.
pub open spec fn pattern_element(pat: Seq<char>) -> Seq<char> {
    trim_start_all(trim_end_all(trim_end_all(pat, " "@), ">"@), "<"@)
}

/// `r` with the content of the first element opened by `pat` at or after
/// `from` (skipping self-closed ones) replaced by `enc`; `None` where there
/// is no such element with a closing tag.
pub open spec fn replace_element(r: Seq<char>, pat: Seq<char>, from: int, enc: Seq<char>) -> Option<Seq<char>>
    decreases r.len() - from,
{
    match first_at(r, pat, from) {
        None => None,
        Some(abs) => {
            let opening_end = if ends_with(pat, " "@) {
                match first_at(r, ">"@, abs) {
                    Some(p) => Some(p + 1),
                    None => None,
                }
            } else {
                Some(abs + pat.len())
            };
            match opening_end {
                None => None,
                Some(oe) => if abs > 0 && r[abs - 1] == '/' {
                    if from < oe <= r.len() {
                        replace_element(r, pat, oe, enc)
                    } else {
                        None
                    }
                } else {
                    match first_at(r, close_tag(pattern_element(pat)), oe) {
                        Some(c) => if 0 <= oe <= c <= r.len() {
                            Some(r.subrange(0, oe) + enc + r.subrange(c, r.len() as int))
                        } else {
                            None
                        },
                        None => None,
                    }
                },
            }
        },
    }
}

/// `r` with the first of the patterns, from index `k` on, that has an
/// element with a closing tag filled in; `None` where none has.
pub open spec fn replace_first_pattern(r: Seq<char>, pats: Seq<Seq<char>>, k: int, enc: Seq<char>) -> Option<Seq<char>>
    decreases pats.len() - k,
{
    if k < 0 || k >= pats.len() {
        None
    } else {
        match replace_element(r, pats[k], 0, enc) {
            Some(x) => Some(x),
            None => replace_first_pattern(r, pats, k + 1, enc),
        }
    }
}

/// The text with the given values filled in, field after field, and how
/// many fields were filled.
pub open spec fn text_replaced(xml: Seq<char>, fields: Seq<(String, String)>) -> (Seq<char>, nat)
    decreases fields.len(),
{
    if fields.len() == 0 {
        (xml, 0)
    } else {
        let prev = text_replaced(xml, fields.drop_last());
        let f = fields.last();
        match replace_first_pattern(prev.0, field_patterns(f.0@), 0, encode_value(f.1@)) {
            Some(x) => (x, prev.1 + 1),
            None => prev,
        }
    }
}

fn encode_exec(v: &str) -> (r: Vec<char>)
    ensures
        r@ == encode_value(v@),
{
    let mut find: Vec<String> = Vec::new();
    find.push("&".to_owned());
    find.push("<".to_owned());
    find.push(">".to_owned());
    find.push("\"".to_owned());
    find.push("'".to_owned());
    let mut repl: Vec<String> = Vec::new();
    repl.push("&amp;".to_owned());
    repl.push("&lt;".to_owned());
    repl.push("&gt;".to_owned());
    repl.push("&quot;".to_owned());
    repl.push("&apos;".to_owned());
    proof {
        assert(strings_view(find@) =~= seq!["&"@, "<"@, ">"@, "\""@, "'"@]);
        assert(strings_view(repl@) =~= seq!["&amp;"@, "&lt;"@, "&gt;"@, "&quot;"@, "&apos;"@]);
    }
    replace_pairs_chars(&chars_of(v), find.as_slice(), repl.as_slice())
}

fn concat3(a: &str, b: &Vec<char>, c: &str) -> (r: Vec<char>)
    ensures
        r@ == a@ + b@ + c@,
{
    let mut r = chars_of(a);
    push_all(&mut r, b);
    push_all(&mut r, &chars_of(c));
    r
}

fn replace_element_exec(r: &Vec<char>, pat: &Vec<char>, enc: &Vec<char>) -> (out: Option<Vec<char>>)
    requires
        pat@.len() > 0,
    ensures
        opt_seq(out) == replace_element(r@, pat@, 0, enc@),
{
    let gt = chars_of(">");
    let sp = chars_of(" ");
    proof {
        reveal_strlit(">");
        reveal_strlit(" ");
    }
    let elem = trim_start_all_chars(&trim_end_all_exec(&trim_end_all_exec(pat, &sp), &gt), &chars_of("<"));
    let close = close_tag_exec(&elem);
    let spaced = has_suffix(pat, &sp);
    let mut from: usize = 0;
    loop
        invariant
            from <= r@.len(),
            gt@ == ">"@,
            gt@.len() == 1,
            spaced == ends_with(pat@, " "@),
            close@ == close_tag(pattern_element(pat@)),
            pat@.len() > 0,
            replace_element(r@, pat@, from as int, enc@) == replace_element(r@, pat@, 0, enc@),
        decreases r@.len() - from,
    {
        let abs = match find_at(r, pat, from) {
            Some(a) => a,
            None => {
                return None;
            },
        };
        let oe: usize = if spaced {
            match find_at(r, &gt, abs) {
                Some(p) => p + 1,
                None => {
                    return None;
                },
            }
        } else {
            abs + pat.len()
        };
        if abs > 0 && r[abs - 1] == '/' {
            from = oe;
            continue;
        }
        match find_at(r, &close, oe) {
            Some(c) => {
                let mut out = slice_chars(r, 0, oe);
                push_all(&mut out, enc);
                let tail = slice_chars(r, c, r.len());
                push_all(&mut out, &tail);
                return Some(out);
            },
            None => {
                return None;
            },
        }
    }
}

fn replace_field_exec(r: &Vec<char>, name: &str, enc: &Vec<char>) -> (out: Option<Vec<char>>)
    ensures
        opt_seq(out) == replace_first_pattern(r@, field_patterns(name@), 0, enc@),
{
    let n = chars_of(name);
    let mut pats: Vec<Vec<char>> = Vec::new();
    pats.push(concat3("<", &n, ">"));
    pats.push(concat3("<", &n, " "));
    pats.push(concat3("<xfa:", &n, ">"));
    pats.push(concat3("<xfa:", &n, " "));
    proof {
        reveal_strlit("<");
        reveal_strlit("<xfa:");
        assert(pats@.map_values(|v: Vec<char>| v@) =~= field_patterns(name@));
    }
    let mut k: usize = 0;
    while k < 4
        invariant
            k <= 4,
            pats@.len() == 4,
            pats@.map_values(|v: Vec<char>| v@) == field_patterns(name@),
            forall|j: int| 0 <= j < 4 ==> (#[trigger] pats@[j])@.len() > 0,
            replace_first_pattern(r@, field_patterns(name@), k as int, enc@)
                == replace_first_pattern(r@, field_patterns(name@), 0, enc@),
        decreases 4 - k,
    {
        proof {
            assert(pats@[k as int]@ == field_patterns(name@)[k as int]);
        }
        match replace_element_exec(r, &pats[k], enc) {
            Some(x) => {
                return Some(x);
            },
            None => {},
        }
        k = k + 1;
    }
    None
}

// ---------------------------------------------------------------------------
// Finding fields by reading the XML
// ---------------------------------------------------------------------------

/// Where a reader of XFA data stands: outside the datasets (0), inside them
/// (1) or inside their data element (2); how deep inside the data; the
/// local name of the element whose text comes next; the text read since the
/// last markup (entities resolved; an unknown entity spoils it); and the
/// fields found.
pub struct XfaScan {
    pub mode: int,
    pub depth: int,
    pub name: Option<Seq<char>>,
    pub run: Option<Seq<char>>,
    pub run_ok: bool,
    pub out: Seq<FieldV>,
}

pub open spec fn xfa_start() -> XfaScan {
    XfaScan { mode: 0, depth: 0, name: None, run: None, run_ok: true, out: Seq::empty() }
}

/// Text read inside a field of the data gives that field, unless it is
/// blank or the name keeps an `xfa:` prefix; any text clears the name.
pub open spec fn xfa_text(st: XfaScan, text: Seq<char>) -> XfaScan {
    let out = match st.name {
        Some(n) => if st.mode == 2 && st.depth > 1 && !starts_with(n, "xfa:"@) && trim(text).len() > 0 {
            st.out.push((n, "XFA"@, Some(text)))
        } else {
            st.out
        },
        None => st.out,
    };
    XfaScan { out, name: None, ..st }
}

/// `s` without leading XML whitespace.
pub open spec fn xml_trim_start(s: Seq<char>) -> Seq<char>
    decreases s.len(),
{
    if s.len() > 0 && xml_ws(s[0]) {
        xml_trim_start(s.drop_first())
    } else {
        s
    }
}

/// `s` without trailing XML whitespace.
pub open spec fn xml_trim_end(s: Seq<char>) -> Seq<char>
    decreases s.len(),
{
    if s.len() > 0 && xml_ws(s.last()) {
        xml_trim_end(s.drop_last())
    } else {
        s
    }
}

/// `s` without XML whitespace at either end.
pub open spec fn xml_trim(s: Seq<char>) -> Seq<char> {
    xml_trim_end(xml_trim_start(s))
}

/// The text read since the last markup, handed on trimmed of XML
/// whitespace: whitespace alone counts as no text at all, and text with an
/// unknown entity counts as empty.
pub open spec fn xfa_flush(st: XfaScan) -> XfaScan {
    match st.run {
        Some(t) => {
            let st0 = XfaScan { run: None, run_ok: true, ..st };
            if st.run_ok && xml_trim(t).len() == 0 {
                st0
            } else {
                xfa_text(st0, if st.run_ok { xml_trim(t) } else { Seq::empty() })
            }
        },
        None => st,
    }
}

pub open spec fn xfa_open(st: XfaScan, local: Seq<char>) -> XfaScan {
    let st1 = if local == "datasets"@ { XfaScan { mode: 1, ..st } } else { st };
    if st1.mode == 1 && local == "data"@ {
        XfaScan { mode: 2, depth: 1, ..st1 }
    } else if st1.mode == 2 {
        XfaScan { depth: st1.depth + 1, name: Some(local), ..st1 }
    } else {
        st1
    }
}

pub open spec fn xfa_close(st: XfaScan, local: Seq<char>) -> XfaScan {
    let st1 = if st.mode == 2 {
        let d = if st.depth > 0 { st.depth - 1 } else { 0 };
        if d <= 1 {
            if local == "data"@ { XfaScan { mode: 1, depth: d, ..st } } else { XfaScan { depth: 1, ..st } }
        } else {
            XfaScan { depth: d, ..st }
        }
    } else if st.mode == 1 && local == "datasets"@ {
        XfaScan { mode: 0, ..st }
    } else {
        st
    };
    XfaScan { name: None, ..st1 }
}

/// One event read: text and entity references gather into the current text;
/// other markup first hands that text on, then start and end tags move the
/// reader.
pub open spec fn xfa_step(st: XfaScan, e: Ev) -> XfaScan {
    if e.0 == XmlKind::Text || e.0 == XmlKind::GeneralRef {
        let piece = if e.0 == XmlKind::Text {
            e.1
        } else {
            match entity_text(e.1) {
                Some(t) => t,
                None => Seq::empty(),
            }
        };
        let ok = e.0 == XmlKind::Text || entity_text(e.1) is Some;
        match st.run {
            Some(t) => XfaScan { run: Some(t + piece), run_ok: st.run_ok && ok, ..st },
            None => XfaScan { run: Some(piece), run_ok: ok, ..st },
        }
    } else {
        let s = xfa_flush(st);
        if e.0 == XmlKind::Start {
            xfa_open(s, local_part(tag_name(e.1)))
        } else if e.0 == XmlKind::End {
            xfa_close(s, local_part(e.1))
        } else {
            s
        }
    }
}

pub open spec fn xfa_run(es: Seq<Ev>, n: int) -> XfaScan
    decreases n,
{
    if n <= 0 {
        xfa_start()
    } else {
        xfa_step(xfa_run(es, n - 1), es[n - 1])
    }
}

/// The fields found by reading an XDP document as XML, and whether it read
/// to its end without an error (the fields read before an error are kept).
/// The reader keeps whitespace; the text between two pieces of markup is
/// trimmed as a whole.
pub open spec fn xml_fields(xml: Seq<char>) -> (Seq<FieldV>, bool) {
    let scan = xml_scan(vstd::utf8::encode_utf8(xml), false);
    (xfa_flush(xfa_run(scan.0, scan.0.len() as int)).out, scan.1 is None)
}

/// The fields of an XDP document: those read as XML, followed, where the
/// XML does not read to its end, by those found by scanning the text.
pub open spec fn xfa_fields(xml: Seq<char>) -> Seq<FieldV> {
    if xml_fields(xml).1 {
        xml_fields(xml).0
    } else {
        xml_fields(xml).0 + text_fields(xml, 0)
    }
}

/// The reader's state in executable form.
struct XfaReader {
    mode: u8,
    depth: u64,
    name: Option<Vec<char>>,
    run: Option<Vec<char>>,
    run_ok: bool,
    out: Vec<FieldInfo>,
}

pub open spec fn opt_seq(o: Option<Vec<char>>) -> Option<Seq<char>> {
    match o {
        Some(v) => Some(v@),
        None => None,
    }
}

impl View for XfaReader {
    type V = XfaScan;

    closed spec fn view(&self) -> XfaScan {
        XfaScan {
            mode: self.mode as int,
            depth: self.depth as int,
            name: opt_seq(self.name),
            run: opt_seq(self.run),
            run_ok: self.run_ok,
            out: fields_view(self.out@),
        }
    }
}

impl XfaReader {
    fn text(&mut self, text: Vec<char>)
        ensures
            final(self)@ == xfa_text(old(self)@, text@),
    {
        let name = self.name.take();
        match name {
            Some(n) => {
                if self.mode == 2 && self.depth > 1 && !has_prefix(&n, &chars_of("xfa:"))
                    && trim_chars(&text).len() > 0 {
                    let f = FieldInfo { name: string_of(&n), field_type: "XFA".to_owned(), current_value: Some(string_of(&text)) };
                    self.out.push(f);
                    proof {
                        assert(fields_view(self.out@) =~= fields_view(old(self).out@).push(f@));
                    }
                }
            },
            None => {},
        }
    }

    fn flush(&mut self)
        ensures
            final(self)@ == xfa_flush(old(self)@),
    {
        let run = self.run.take();
        match run {
            Some(t) => {
                let ok = self.run_ok;
                self.run_ok = true;
                let tt = xml_trim_exec(&t);
                if ok {
                    if tt.len() > 0 {
                        self.text(tt);
                    }
                } else {
                    self.text(Vec::new());
                }
            },
            None => {},
        }
    }

    fn open(&mut self, local: &Vec<char>)
        requires
            old(self).depth < u64::MAX,
        ensures
            final(self)@ == xfa_open(old(self)@, local@),
    {
        if seq_eq(local, &chars_of("datasets")) {
            self.mode = 1;
        }
        if self.mode == 1 && seq_eq(local, &chars_of("data")) {
            self.mode = 2;
            self.depth = 1;
        } else if self.mode == 2 {
            self.depth = self.depth + 1;
            self.name = Some(slice_chars(local, 0, local.len()));
            proof {
                assert(local@.subrange(0, local@.len() as int) =~= local@);
            }
        }
    }

    fn close(&mut self, local: &Vec<char>)
        ensures
            final(self)@ == xfa_close(old(self)@, local@),
    {
        if self.mode == 2 {
            let d: u64 = if self.depth > 0 { self.depth - 1 } else { 0 };
            if d <= 1 {
                if seq_eq(local, &chars_of("data")) {
                    self.mode = 1;
                    self.depth = d;
                } else {
                    self.depth = 1;
                }
            } else {
                self.depth = d;
            }
        } else if self.mode == 1 && seq_eq(local, &chars_of("datasets")) {
            self.mode = 0;
        }
        self.name = None;
    }

    fn step(&mut self, e: &XmlEvent)
        requires
            old(self).depth < u64::MAX,
        ensures
            final(self)@ == xfa_step(old(self)@, e@),
    {
        if e.kind == XmlKind::Text || e.kind == XmlKind::GeneralRef {
            let (piece, ok): (Vec<char>, bool) = if e.kind == XmlKind::Text {
                (chars_of(e.content.as_str()), true)
            } else {
                match entity_chars(e.content.as_str()) {
                    Some(t) => (chars_of(t), true),
                    None => (Vec::new(), false),
                }
            };
            let run = self.run.take();
            match run {
                Some(t) => {
                    let mut t = t;
                    let ghost t0 = t@;
                    push_all(&mut t, &piece);
                    self.run = Some(t);
                    self.run_ok = self.run_ok && ok;
                },
                None => {
                    self.run = Some(piece);
                    self.run_ok = ok;
                },
            }
        } else {
            self.flush();
            if e.kind == XmlKind::Start {
                let local = local_part_exec(&tag_name_chars(e.content.as_str()));
                self.open(&local);
            } else if e.kind == XmlKind::End {
                let local = local_part_exec(&chars_of(e.content.as_str()));
                self.close(&local);
            }
        }
    }
}

fn xml_trim_exec(s: &Vec<char>) -> (r: Vec<char>)
    ensures
        r@ == xml_trim(s@),
{
    let n = s.len();
    let mut i: usize = 0;
    proof {
        assert(s@.subrange(0, n as int) =~= s@);
    }
    while i < n && (s[i] == ' ' || s[i] == '\t' || s[i] == '\r' || s[i] == '\n')
        invariant
            i <= n,
            n == s@.len(),
            xml_trim_start(s@.subrange(i as int, n as int)) == xml_trim_start(s@),
        decreases n - i,
    {
        proof {
            assert(s@.subrange(i as int, n as int).drop_first() =~= s@.subrange(i + 1, n as int));
        }
        i = i + 1;
    }
    proof {
        let rest = s@.subrange(i as int, n as int);
        if i < n {
            assert(rest[0] == s@[i as int]);
        }
        assert(xml_trim_start(rest) == rest);
    }
    let mut j: usize = n;
    proof {
        assert(s@.subrange(i as int, j as int) == xml_trim_start(s@));
    }
    while j > i && (s[j - 1] == ' ' || s[j - 1] == '\t' || s[j - 1] == '\r' || s[j - 1] == '\n')
        invariant
            i <= j <= n,
            n == s@.len(),
            xml_trim_end(s@.subrange(i as int, j as int)) == xml_trim(s@),
        decreases j,
    {
        proof {
            let cur = s@.subrange(i as int, j as int);
            assert(cur.last() == s@[j - 1]);
            assert(cur.drop_last() =~= s@.subrange(i as int, j - 1));
        }
        j = j - 1;
    }
    proof {
        let cur = s@.subrange(i as int, j as int);
        if j > i {
            assert(cur.last() == s@[j - 1]);
        }
        assert(xml_trim_end(cur) == cur);
    }
    slice_chars(s, i, j)
}

fn push_all(t: &mut Vec<char>, p: &Vec<char>)
    ensures
        final(t)@ == old(t)@ + p@,
{
    let mut i: usize = 0;
    while i < p.len()
        invariant
            i <= p@.len(),
            t@ == old(t)@ + p@.subrange(0, i as int),
        decreases p@.len() - i,
    {
        t.push(p[i]);
        i = i + 1;
        proof {
            assert(t@ =~= old(t)@ + p@.subrange(0, i as int));
        }
    }
    proof {
        assert(p@.subrange(0, p@.len() as int) =~= p@);
    }
}

// ---------------------------------------------------------------------------
// Filling values by rewriting the XML
// ---------------------------------------------------------------------------

/// Where a rewriter of XFA data stands: as the reader (outside, in the
/// datasets, in their data, and how deep); the field whose element was
/// opened last; whether that element's text was replaced; whether the text
/// being read is the rest of a replaced run; the text written; the number
/// of values written.
pub struct XfaFill {
    pub mode: int,
    pub depth: int,
    pub current: Option<Seq<char>>,
    pub replaced: bool,
    pub dropping: bool,
    pub out: Seq<char>,
    pub count: nat,
}

pub open spec fn fill_start() -> XfaFill {
    XfaFill { mode: 0, depth: 0, current: None, replaced: false, dropping: false, out: Seq::empty(), count: 0 }
}

/// The value due in place of the text read now, if any: that of the
/// current field, once per element.
pub open spec fn due_value(fields: Seq<(String, String)>, st: XfaFill) -> Option<Seq<char>> {
    match st.current {
        Some(f) => if !st.replaced { value_for(fields, f) } else { None },
        None => None,
    }
}

pub open spec fn fill_open(fields: Seq<(String, String)>, st: XfaFill, e: Ev) -> XfaFill {
    let local = local_part(tag_name(e.1));
    let st1 = if local == "datasets"@ { XfaFill { mode: 1, ..st } } else { st };
    let st2 = if st1.mode == 1 && local == "data"@ {
        XfaFill { mode: 2, depth: 1, ..st1 }
    } else if st1.mode == 2 {
        XfaFill {
            depth: st1.depth + 1,
            current: if value_for(fields, local) is Some { Some(local) } else { st1.current },
            ..st1
        }
    } else {
        st1
    };
    XfaFill { out: st2.out + event_text(e), replaced: false, ..st2 }
}

pub open spec fn fill_close(st: XfaFill, e: Ev) -> XfaFill {
    let local = local_part(e.1);
    let st1 = if st.mode == 2 {
        let d = if st.depth > 0 { st.depth - 1 } else { 0 };
        if d == 0 { XfaFill { mode: 1, depth: d, ..st } } else { XfaFill { depth: d, ..st } }
    } else if st.mode == 1 && local == "datasets"@ {
        XfaFill { mode: 0, ..st }
    } else {
        st
    };
    XfaFill { current: None, out: st1.out + event_text(e), ..st1 }
}

/// One event rewritten: the first text (with any entity references
/// joined to it) or CDATA section inside a field's element gives way to the
/// field's value, escaped; everything else is written as read.
pub open spec fn fill_step(fields: Seq<(String, String)>, st: XfaFill, e: Ev) -> XfaFill {
    if e.0 == XmlKind::Text || e.0 == XmlKind::GeneralRef {
        if st.dropping {
            st
        } else {
            match due_value(fields, st) {
                Some(v) => XfaFill {
                    out: st.out + escape(encode_value(v)),
                    count: st.count + 1,
                    replaced: true,
                    dropping: true,
                    ..st
                },
                None => XfaFill { out: st.out + event_text(e), ..st },
            }
        }
    } else {
        let st0 = XfaFill { dropping: false, ..st };
        if e.0 == XmlKind::Start {
            fill_open(fields, st0, e)
        } else if e.0 == XmlKind::End {
            fill_close(st0, e)
        } else if e.0 == XmlKind::CData {
            match due_value(fields, st0) {
                Some(v) => XfaFill { out: st0.out + escape(v), count: st0.count + 1, replaced: true, ..st0 },
                None => XfaFill { out: st0.out + event_text(e), ..st0 },
            }
        } else {
            XfaFill { out: st0.out + event_text(e), ..st0 }
        }
    }
}

pub open spec fn fill_run(fields: Seq<(String, String)>, es: Seq<Ev>, n: int) -> XfaFill
    decreases n,
{
    if n <= 0 {
        fill_start()
    } else {
        fill_step(fields, fill_run(fields, es, n - 1), es[n - 1])
    }
}

/// The XML rewritten with the given values, or the reader's error; and the
/// number of values written before the end or the error.
pub open spec fn xml_replaced(xml: Seq<char>, fields: Seq<(String, String)>) -> (Result<Seq<char>, Seq<char>>, nat) {
    let scan = trimmed_xml_scan(vstd::utf8::encode_utf8(xml));
    let st = fill_run(fields, scan.0, scan.0.len() as int);
    (
        match scan.1 {
            Some(m) => Err("XML parse error: "@ + m),
            None => Ok(st.out),
        },
        st.count,
    )
}

/// The XDP text with the values filled in, and how many were: by rewriting
/// the XML where that fills any, else (also where the XML fails, counting
/// what it filled before failing, the sum capped at the largest `usize`) by
/// editing the text; an error where no field is filled.
pub open spec fn xfa_filled(xml: Seq<char>, fields: Seq<(String, String)>) -> Result<(Seq<char>, nat), Seq<char>> {
    let x = xml_replaced(xml, fields);
    let t = text_replaced(xml, fields);
    let done: (Seq<char>, nat) = match x.0 {
        Ok(s) => if x.1 > 0 { (s, x.1) } else { t },
        Err(_) => (t.0, if x.1 + t.1 > usize::MAX { usize::MAX as nat } else { x.1 + t.1 }),
    };
    if done.1 == 0 {
        Err("No matching XFA fields found"@)
    } else {
        Ok(done)
    }
}

struct XfaWriter {
    mode: u8,
    depth: u64,
    current: Option<Vec<char>>,
    replaced: bool,
    dropping: bool,
    out: String,
    count: u64,
}

impl View for XfaWriter {
    type V = XfaFill;

    closed spec fn view(&self) -> XfaFill {
        XfaFill {
            mode: self.mode as int,
            depth: self.depth as int,
            current: opt_seq(self.current),
            replaced: self.replaced,
            dropping: self.dropping,
            out: self.out@,
            count: self.count as nat,
        }
    }
}

fn value_for_exec<'a>(fields: &'a Vec<(String, String)>, key: &Vec<char>) -> (r: Option<&'a String>)
    ensures
        match value_for(fields@, key@) {
            Some(v) => r matches Some(s) && s@ == v,
            None => r is None,
        },
{
    let mut i: usize = 0;
    proof {
        assert(fields@.skip(0) =~= fields@);
    }
    while i < fields.len()
        invariant
            i <= fields@.len(),
            value_for(fields@.skip(i as int), key@) == value_for(fields@, key@),
        decreases fields@.len() - i,
    {
        proof {
            assert(fields@.skip(i as int).drop_first() =~= fields@.skip(i + 1));
        }
        if seq_eq(&chars_of(fields[i].0.as_str()), key) {
            return Some(&fields[i].1);
        }
        i = i + 1;
    }
    None
}

impl XfaWriter {
    fn due<'a>(&self, fields: &'a Vec<(String, String)>) -> (r: Option<&'a String>)
        ensures
            match due_value(fields@, self@) {
                Some(v) => r matches Some(s) && s@ == v,
                None => r is None,
            },
    {
        match &self.current {
            Some(f) => if !self.replaced { value_for_exec(fields, f) } else { None },
            None => None,
        }
    }

    fn step(&mut self, fields: &Vec<(String, String)>, e: &XmlEvent)
        requires
            old(self).depth < u64::MAX,
            old(self).count < u64::MAX,
        ensures
            final(self)@ == fill_step(fields@, old(self)@, e@),
    {
        if e.kind == XmlKind::Text || e.kind == XmlKind::GeneralRef {
            if self.dropping {
                return;
            }
            match self.due(fields) {
                Some(v) => {
                    let enc = string_of(&encode_exec(v.as_str()));
                    push_escaped(&mut self.out, enc.as_str(), false);
                    self.count = self.count + 1;
                    self.replaced = true;
                    self.dropping = true;
                },
                None => {
                    push_event(&mut self.out, e);
                },
            }
        } else {
            self.dropping = false;
            if e.kind == XmlKind::Start {
                let local = local_part_exec(&tag_name_chars(e.content.as_str()));
                if seq_eq(&local, &chars_of("datasets")) {
                    self.mode = 1;
                }
                if self.mode == 1 && seq_eq(&local, &chars_of("data")) {
                    self.mode = 2;
                    self.depth = 1;
                } else if self.mode == 2 {
                    self.depth = self.depth + 1;
                    if value_for_exec(fields, &local).is_some() {
                        self.current = Some(local);
                    }
                }
                push_event(&mut self.out, e);
                self.replaced = false;
            } else if e.kind == XmlKind::End {
                let local = local_part_exec(&chars_of(e.content.as_str()));
                if self.mode == 2 {
                    let d: u64 = if self.depth > 0 { self.depth - 1 } else { 0 };
                    self.depth = d;
                    if d == 0 {
                        self.mode = 1;
                    }
                } else if self.mode == 1 && seq_eq(&local, &chars_of("datasets")) {
                    self.mode = 0;
                }
                self.current = None;
                push_event(&mut self.out, e);
            } else if e.kind == XmlKind::CData {
                match self.due(fields) {
                    Some(v) => {
                        push_escaped(&mut self.out, v.as_str(), false);
                        self.count = self.count + 1;
                        self.replaced = true;
                    },
                    None => {
                        push_event(&mut self.out, e);
                    },
                }
            } else {
                push_event(&mut self.out, e);
            }
        }
    }
}

impl PdfFormFiller {
    /// The XDP text rewritten event by event with the given values in place
    /// of the data fields' text (or the reader's error), and how many
    /// values were written.
    pub fn replace_xfa_values_xml(&self, xml: &str, fields: &Vec<(String, String)>) -> (r: (Result<String, String>, usize))
        ensures
            r.1 as nat == xml_replaced(xml@, fields@).1,
            match xml_replaced(xml@, fields@).0 {
                Ok(s) => r.0 matches Ok(t) && t@ == s,
                Err(m) => r.0 matches Err(t) && t@ == m,
            },
    {
        let data = str_bytes(xml);
        let (events, err) = scan_xml(data.as_slice());
        let ghost es = evs(events@);
        let mut w = XfaWriter { mode: 0, depth: 0, current: None, replaced: false, dropping: false, out: String::new(), count: 0 };
        let mut i: usize = 0;
        while i < events.len()
            invariant
                i <= events@.len(),
                es == evs(events@),
                w@ == fill_run(fields@, es, i as int),
                w.depth <= i,
                w.count <= i,
            decreases events@.len() - i,
        {
            w.step(fields, &events[i]);
            i = i + 1;
        }
        let count = w.count as usize;
        match err {
            Some(m) => {
                let mut msg = String::new();
                push_str(&mut msg, "XML parse error: ");
                push_str(&mut msg, m.as_str());
                (Err(msg), count)
            },
            None => (Ok(w.out), count),
        }
    }

    /// The XDP text with the given values filled in: by rewriting the XML,
    /// falling back on editing the text where that fills nothing or fails.
    pub fn fill_xfa_xml(&self, xml: &str, fields: &Vec<(String, String)>) -> (r: Result<(String, usize), String>)
        requires
            fields@.len() < usize::MAX,
        ensures
            match xfa_filled(xml@, fields@) {
                Ok(d) => r matches Ok(t) && t.0@ == d.0 && t.1 as nat == d.1,
                Err(m) => r matches Err(t) && t@ == m,
            },
    {
        let (x, xc) = self.replace_xfa_values_xml(xml, fields);
        let (text, count): (String, usize) = match x {
            Ok(s) => if xc > 0 {
                (s, xc)
            } else {
                self.replace_xfa_values(xml, fields)
            },
            Err(_) => {
                let (t, tc) = self.replace_xfa_values(xml, fields);
                (t, xc.saturating_add(tc))
            },
        };
        if count == 0 {
            Err("No matching XFA fields found".to_owned())
        } else {
            Ok((text, count))
        }
    }

    /// The text with the given values filled in by editing it directly:
    /// for each field in turn, the first of its opening-tag patterns that
    /// has an element with a closing tag gets the escaped value as that
    /// element's content.  Also gives how many fields were filled.
    pub fn replace_xfa_values(&self, xml: &str, fields: &Vec<(String, String)>) -> (r: (String, usize))
        requires
            fields@.len() < usize::MAX,
        ensures
            (r.0@, r.1 as nat) == text_replaced(xml@, fields@),
    {
        let mut cur = chars_of(xml);
        let mut count: usize = 0;
        let mut i: usize = 0;
        while i < fields.len()
            invariant
                i <= fields@.len(),
                fields@.len() < usize::MAX,
                count <= i,
                (cur@, count as nat) == text_replaced(xml@, fields@.take(i as int)),
            decreases fields@.len() - i,
        {
            proof {
                assert(fields@.take(i + 1).drop_last() =~= fields@.take(i as int));
                assert(fields@.take(i + 1).last() == fields@[i as int]);
            }
            let enc = encode_exec(fields[i].1.as_str());
            match replace_field_exec(&cur, fields[i].0.as_str(), &enc) {
                Some(x) => {
                    cur = x;
                    count = count + 1;
                },
                None => {},
            }
            i = i + 1;
        }
        proof {
            assert(fields@.take(fields@.len() as int) =~= fields@);
        }
        (string_of(&cur), count)
    }

    /// The fields of an XDP document read as XML, and whether the XML read
    /// to its end (the fields read before an error are returned all the
    /// same).
    pub fn collect_xfa_fields_xml(&self, xml: &str) -> (r: (Vec<FieldInfo>, bool))
        ensures
            fields_view(r.0@) == xml_fields(xml@).0,
            r.1 == xml_fields(xml@).1,
    {
        let data = str_bytes(xml);
        let (events, err) = scan_xml_events(data.as_slice(), false);
        let ghost es = evs(events@);
        let mut rd = XfaReader { mode: 0, depth: 0, name: None, run: None, run_ok: true, out: Vec::new() };
        proof {
            assert(fields_view(rd.out@) =~= Seq::<FieldV>::empty());
        }
        let mut i: usize = 0;
        while i < events.len()
            invariant
                i <= events@.len(),
                es == evs(events@),
                rd@ == xfa_run(es, i as int),
                rd.depth <= i,
            decreases events@.len() - i,
        {
            rd.step(&events[i]);
            i = i + 1;
        }
        rd.flush();
        (rd.out, err.is_none())
    }

    /// The fields of an XDP document: read as XML, and where that fails
    /// part way, also found by scanning the text.
    pub fn collect_xfa_fields(&self, xml: &str) -> (r: Vec<FieldInfo>)
        ensures
            fields_view(r@) == xfa_fields(xml@),
    {
        let (mut out, ok) = self.collect_xfa_fields_xml(xml);
        if !ok {
            let more = self.collect_xfa_fields_text(xml);
            let ghost a = fields_view(out@);
            let mut more = more;
            out.append(&mut more);
            proof {
                assert(fields_view(out@) =~= a + text_fields(xml@, 0));
            }
        }
        out
    }

    /// The fields of an XDP document found by scanning its text: the
    /// fallback where it does not parse as XML.
    pub fn collect_xfa_fields_text(&self, xml: &str) -> (r: Vec<FieldInfo>)
        ensures
            fields_view(r@) == text_fields(xml@, 0),
    {
        let cs = chars_of(xml);
        let n = cs.len();
        let gt = chars_of(">");
        proof {
            reveal_strlit(">");
        }
        let mut out: Vec<FieldInfo> = Vec::new();
        let mut pos: usize = 0;
        while pos < n
            invariant_except_break
                pos <= n,
                fields_view(out@) + text_fields(cs@, pos as int) == text_fields(cs@, 0),
            invariant
                n == cs@.len(),
                cs@ == xml@,
                gt@ == ">"@,
                gt@.len() == 1,
            ensures
                fields_view(out@) == text_fields(cs@, 0),
            decreases n - pos,
        {
            let ghost before = fields_view(out@);
            if cs[pos] != '<' || (pos + 1 < n && cs[pos + 1] == '/') {
                pos = pos + 1;
                continue;
            }
            let te = name_end_exec(&cs, pos + 1);
            if te <= pos + 1 {
                pos = pos + 1;
                continue;
            }
            let t = slice_chars(&cs, pos + 1, te);
            if is_wrapper_exec(&t) {
                match find_at(&cs, &gt, pos) {
                    Some(p) => {
                        pos = p + 1;
                        continue;
                    },
                    None => {
                        proof {
                            assert(text_fields(cs@, pos as int) == Seq::<FieldV>::empty());
                            assert(fields_view(out@) =~= fields_view(out@) + Seq::<FieldV>::empty());
                        }
                        break;
                    },
                }
            }
            if contains(&t, &chars_of(":")) && !has_prefix(&t, &chars_of("xfa:")) {
                pos = pos + 1;
                continue;
            }
            let close = close_tag_exec(&t);
            match find_at(&cs, &close, pos) {
                Some(cl) => {
                    match find_at(&cs, &gt, pos) {
                        Some(tep) => {
                            if tep > 0 && cs[tep - 1] == '/' {
                                pos = tep + 1;
                                continue;
                            }
                            let clean = local_part_exec(&t);
                            if is_field_tag_exec(&clean, &t) {
                                let value = if cl > tep + 1 {
                                    let v = slice_chars(&cs, tep + 1, cl);
                                    Some(string_of(&unescape_exec(&v)))
                                } else {
                                    None
                                };
                                let f = FieldInfo { name: string_of(&clean), field_type: "XFA".to_owned(), current_value: value };
                                out.push(f);
                                proof {
                                    assert(fields_view(out@) =~= before.push(f@));
                                    assert(before.push(f@) + text_fields(cs@, cl + close@.len())
                                        =~= before + (seq![f@] + text_fields(cs@, cl + close@.len())));
                                }
                            }
                            pos = cl + close.len();
                        },
                        None => {
                            proof {
                                assert(text_fields(cs@, pos as int) == Seq::<FieldV>::empty());
                                assert(fields_view(out@) =~= fields_view(out@) + Seq::<FieldV>::empty());
                            }
                            break;
                        },
                    }
                },
                None => {
                    pos = pos + 1;
                },
            }
        }
        out
    }
}

} // verus!
