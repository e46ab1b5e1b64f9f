use vstd::prelude::*;
use vstd::utf8::{valid_utf8, decode_utf8, encode_utf8};
use crate::numeric::{is_float_literal, float_literal};
use crate::paths::{lower_ext, lower_extension};
use crate::text::{
    chars_of, contains_seq, decimal, first_at, find_at, find_last, has_prefix, has_suffix,
    last_of, matches_at, occurs_at, push_range, push_str, seq_eq, str_eq, starts_with,
    ends_with, u64_to_string, string_of, slice_chars, replace_pairs, replace_pairs_chars,
    strings_view,
};
use crate::xml::{
    XmlEvent, XmlKind, Ev, evs, trimmed_xml_scan, scan_xml, event_name, event_text,
    events_text, name_of, push_event, escape, push_escaped, lemma_events_text_take,
};

pub mod styles;

use styles::{styled_xml, apply_style_to_xml};

verus! {

/// Calls `std::str::from_utf8`.  Trusted: as the standard library
/// documents, it succeeds exactly on valid UTF-8 and then yields the
/// decoded characters.
#[verifier::external_body]
pub(crate) fn utf8_decode(data: &[u8]) -> (r: Option<String>)
    ensures
        r is Some <==> valid_utf8(data@),
        r is Some ==> r.unwrap()@ == decode_utf8(data@),
{
    std::str::from_utf8(data).ok().map(|s| s.to_owned())
}

/// The text of a part: its UTF-8 decoding, or empty when it is not UTF-8.
pub open spec fn part_text(data: Seq<u8>) -> Seq<char> {
    if valid_utf8(data) {
        decode_utf8(data)
    } else {
        Seq::empty()
    }
}

fn decode_part(data: &[u8]) -> (r: Vec<char>)
    ensures
        r@ == part_text(data@),
{
    match utf8_decode(data) {
        Some(s) => chars_of(s.as_str()),
        None => Vec::new(),
    }
}

fn encode_chars(cs: &Vec<char>) -> (r: Vec<u8>)
    ensures
        r@ == encode_utf8(cs@),
{
    let s = string_of(cs);
    vstd::slice::slice_to_vec(s.as_str().as_bytes())
}

// ---------------------------------------------------------------------------
// Which parts a patch touches
// ---------------------------------------------------------------------------

/// The parts of a document whose text a patch rewrites: the body of a Word
/// document, or each slide of a presentation.
pub open spec fn content_part(name: Seq<char>, ext: Seq<char>) -> bool {
    if ext == "docx"@ {
        name == "word/document.xml"@
    } else if ext == "pptx"@ {
        starts_with(name, "ppt/slides/slide"@) && ends_with(name, ".xml"@)
    } else {
        false
    }
}

pub fn is_content(name: &str, ext: &str) -> (b: bool)
    ensures
        b == content_part(name@, ext@),
{
    let e = chars_of(ext);
    let n = chars_of(name);
    if seq_eq(&e, &chars_of("docx")) {
        seq_eq(&n, &chars_of("word/document.xml"))
    } else if seq_eq(&e, &chars_of("pptx")) {
        has_prefix(&n, &chars_of("ppt/slides/slide")) && has_suffix(&n, &chars_of(".xml"))
    } else {
        false
    }
}

/// `s` with every trailing repetition of `p` removed (`trim_end_matches`).
pub open spec fn trim_end_all(s: Seq<char>, p: Seq<char>) -> Seq<char>
    decreases s.len(),
{
    if p.len() > 0 && ends_with(s, p) {
        trim_end_all(s.subrange(0, s.len() - p.len()), p)
    } else {
        s
    }
}

/// `s` with every leading `'0'` removed.
pub open spec fn trim_zeros(s: Seq<char>) -> Seq<char>
    decreases s.len(),
{
    if s.len() > 0 && s[0] == '0' {
        trim_zeros(s.drop_first())
    } else {
        s
    }
}

/// The part name of worksheet `si` (counting from zero): `sheet<N>.xml`
/// under `xl/worksheets/` where `N`, without leading zeros and with any
/// repeated `.xml` removed, is `si + 1`.
pub open spec fn sheet_part(name: Seq<char>, si: nat) -> bool {
    &&& starts_with(name, "xl/worksheets/sheet"@)
    &&& ends_with(name, ".xml"@)
    &&& trim_zeros(trim_end_all(name.subrange(19, name.len() as int), ".xml"@)) == decimal(si + 1)
}

pub fn trim_end_all_exec(s: &Vec<char>, p: &Vec<char>) -> (r: Vec<char>)
    ensures
        r@ == trim_end_all(s@, p@),
{
    let mut end = s.len();
    proof {
        assert(s@.subrange(0, s@.len() as int) =~= s@);
    }
    while p.len() > 0 && end >= p.len() && matches_at(s, p, end - p.len())
        invariant
            end <= s@.len(),
            trim_end_all(s@.subrange(0, end as int), p@) == trim_end_all(s@, p@),
        decreases end,
    {
        proof {
            let cur = s@.subrange(0, end as int);
            assert(cur.subrange(end - p@.len(), end as int) =~= s@.subrange(end - p@.len(), end as int));
            assert(ends_with(cur, p@));
            assert(cur.subrange(0, cur.len() - p@.len()) =~= s@.subrange(0, end - p@.len()));
        }
        end = end - p.len();
    }
    proof {
        let cur = s@.subrange(0, end as int);
        if p@.len() > 0 && ends_with(cur, p@) {
            assert(cur.subrange(end - p@.len(), end as int) =~= s@.subrange(end - p@.len(), end as int));
        }
        assert(s@.subrange(0, s@.len() as int) =~= s@);
    }
    slice_chars(s, 0, end)
}

fn trim_zeros_exec(s: &Vec<char>) -> (r: Vec<char>)
    ensures
        r@ == trim_zeros(s@),
{
    let mut i: usize = 0;
    proof {
        assert(s@.subrange(0, s@.len() as int) =~= s@);
    }
    while i < s.len() && s[i] == '0'
        invariant
            i <= s@.len(),
            trim_zeros(s@.subrange(i as int, s@.len() as int)) == trim_zeros(s@),
        decreases s@.len() - i,
    {
        proof {
            assert(s@.subrange(i as int, s@.len() as int).drop_first() =~= s@.subrange(i + 1, s@.len() as int));
        }
        i = i + 1;
    }
    proof {
        assert(s@.subrange(0, s@.len() as int) =~= s@);
    }
    slice_chars(s, i, s.len())
}

pub fn is_sheet(name: &str, si: usize) -> (b: bool)
    requires
        si < usize::MAX,
    ensures
        b == sheet_part(name@, si as nat),
{
    let n = chars_of(name);
    let pref = chars_of("xl/worksheets/sheet");
    let suf = chars_of(".xml");
    proof {
        reveal_strlit("xl/worksheets/sheet");
    }
    if !(has_prefix(&n, &pref) && has_suffix(&n, &suf)) {
        return false;
    }
    let rest = slice_chars(&n, 19, n.len());
    let trimmed = trim_end_all_exec(&rest, &suf);
    let digits = trim_zeros_exec(&trimmed);
    let want = u64_to_string((si + 1) as u64);
    let wv = chars_of(want.as_str());
    seq_eq(&digits, &wv)
}

// ---------------------------------------------------------------------------
// Setting one cell of a worksheet
// ---------------------------------------------------------------------------

/// A value written as a plain `<v>` value rather than as inline text:
/// anything `f64` parsing accepts, and `true` / `false`.
pub open spec fn plain_value(val: Seq<char>) -> bool {
    float_literal(val) || val == "true"@ || val == "false"@
}

pub open spec fn cell_markup(cr: Seq<char>, val: Seq<char>) -> Seq<char> {
    if plain_value(val) {
        "<c r=\""@ + cr + "\"><v>"@ + val + "</v></c>"@
    } else {
        "<c r=\""@ + cr + "\" t=\"inlineStr\"><is><t>"@ + val + "</t></is></c>"@
    }
}

pub open spec fn cell_content(val: Seq<char>) -> Seq<char> {
    if plain_value(val) {
        "<v>"@ + val + "</v>"@
    } else {
        "<is><t>"@ + val + "</t></is>"@
    }
}

pub open spec fn cell_attr(cr: Seq<char>) -> Seq<char> {
    "r=\""@ + cr + "\""@
}

/// Start of the tag that holds the attribute found at `cs`: the last `<`
/// before it, or 0.
pub open spec fn tag_start(s: Seq<char>, cs: int) -> int {
    match last_of(s.subrange(0, cs), "<"@) {
        Some(i) => i,
        None => 0,
    }
}

/// The new sheet text after setting cell `cr` to `val`, or `None` where the
/// part is left as it was.  A missing cell is added before the last
/// `</row>` (the character after that `</row>` is dropped with it); a cell
/// whose tag is followed by a `/>` somewhere is replaced up to the first
/// `/>` after the tag; otherwise the content up to the next `</c>` is
/// replaced.
pub open spec fn set_cell_text(s: Seq<char>, cr: Seq<char>, val: Seq<char>) -> Option<Seq<char>> {
    let attr = cell_attr(cr);
    if !contains_seq(s, attr) {
        match last_of(s, "</row>"@) {
            Some(pos) => Some(s.subrange(0, pos) + cell_markup(cr, val) + "</row>"@ + s.subrange(pos + 7, s.len() as int)),
            None => None,
        }
    } else {
        let cs = first_at(s, attr, 0).unwrap();
        let ts = tag_start(s, cs);
        if occurs_at(s, "<c"@, ts) && first_at(s, "/>"@, cs) is Some {
            let e = first_at(s, "/>"@, ts).unwrap();
            Some(s.subrange(0, ts) + cell_markup(cr, val) + s.subrange(e + 2, s.len() as int))
        } else if first_at(s, "</c>"@, cs) is Some {
            let end = first_at(s, "</c>"@, cs).unwrap() + 4;
            let te = match first_at(s, ">"@, ts) {
                Some(g) => g + 1,
                None => ts + 1,
            };
            Some(s.subrange(0, te) + cell_content(val) + "</c>"@ + s.subrange(end, s.len() as int))
        } else {
            None
        }
    }
}

/// The inputs on which setting a cell does not fail: when a new cell goes
/// before the last `</row>`, one single-byte character must follow it.
pub open spec fn set_cell_ok(s: Seq<char>, cr: Seq<char>) -> bool {
    !contains_seq(s, cell_attr(cr)) ==> match last_of(s, "</row>"@) {
        Some(pos) => pos + 6 < s.len() && (s[pos + 6] as u32) < 0x80,
        None => true,
    }
}

fn build_cell_markup(cr: &str, val: &str, plain: bool) -> (r: String)
    ensures
        plain == plain_value(val@) ==> r@ == cell_markup(cr@, val@),
{
    let mut r = String::new();
    if plain {
        push_str(&mut r, "<c r=\"");
        push_str(&mut r, cr);
        push_str(&mut r, "\"><v>");
        push_str(&mut r, val);
        push_str(&mut r, "</v></c>");
        proof {
            assert(r@ =~= "<c r=\""@ + cr@ + "\"><v>"@ + val@ + "</v></c>"@);
        }
    } else {
        push_str(&mut r, "<c r=\"");
        push_str(&mut r, cr);
        push_str(&mut r, "\" t=\"inlineStr\"><is><t>");
        push_str(&mut r, val);
        push_str(&mut r, "</t></is></c>");
        proof {
            assert(r@ =~= "<c r=\""@ + cr@ + "\" t=\"inlineStr\"><is><t>"@ + val@ + "</t></is></c>"@);
        }
    }
    r
}

fn build_cell_content(val: &str, plain: bool) -> (r: String)
    ensures
        plain == plain_value(val@) ==> r@ == cell_content(val@),
{
    let mut r = String::new();
    if plain {
        push_str(&mut r, "<v>");
        push_str(&mut r, val);
        push_str(&mut r, "</v>");
        proof {
            assert(r@ =~= "<v>"@ + val@ + "</v>"@);
        }
    } else {
        push_str(&mut r, "<is><t>");
        push_str(&mut r, val);
        push_str(&mut r, "</t></is>");
        proof {
            assert(r@ =~= "<is><t>"@ + val@ + "</t></is>"@);
        }
    }
    r
}

/// Sets cell `cr` of a worksheet part to `val`; the part comes back as it
/// was where `set_cell_text` leaves it.
pub fn set_cell_in_sheet(data: &[u8], cr: &str, val: &str) -> (r: Vec<u8>)
    requires
        set_cell_ok(part_text(data@), cr@),
    ensures
        r@ == match set_cell_text(part_text(data@), cr@, val@) {
            Some(t) => encode_utf8(t),
            None => data@,
        },
{
    let s = decode_part(data);
    let ghost sv = s@;
    let mut attr = String::new();
    push_str(&mut attr, "r=\"");
    push_str(&mut attr, cr);
    push_str(&mut attr, "\"");
    proof {
        assert(attr@ =~= cell_attr(cr@));
    }
    let av = chars_of(attr.as_str());
    let plain = is_float_literal(val) || str_eq(val, "true") || str_eq(val, "false");
    let row_end = chars_of("</row>");
    let self_close = chars_of("/>");
    let close_c = chars_of("</c>");
    let lt = chars_of("<");
    let gt = chars_of(">");
    let open_c = chars_of("<c");
    proof {
        reveal_strlit("</row>");
        reveal_strlit("/>");
        reveal_strlit("</c>");
        reveal_strlit("<");
        reveal_strlit(">");
    }
    match find_at(&s, &av, 0) {
        None => {
            proof {
                if contains_seq(sv, av@) {
                    let i = choose|i: int| occurs_at(sv, av@, i);
                    lemma_some_first(sv, av@, i);
                }
            }
            match find_last(&s, &row_end) {
                Some(pos) => {
                    let cell = build_cell_markup(cr, val, plain);
                    let mut out = String::new();
                    push_range(&mut out, &s, 0, pos);
                    push_str(&mut out, cell.as_str());
                    push_str(&mut out, "</row>");
                    push_range(&mut out, &s, pos + 7, s.len());
                    let ov = chars_of(out.as_str());
                    proof {
                        assert(ov@ =~= sv.subrange(0, pos as int) + cell_markup(cr@, val@) + "</row>"@ + sv.subrange(pos + 7, sv.len() as int));
                    }
                    encode_chars(&ov)
                },
                None => vstd::slice::slice_to_vec(data),
            }
        },
        Some(cs) => {
            proof {
                assert(contains_seq(sv, av@)) by {
                    assert(occurs_at(sv, av@, cs as int));
                }
            }
            let head = slice_chars(&s, 0, cs);
            let ts: usize = match find_last(&head, &lt) {
                Some(i) => i,
                None => 0,
            };
            if matches_at(&s, &open_c, ts) && find_at(&s, &self_close, cs).is_some() {
                let e = match find_at(&s, &self_close, ts) {
                    Some(e) => e,
                    None => { proof { lemma_first_mono(sv, "/>"@, ts as int, cs as int); } 0 },
                };
                let cell = build_cell_markup(cr, val, plain);
                let mut out = String::new();
                push_range(&mut out, &s, 0, ts);
                push_str(&mut out, cell.as_str());
                push_range(&mut out, &s, e + 2, s.len());
                let ov = chars_of(out.as_str());
                proof {
                    assert(ov@ =~= sv.subrange(0, ts as int) + cell_markup(cr@, val@) + sv.subrange(e + 2, sv.len() as int));
                }
                encode_chars(&ov)
            } else {
                match find_at(&s, &close_c, cs) {
                    Some(ce) => {
                        let end = ce + 4;
                        let te: usize = match find_at(&s, &gt, ts) {
                            Some(g) => g + 1,
                            None => ts + 1,
                        };
                        proof {
                            assert(ts <= cs);
                            assert(cs + av@.len() <= sv.len());
                            assert(te <= sv.len());
                        }
                        let content = build_cell_content(val, plain);
                        let mut out = String::new();
                        push_range(&mut out, &s, 0, te);
                        push_str(&mut out, content.as_str());
                        push_str(&mut out, "</c>");
                        push_range(&mut out, &s, end, s.len());
                        let ov = chars_of(out.as_str());
                        proof {
                            assert(ov@ =~= sv.subrange(0, te as int) + cell_content(val@) + "</c>"@ + sv.subrange(end as int, sv.len() as int));
                        }
                        encode_chars(&ov)
                    },
                    None => vstd::slice::slice_to_vec(data),
                }
            }
        },
    }
}

proof fn lemma_some_first(s: Seq<char>, p: Seq<char>, i: int)
    requires
        occurs_at(s, p, i),
    ensures
        exists|j: int| crate::text::is_first_from(s, p, 0, j),
    decreases i,
{
    if exists|k: int| 0 <= k < i && occurs_at(s, p, k) {
        let k = choose|k: int| 0 <= k < i && occurs_at(s, p, k);
        lemma_some_first(s, p, k);
    } else {
        assert(crate::text::is_first_from(s, p, 0, i));
    }
}

proof fn lemma_first_mono(s: Seq<char>, p: Seq<char>, a: int, b: int)
    requires
        a <= b,
        first_at(s, p, b) is Some,
    ensures
        first_at(s, p, a) is Some,
{
    let j = first_at(s, p, b).unwrap();
    assert(crate::text::is_first_from(s, p, b, j));
    if exists|k: int| a <= k < j && occurs_at(s, p, k) {
        let k = choose|k: int| a <= k < j && occurs_at(s, p, k);
        lemma_first_from_exists(s, p, a, k);
    } else {
        assert(crate::text::is_first_from(s, p, a, j));
        crate::text::lemma_first_is(s, p, a, j);
    }
}

proof fn lemma_first_from_exists(s: Seq<char>, p: Seq<char>, a: int, i: int)
    requires
        a <= i,
        occurs_at(s, p, i),
    ensures
        first_at(s, p, a) is Some,
    decreases i - a,
{
    if exists|k: int| a <= k < i && occurs_at(s, p, k) {
        let k = choose|k: int| a <= k < i && occurs_at(s, p, k);
        lemma_first_from_exists(s, p, a, k);
    } else {
        assert(crate::text::is_first_from(s, p, a, i));
        crate::text::lemma_first_is(s, p, a, i);
    }
}


// ---------------------------------------------------------------------------
// Replacing text inside text elements
// ---------------------------------------------------------------------------

/// Whether the first `i` events leave the reader inside a `tag` element:
/// a start tag named `tag` enters it, an end tag named `tag` leaves it.
pub open spec fn inside_after(es: Seq<Ev>, tag: Seq<char>, i: int) -> bool
    decreases i,
{
    if i <= 0 {
        false
    } else {
        let e = es[i - 1];
        if e.0 == XmlKind::Start && event_name(e) == tag {
            true
        } else if e.0 == XmlKind::End && event_name(e) == tag {
            false
        } else {
            inside_after(es, tag, i - 1)
        }
    }
}

/// A text event read inside the text element gets the replacements; its
/// new text is written escaped.
pub open spec fn replaced_event(e: Ev, inside: bool, find: Seq<Seq<char>>, repl: Seq<Seq<char>>) -> Ev {
    if e.0 == XmlKind::Text && inside {
        (XmlKind::Text, escape(replace_pairs(e.1, find, repl)))
    } else {
        e
    }
}

pub open spec fn replaced_events(es: Seq<Ev>, find: Seq<Seq<char>>, repl: Seq<Seq<char>>, tag: Seq<char>) -> Seq<Ev> {
    Seq::new(es.len(), |i: int| replaced_event(es[i], inside_after(es, tag, i), find, repl))
}

/// A part after replacing text in its `tag` elements; a part the tokenizer
/// fails on stays as it was.
pub open spec fn replaced_xml(data: Seq<u8>, find: Seq<Seq<char>>, repl: Seq<Seq<char>>, tag: Seq<char>) -> Seq<u8> {
    if trimmed_xml_scan(data).1 is None {
        encode_utf8(events_text(replaced_events(trimmed_xml_scan(data).0, find, repl, tag)))
    } else {
        data
    }
}

pub fn string_bytes(s: &String) -> (r: Vec<u8>)
    ensures
        r@ == encode_utf8(s@),
{
    vstd::slice::slice_to_vec(s.as_str().as_bytes())
}

/// Applies the replacements `find[k]` → `replace[k]` to the text inside
/// every `text_tag` element of an XML part.
pub fn replace_text_in_xml(data: &[u8], find: &[String], replace: &[String], text_tag: &str) -> (r: Vec<u8>)
    ensures
        r@ == replaced_xml(data@, strings_view(find@), strings_view(replace@), text_tag@),
{
    let (events, err) = scan_xml(data);
    if err.is_some() {
        return vstd::slice::slice_to_vec(data);
    }
    let ghost es = evs(events@);
    let ghost fv = strings_view(find@);
    let ghost rv = strings_view(replace@);
    let tag = chars_of(text_tag);
    let mut out = String::new();
    let mut inside = false;
    let mut i: usize = 0;
    proof {
        assert(replaced_events(es, fv, rv, text_tag@).take(0) =~= Seq::<Ev>::empty());
    }
    while i < events.len()
        invariant
            i <= events@.len(),
            es == evs(events@),
            fv == strings_view(find@),
            rv == strings_view(replace@),
            tag@ == text_tag@,
            inside == inside_after(es, text_tag@, i as int),
            out@ == events_text(replaced_events(es, fv, rv, text_tag@).take(i as int)),
        decreases events@.len() - i,
    {
        let e = &events[i];
        let ghost ev = es[i as int];
        proof {
            assert(ev == e@);
        }
        let ghost old_out = out@;
        if e.kind == XmlKind::Text && inside {
            let t = chars_of(e.content.as_str());
            let nt = replace_pairs_chars(&t, find, replace);
            let ns = string_of(&nt);
            push_escaped(&mut out, ns.as_str(), false);
            proof {
                assert(t@ == ev.1);
                assert(event_text(replaced_event(ev, inside, fv, rv)) == escape(replace_pairs(ev.1, fv, rv)));
            }
        } else {
            push_event(&mut out, e);
            proof {
                assert(replaced_event(ev, inside, fv, rv) == ev);
            }
        }
        proof {
            let rs = replaced_events(es, fv, rv, text_tag@);
            assert(rs[i as int] == replaced_event(ev, inside, fv, rv));
            assert(out@ == old_out + event_text(rs[i as int]));
            lemma_events_text_take(rs, i as int);
        }
        if e.kind == XmlKind::Start || e.kind == XmlKind::End {
            let n = name_of(e);
            if seq_eq(&n, &tag) {
                inside = e.kind == XmlKind::Start;
            }
        }
        i = i + 1;
    }
    proof {
        assert(replaced_events(es, fv, rv, text_tag@).take(events@.len() as int) =~= replaced_events(es, fv, rv, text_tag@));
    }
    string_bytes(&out)
}

// ---------------------------------------------------------------------------
// Patch requests
// ---------------------------------------------------------------------------

#[derive(Debug, Clone)]
pub struct StyleChanges {
    pub bold: Option<bool>,
    pub italic: Option<bool>,
    pub underline: Option<bool>,
    pub strikethrough: Option<bool>,
    pub font_size_half_pt: Option<u16>,
    pub font_name: Option<String>,
}

#[derive(Debug, Clone)]
pub enum PatchOp {
    ReplaceText { find: Vec<String>, replace: Vec<String> },
    SetCell { sheet_index: usize, cell_ref: String, value: String },
    SetStyle { text_pattern: String, changes: StyleChanges },
}

pub open spec fn str_views(v: Seq<&str>) -> Seq<Seq<char>> {
    v.map_values(|s: &str| s@)
}

/// Checks that the file exists and that its extension is one of
/// `expected` (compared lower-cased).
pub fn validate(fp: &str, exists: bool, expected: &[&str]) -> (r: Result<(), String>)
    ensures
        !exists ==> (r matches Err(e) && e@ == "not found: "@ + fp@),
        exists && !str_views(expected@).contains(lower_ext(fp@)) ==> (r matches Err(e) && e@
            == "unsupported format '."@ + lower_ext(fp@) + "'"@),
        r is Ok <==> (exists && str_views(expected@).contains(lower_ext(fp@))),
{
    if !exists {
        let mut msg = String::new();
        push_str(&mut msg, "not found: ");
        push_str(&mut msg, fp);
        return Err(msg);
    }
    let ext = lower_extension(fp);
    let mut i: usize = 0;
    while i < expected.len()
        invariant
            exists,
            i <= expected@.len(),
            ext@ == lower_ext(fp@),
            forall|j: int| 0 <= j < i ==> expected@[j]@ != ext@,
        decreases expected@.len() - i,
    {
        let e = chars_of(expected[i]);
        if seq_eq(&e, &ext) {
            proof {
                assert(str_views(expected@)[i as int] == ext@);
                assert(str_views(expected@).contains(lower_ext(fp@)));
            }
            return Ok(());
        }
        i = i + 1;
    }
    proof {
        if str_views(expected@).contains(ext@) {
            let k = choose|k: int| 0 <= k < str_views(expected@).len() && str_views(expected@)[k] == ext@;
            assert(expected@[k]@ == ext@);
        }
    }
    let mut msg = String::new();
    push_str(&mut msg, "unsupported format '.");
    let es = string_of(&ext);
    push_str(&mut msg, es.as_str());
    push_str(&mut msg, "'");
    proof {
        assert(msg@ =~= "unsupported format '."@ + lower_ext(fp@) + "'"@);
    }
    Err(msg)
}

pub open spec fn entry_names(es: Seq<(String, Vec<u8>)>) -> Seq<Seq<char>> {
    es.map_values(|e: (String, Vec<u8>)| e.0@)
}

/// The bytes a worksheet part holds after setting a cell in it.
pub open spec fn cell_set_bytes(data: Seq<u8>, cr: Seq<char>, val: Seq<char>) -> Seq<u8> {
    match set_cell_text(part_text(data), cr, val) {
        Some(t) => encode_utf8(t),
        None => data,
    }
}

/// Sets cell `cr` of worksheet `si` (from zero) to `val` in the parts of a
/// workbook that exists at `fp`; fails when the file is missing, is not an
/// `.xlsx`, or has no such worksheet.
pub fn surgical_set_cell(
    fp: &str,
    exists: bool,
    entries: Vec<(String, Vec<u8>)>,
    si: usize,
    cr: &str,
    val: &str,
) -> (r: Result<Vec<(String, Vec<u8>)>, String>)
    requires
        si < usize::MAX,
        forall|k: int|
            0 <= k < entries@.len() && sheet_part(#[trigger] entries@[k].0@, si as nat) ==> set_cell_ok(
                part_text(entries@[k].1@),
                cr@,
            ),
    ensures
        !exists ==> (r matches Err(e) && e@ == "not found: "@ + fp@),
        exists && lower_ext(fp@) != "xlsx"@ ==> (r matches Err(e) && e@ == "unsupported format '."@
            + lower_ext(fp@) + "'"@),
        exists && lower_ext(fp@) == "xlsx"@ && !(exists|k: int|
            0 <= k < entries@.len() && sheet_part(#[trigger] entries@[k].0@, si as nat)) ==> (r matches Err(e)
            && e@ == "sheet "@ + decimal(si as nat) + " not found in "@ + fp@),
        r matches Ok(v) ==> {
            &&& exists && lower_ext(fp@) == "xlsx"@
            &&& v@.len() == entries@.len()
            &&& forall|k: int|
                0 <= k < v@.len() ==> {
                    &&& (#[trigger] v@[k]).0 == entries@[k].0
                    &&& v@[k].1@ == (if sheet_part(entries@[k].0@, si as nat) {
                        cell_set_bytes(entries@[k].1@, cr@, val@)
                    } else {
                        entries@[k].1@
                    })
                }
        },
        (exists && lower_ext(fp@) == "xlsx"@ && exists|k: int|
            0 <= k < entries@.len() && sheet_part(#[trigger] entries@[k].0@, si as nat)) ==> r is Ok,
{
    let expected: [&str; 1] = ["xlsx"];
    let ev = expected.as_slice();
    proof {
        assert(str_views(ev@) =~= seq!["xlsx"@]);
        if str_views(ev@).contains(lower_ext(fp@)) {
            let k = choose|k: int| 0 <= k < str_views(ev@).len() && str_views(ev@)[k] == lower_ext(fp@);
        }
        assert(str_views(ev@)[0] == "xlsx"@);
    }
    validate(fp, exists, ev)?;
    let mut out: Vec<(String, Vec<u8>)> = Vec::new();
    let mut found = false;
    let mut k: usize = 0;
    while k < entries.len()
        invariant
            si < usize::MAX,
            forall|q: int|
                0 <= q < entries@.len() && sheet_part(#[trigger] entries@[q].0@, si as nat) ==> set_cell_ok(
                    part_text(entries@[q].1@),
                    cr@,
                ),
            k <= entries@.len(),
            out@.len() == k,
            found == exists|q: int| 0 <= q < k && sheet_part(#[trigger] entries@[q].0@, si as nat),
            forall|q: int|
                0 <= q < k ==> {
                    &&& (#[trigger] out@[q]).0 == entries@[q].0
                    &&& out@[q].1@ == (if sheet_part(entries@[q].0@, si as nat) {
                        cell_set_bytes(entries@[q].1@, cr@, val@)
                    } else {
                        entries@[q].1@
                    })
                },
        decreases entries@.len() - k,
    {
        let name = entries[k].0.clone();
        if is_sheet(name.as_str(), si) {
            found = true;
            let data = set_cell_in_sheet(entries[k].1.as_slice(), cr, val);
            out.push((name, data));
        } else {
            let data = vstd::slice::slice_to_vec(entries[k].1.as_slice());
            out.push((name, data));
        }
        k = k + 1;
    }
    if !found {
        let mut msg = String::new();
        push_str(&mut msg, "sheet ");
        let n = u64_to_string(si as u64);
        push_str(&mut msg, n.as_str());
        push_str(&mut msg, " not found in ");
        push_str(&mut msg, fp);
        proof {
            assert(msg@ =~= "sheet "@ + decimal(si as nat) + " not found in "@ + fp@);
        }
        return Err(msg);
    }
    Ok(out)
}

// ---------------------------------------------------------------------------
// Patching the parts of a document
// ---------------------------------------------------------------------------

pub open spec fn parts_view(es: Seq<(String, Vec<u8>)>) -> Seq<(Seq<char>, Seq<u8>)> {
    es.map_values(|e: (String, Vec<u8>)| (e.0@, e.1@))
}

/// The text element of a format's content parts.
pub open spec fn text_tag_for(ext: Seq<char>) -> Seq<char> {
    if ext == "docx"@ {
        "w:t"@
    } else {
        "a:t"@
    }
}

/// The parts after replacing text in every content part.
pub open spec fn replaced_parts(
    es: Seq<(Seq<char>, Seq<u8>)>,
    ext: Seq<char>,
    find: Seq<Seq<char>>,
    repl: Seq<Seq<char>>,
) -> Seq<(Seq<char>, Seq<u8>)> {
    es.map_values(
        |e: (Seq<char>, Seq<u8>)|
            if content_part(e.0, ext) {
                (e.0, replaced_xml(e.1, find, repl, text_tag_for(ext)))
            } else {
                e
            },
    )
}

/// The parts after restyling the matching runs of every content part.
pub open spec fn styled_parts(
    es: Seq<(Seq<char>, Seq<u8>)>,
    ext: Seq<char>,
    pattern: Seq<char>,
    ch: StyleChanges,
) -> Seq<(Seq<char>, Seq<u8>)> {
    es.map_values(
        |e: (Seq<char>, Seq<u8>)|
            if content_part(e.0, ext) {
                (e.0, styled_xml(e.1, ext, pattern, ch))
            } else {
                e
            },
    )
}

/// The parts after setting a cell in worksheet `si`.
pub open spec fn cell_parts(es: Seq<(Seq<char>, Seq<u8>)>, si: nat, cr: Seq<char>, val: Seq<char>) -> Seq<
    (Seq<char>, Seq<u8>),
> {
    es.map_values(
        |e: (Seq<char>, Seq<u8>)|
            if sheet_part(e.0, si) {
                (e.0, cell_set_bytes(e.1, cr, val))
            } else {
                e
            },
    )
}

pub open spec fn has_sheet(es: Seq<(Seq<char>, Seq<u8>)>, si: nat) -> bool {
    exists|k: int| 0 <= k < es.len() && sheet_part(#[trigger] es[k].0, si)
}

/// The cells of worksheet `si` can be set without failing.
pub open spec fn cells_settable(es: Seq<(Seq<char>, Seq<u8>)>, si: nat, cr: Seq<char>) -> bool {
    forall|k: int| 0 <= k < es.len() && sheet_part(#[trigger] es[k].0, si) ==> set_cell_ok(part_text(es[k].1), cr)
}

fn copy_part(e: &(String, Vec<u8>)) -> (r: (String, Vec<u8>))
    ensures
        r.0@ == e.0@,
        r.1@ == e.1@,
{
    (e.0.clone(), vstd::slice::slice_to_vec(e.1.as_slice()))
}

fn replace_in_parts(entries: &Vec<(String, Vec<u8>)>, ext: &str, find: &[String], replace: &[String]) -> (r: Vec<(String, Vec<u8>)>)
    ensures
        parts_view(r@) == replaced_parts(parts_view(entries@), ext@, strings_view(find@), strings_view(replace@)),
{
    let tag = if str_eq(ext, "docx") { "w:t" } else { "a:t" };
    proof {
        assert(tag@ == text_tag_for(ext@));
    }
    let mut out: Vec<(String, Vec<u8>)> = Vec::new();
    let mut k: usize = 0;
    while k < entries.len()
        invariant
            k <= entries@.len(),
            tag@ == text_tag_for(ext@),
            parts_view(out@) == replaced_parts(parts_view(entries@), ext@, strings_view(find@), strings_view(replace@)).take(k as int),
        decreases entries@.len() - k,
    {
        let e = &entries[k];
        let ghost before = out@;
        if is_content(e.0.as_str(), ext) {
            let data = replace_text_in_xml(e.1.as_slice(), find, replace, tag);
            out.push((e.0.clone(), data));
        } else {
            out.push(copy_part(e));
        }
        proof {
            assert(parts_view(out@) =~= parts_view(before).push(parts_view(out@).last()));
            assert(parts_view(out@) =~= replaced_parts(parts_view(entries@), ext@, strings_view(find@), strings_view(replace@)).take(k + 1));
        }
        k = k + 1;
    }
    proof {
        assert(replaced_parts(parts_view(entries@), ext@, strings_view(find@), strings_view(replace@)).take(entries@.len() as int)
            =~= replaced_parts(parts_view(entries@), ext@, strings_view(find@), strings_view(replace@)));
    }
    out
}

fn style_in_parts(entries: &Vec<(String, Vec<u8>)>, ext: &str, pattern: &str, ch: &StyleChanges) -> (r: Vec<(String, Vec<u8>)>)
    ensures
        parts_view(r@) == styled_parts(parts_view(entries@), ext@, pattern@, *ch),
{
    let mut out: Vec<(String, Vec<u8>)> = Vec::new();
    let mut k: usize = 0;
    while k < entries.len()
        invariant
            k <= entries@.len(),
            parts_view(out@) == styled_parts(parts_view(entries@), ext@, pattern@, *ch).take(k as int),
        decreases entries@.len() - k,
    {
        let e = &entries[k];
        let ghost before = out@;
        if is_content(e.0.as_str(), ext) {
            let data = apply_style_to_xml(e.1.as_slice(), ext, pattern, ch);
            out.push((e.0.clone(), data));
        } else {
            out.push(copy_part(e));
        }
        proof {
            assert(parts_view(out@) =~= parts_view(before).push(parts_view(out@).last()));
            assert(parts_view(out@) =~= styled_parts(parts_view(entries@), ext@, pattern@, *ch).take(k + 1));
        }
        k = k + 1;
    }
    proof {
        assert(styled_parts(parts_view(entries@), ext@, pattern@, *ch).take(entries@.len() as int)
            =~= styled_parts(parts_view(entries@), ext@, pattern@, *ch));
    }
    out
}

fn set_cell_in_parts(entries: &Vec<(String, Vec<u8>)>, si: usize, cr: &str, val: &str) -> (r: (Vec<(String, Vec<u8>)>, bool))
    requires
        si < usize::MAX,
        cells_settable(parts_view(entries@), si as nat, cr@),
    ensures
        parts_view(r.0@) == cell_parts(parts_view(entries@), si as nat, cr@, val@),
        r.1 == has_sheet(parts_view(entries@), si as nat),
{
    let ghost pv = parts_view(entries@);
    let mut out: Vec<(String, Vec<u8>)> = Vec::new();
    let mut found = false;
    let mut k: usize = 0;
    while k < entries.len()
        invariant
            si < usize::MAX,
            pv == parts_view(entries@),
            cells_settable(pv, si as nat, cr@),
            k <= entries@.len(),
            parts_view(out@) == cell_parts(pv, si as nat, cr@, val@).take(k as int),
            found == exists|q: int| 0 <= q < k && sheet_part(#[trigger] pv[q].0, si as nat),
        decreases entries@.len() - k,
    {
        let e = &entries[k];
        let ghost before = out@;
        proof {
            assert(pv[k as int] == (e.0@, e.1@));
        }
        if is_sheet(e.0.as_str(), si) {
            proof {
                assert(sheet_part(pv[k as int].0, si as nat));
                assert(set_cell_ok(part_text(pv[k as int].1), cr@));
            }
            found = true;
            let data = set_cell_in_sheet(e.1.as_slice(), cr, val);
            out.push((e.0.clone(), data));
        } else {
            out.push(copy_part(e));
        }
        proof {
            assert(parts_view(out@) =~= parts_view(before).push(parts_view(out@).last()));
            assert(parts_view(out@) =~= cell_parts(pv, si as nat, cr@, val@).take(k + 1));
        }
        k = k + 1;
    }
    proof {
        assert(cell_parts(pv, si as nat, cr@, val@).take(entries@.len() as int) =~= cell_parts(pv, si as nat, cr@, val@));
    }
    (out, found)
}

fn not_found(fp: &str) -> (r: String)
    ensures
        r@ == "not found: "@ + fp@,
{
    let mut msg = String::new();
    push_str(&mut msg, "not found: ");
    push_str(&mut msg, fp);
    msg
}

fn sheet_missing(si: usize, fp: &str) -> (r: String)
    ensures
        r@ == "sheet "@ + decimal(si as nat) + " not found in "@ + fp@,
{
    let mut msg = String::new();
    push_str(&mut msg, "sheet ");
    let n = u64_to_string(si as u64);
    push_str(&mut msg, n.as_str());
    push_str(&mut msg, " not found in ");
    push_str(&mut msg, fp);
    proof {
        assert(msg@ =~= "sheet "@ + decimal(si as nat) + " not found in "@ + fp@);
    }
    msg
}

/// The two formats whose text a patch can rewrite.
pub open spec fn text_format(ext: Seq<char>) -> bool {
    ext == "docx"@ || ext == "pptx"@
}

fn text_formats_check(fp: &str, exists: bool) -> (r: Result<(), String>)
    ensures
        !exists ==> (r matches Err(e) && e@ == "not found: "@ + fp@),
        exists && !text_format(lower_ext(fp@)) ==> (r matches Err(e) && e@ == "unsupported format '."@ + lower_ext(fp@) + "'"@),
        r is Ok <==> (exists && text_format(lower_ext(fp@))),
{
    let expected: [&str; 2] = ["docx", "pptx"];
    let ev = expected.as_slice();
    proof {
        assert(str_views(ev@) =~= seq!["docx"@, "pptx"@]);
        if str_views(ev@).contains(lower_ext(fp@)) {
            let k = choose|k: int| 0 <= k < str_views(ev@).len() && str_views(ev@)[k] == lower_ext(fp@);
        }
        assert(str_views(ev@)[0] == "docx"@);
        assert(str_views(ev@)[1] == "pptx"@);
    }
    validate(fp, exists, ev)
}

/// Replaces text (`find[k]` by `replace[k]`, in order) in the content parts
/// of a Word document or presentation that exists at `fp`; fails when the
/// file is missing or is neither a `.docx` nor a `.pptx`.
pub fn surgical_replace_text(
    fp: &str,
    exists: bool,
    entries: Vec<(String, Vec<u8>)>,
    find: &[String],
    replace: &[String],
) -> (r: Result<Vec<(String, Vec<u8>)>, String>)
    ensures
        !exists ==> (r matches Err(e) && e@ == "not found: "@ + fp@),
        exists && !text_format(lower_ext(fp@)) ==> (r matches Err(e) && e@ == "unsupported format '."@
            + lower_ext(fp@) + "'"@),
        r is Ok <==> (exists && text_format(lower_ext(fp@))),
        r matches Ok(v) ==> parts_view(v@) == replaced_parts(parts_view(entries@), lower_ext(fp@), strings_view(find@), strings_view(replace@)),
{
    text_formats_check(fp, exists)?;
    let ext = string_of(&lower_extension(fp));
    Ok(replace_in_parts(&entries, ext.as_str(), find, replace))
}

/// Applies a style change to the runs whose text contains `pat` in the
/// content parts of a Word document or presentation that exists at `fp`;
/// fails when the file is missing or is neither a `.docx` nor a `.pptx`.
pub fn surgical_set_style(
    fp: &str,
    exists: bool,
    entries: Vec<(String, Vec<u8>)>,
    pat: &str,
    ch: &StyleChanges,
) -> (r: Result<Vec<(String, Vec<u8>)>, String>)
    ensures
        !exists ==> (r matches Err(e) && e@ == "not found: "@ + fp@),
        exists && !text_format(lower_ext(fp@)) ==> (r matches Err(e) && e@ == "unsupported format '."@
            + lower_ext(fp@) + "'"@),
        r is Ok <==> (exists && text_format(lower_ext(fp@))),
        r matches Ok(v) ==> parts_view(v@) == styled_parts(parts_view(entries@), lower_ext(fp@), pat@, *ch),
{
    text_formats_check(fp, exists)?;
    let ext = string_of(&lower_extension(fp));
    Ok(style_in_parts(&entries, ext.as_str(), pat, ch))
}

/// The parts after one patch operation, or the error it stops with.
pub open spec fn apply_op(
    es: Seq<(Seq<char>, Seq<u8>)>,
    ext: Seq<char>,
    op: PatchOp,
    fp: Seq<char>,
) -> Result<Seq<(Seq<char>, Seq<u8>)>, Seq<char>> {
    match op {
        PatchOp::ReplaceText { find, replace } => Ok(replaced_parts(es, ext, strings_view(find@), strings_view(replace@))),
        PatchOp::SetCell { sheet_index, cell_ref, value } => if has_sheet(es, sheet_index as nat) {
            Ok(cell_parts(es, sheet_index as nat, cell_ref@, value@))
        } else {
            Err("sheet "@ + decimal(sheet_index as nat) + " not found in "@ + fp)
        },
        PatchOp::SetStyle { text_pattern, changes } => Ok(styled_parts(es, ext, text_pattern@, changes)),
    }
}

/// The parts after the operations in order, or the first error.
pub open spec fn patched(
    es: Seq<(Seq<char>, Seq<u8>)>,
    ext: Seq<char>,
    ops: Seq<PatchOp>,
    fp: Seq<char>,
) -> Result<Seq<(Seq<char>, Seq<u8>)>, Seq<char>>
    decreases ops.len(),
{
    if ops.len() == 0 {
        Ok(es)
    } else {
        match patched(es, ext, ops.drop_last(), fp) {
            Ok(cur) => apply_op(cur, ext, ops.last(), fp),
            Err(e) => Err(e),
        }
    }
}

/// Every cell-setting operation meets parts in which it can be done.
pub open spec fn patch_ok(es: Seq<(Seq<char>, Seq<u8>)>, ext: Seq<char>, ops: Seq<PatchOp>, fp: Seq<char>) -> bool {
    forall|t: int|
        0 <= t < ops.len() ==> match #[trigger] ops[t] {
            PatchOp::SetCell { sheet_index, cell_ref, value } => sheet_index < usize::MAX && match patched(es, ext, ops.take(t), fp) {
                Ok(cur) => cells_settable(cur, sheet_index as nat, cell_ref@),
                Err(_) => true,
            },
            _ => true,
        }
}

/// Applies the patch operations in order to the parts of a document that
/// exists at `fp`; fails when the file is missing, or with the first
/// operation that names a worksheet the document lacks.
pub fn surgical_patch(
    fp: &str,
    exists: bool,
    entries: Vec<(String, Vec<u8>)>,
    ops: &[PatchOp],
) -> (r: Result<Vec<(String, Vec<u8>)>, String>)
    requires
        patch_ok(parts_view(entries@), lower_ext(fp@), ops@, fp@),
    ensures
        !exists ==> (r matches Err(e) && e@ == "not found: "@ + fp@),
        exists ==> match patched(parts_view(entries@), lower_ext(fp@), ops@, fp@) {
            Ok(v) => r matches Ok(w) && parts_view(w@) == v,
            Err(e) => r matches Err(m) && m@ == e,
        },
{
    if !exists {
        return Err(not_found(fp));
    }
    let ext = string_of(&lower_extension(fp));
    let ghost pv = parts_view(entries@);
    let mut cur = entries;
    let mut t: usize = 0;
    proof {
        assert(ops@.take(0) =~= Seq::<PatchOp>::empty());
    }
    while t < ops.len()
        invariant
            exists,
            t <= ops@.len(),
            ext@ == lower_ext(fp@),
            pv == parts_view(entries@),
            patch_ok(pv, ext@, ops@, fp@),
            patched(pv, ext@, ops@.take(t as int), fp@) == Ok::<Seq<(Seq<char>, Seq<u8>)>, Seq<char>>(parts_view(cur@)),
        decreases ops@.len() - t,
    {
        proof {
            assert(ops@.take(t + 1).drop_last() =~= ops@.take(t as int));
            assert(ops@.take(t + 1).last() == ops@[t as int]);
        }
        match &ops[t] {
            PatchOp::ReplaceText { find, replace } => {
                cur = replace_in_parts(&cur, ext.as_str(), find.as_slice(), replace.as_slice());
            },
            PatchOp::SetCell { sheet_index, cell_ref, value } => {
                let (next, found) = set_cell_in_parts(&cur, *sheet_index, cell_ref.as_str(), value.as_str());
                if !found {
                    proof {
                        assert(patched(pv, ext@, ops@.take(t + 1), fp@) is Err);
                        lemma_patched_err_stays(pv, ext@, ops@, fp@, t + 1);
                        assert(ops@.take(ops@.len() as int) =~= ops@);
                    }
                    return Err(sheet_missing(*sheet_index, fp));
                }
                cur = next;
            },
            PatchOp::SetStyle { text_pattern, changes } => {
                cur = style_in_parts(&cur, ext.as_str(), text_pattern.as_str(), changes);
            },
        }
        t = t + 1;
    }
    proof {
        assert(ops@.take(ops@.len() as int) =~= ops@);
    }
    Ok(cur)
}

/// Once an operation fails, the operations after it do not change the error.
pub proof fn lemma_patched_err_stays(es: Seq<(Seq<char>, Seq<u8>)>, ext: Seq<char>, ops: Seq<PatchOp>, fp: Seq<char>, t: int)
    requires
        0 <= t <= ops.len(),
        patched(es, ext, ops.take(t), fp) is Err,
    ensures
        patched(es, ext, ops, fp) == patched(es, ext, ops.take(t), fp),
    decreases ops.len() - t,
{
    if t < ops.len() {
        assert(ops.take(t + 1).drop_last() =~= ops.take(t));
        lemma_patched_err_stays(es, ext, ops, fp, t + 1);
    } else {
        assert(ops.take(t) =~= ops);
    }
}

/// A patch keeps the parts of a document: after it the document has the same
/// parts, under the same names and in the same order, and a part that no
/// operation rewrites (neither a content part of the format nor a worksheet)
/// keeps its data.
pub proof fn lemma_patch_keeps_parts(
    es: Seq<(Seq<char>, Seq<u8>)>,
    ext: Seq<char>,
    ops: Seq<PatchOp>,
    fp: Seq<char>,
    i: int,
)
    requires
        0 <= i < es.len(),
        patched(es, ext, ops, fp) is Ok,
    ensures
        patched(es, ext, ops, fp).get_Ok_0().len() == es.len(),
        patched(es, ext, ops, fp).get_Ok_0()[i].0 == es[i].0,
        !content_part(es[i].0, ext) && (forall|si: nat| !sheet_part(es[i].0, si))
            ==> patched(es, ext, ops, fp).get_Ok_0()[i] == es[i],
    decreases ops.len(),
{
    if ops.len() > 0 {
        lemma_patch_keeps_parts(es, ext, ops.drop_last(), fp, i);
    }
}

} // verus!
