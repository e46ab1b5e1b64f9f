use vstd::prelude::*;
use vstd::utf8::encode_utf8;
use crate::text::{chars_of, contains, contains_seq, decimal, push_str, str_eq, u64_to_string};
use crate::xml::{
    XmlEvent, XmlKind, Ev, evs, trimmed_xml_scan, start_tag_attributes, scan_xml, tag_attributes,
    event_text, events_text, tag_name, tag_name_chars, escape_attribute, push_escaped, push_event,
    push_events, is_tag, is_tag_exec, lemma_events_text_take,
};
use super::{StyleChanges, inside_after, string_bytes};

verus! {

// ---------------------------------------------------------------------------
// Rewriting the attributes of run properties
// ---------------------------------------------------------------------------

/// Attribute keys that a style change replaces.
pub open spec fn overridden_key(k: Seq<char>, ch: StyleChanges) -> bool {
    ||| (ch.bold is Some && k == "b"@)
    ||| (ch.italic is Some && k == "i"@)
    ||| (ch.underline is Some && k == "u"@)
    ||| (ch.strikethrough is Some && k == "strike"@)
    ||| (ch.font_size_half_pt is Some && k == "sz"@)
}

/// An attribute as a tag carries it: ` key="value"`, the value escaped.
pub open spec fn attr_text(k: Seq<char>, v: Seq<char>) -> Seq<char> {
    " "@ + k + "=\""@ + escape_attribute(v) + "\""@
}

/// The attributes that a style change keeps, written out.
pub open spec fn kept_attrs(attrs: Seq<(Seq<char>, Seq<char>)>, ch: StyleChanges) -> Seq<char>
    decreases attrs.len(),
{
    if attrs.len() == 0 {
        Seq::empty()
    } else {
        kept_attrs(attrs.drop_last(), ch) + if overridden_key(attrs.last().0, ch) {
            Seq::<char>::empty()
        } else {
            attr_text(attrs.last().0, attrs.last().1)
        }
    }
}

pub open spec fn flag_attr(f: Option<bool>, text: Seq<char>) -> Seq<char> {
    if f == Some(true) {
        text
    } else {
        Seq::empty()
    }
}

/// The attributes a style change adds, in this order: bold, italic,
/// underline, strike-through, size.
pub open spec fn style_attrs(ch: StyleChanges) -> Seq<char> {
    flag_attr(ch.bold, " b=\"1\""@) + flag_attr(ch.italic, " i=\"1\""@) + flag_attr(ch.underline, " u=\"sng\""@)
        + flag_attr(ch.strikethrough, " strike=\"sng\""@) + match ch.font_size_half_pt {
        Some(n) => " sz=\""@ + decimal(n as nat) + "\""@,
        None => Seq::empty(),
    }
}

/// The content of a restyled tag: its name, the attributes kept, the new ones.
pub open spec fn restyled_tag(c: Seq<char>, ch: StyleChanges) -> Seq<char> {
    tag_name(c) + kept_attrs(start_tag_attributes(c), ch) + style_attrs(ch)
}

pub open spec fn restyled_event(e: Ev, ch: StyleChanges) -> Ev {
    if e.0 == XmlKind::Start || e.0 == XmlKind::Empty {
        (e.0, restyled_tag(e.1, ch))
    } else {
        e
    }
}

/// A run-properties fragment after a style change: every start and empty
/// tag in it restyled; a fragment the tokenizer fails on stays as it was.
pub open spec fn restyled_xml(xml: Seq<u8>, ch: StyleChanges) -> Seq<u8> {
    if trimmed_xml_scan(xml).1 is None {
        encode_utf8(events_text(trimmed_xml_scan(xml).0.map_values(|e: Ev| restyled_event(e, ch))))
    } else {
        xml
    }
}

fn push_flag(out: &mut String, f: Option<bool>, text: &str)
    ensures
        final(out)@ == old(out)@ + flag_attr(f, text@),
{
    match f {
        Some(true) => push_str(out, text),
        _ => {
            assert(old(out)@ + flag_attr(f, text@) =~= old(out)@);
        },
    }
}

fn push_style_attrs(out: &mut String, ch: &StyleChanges)
    ensures
        final(out)@ == old(out)@ + style_attrs(*ch),
{
    let ghost start = out@;
    push_flag(out, ch.bold, " b=\"1\"");
    push_flag(out, ch.italic, " i=\"1\"");
    push_flag(out, ch.underline, " u=\"sng\"");
    push_flag(out, ch.strikethrough, " strike=\"sng\"");
    let ghost mid = out@;
    match ch.font_size_half_pt {
        Some(n) => {
            push_str(out, " sz=\"");
            let d = u64_to_string(n as u64);
            push_str(out, d.as_str());
            push_str(out, "\"");
        },
        None => {},
    }
    assert(out@ =~= start + style_attrs(*ch));
}

fn push_attr(out: &mut String, k: &str, v: &str)
    ensures
        final(out)@ == old(out)@ + attr_text(k@, v@),
{
    let ghost start = out@;
    push_str(out, " ");
    push_str(out, k);
    push_str(out, "=\"");
    push_escaped(out, v, true);
    push_str(out, "\"");
    assert(out@ =~= start + attr_text(k@, v@));
}

fn is_overridden(k: &str, ch: &StyleChanges) -> (b: bool)
    ensures
        b == overridden_key(k@, *ch),
{
    (ch.bold.is_some() && str_eq(k, "b")) || (ch.italic.is_some() && str_eq(k, "i")) || (
    ch.underline.is_some() && str_eq(k, "u")) || (ch.strikethrough.is_some() && str_eq(k, "strike"))
        || (ch.font_size_half_pt.is_some() && str_eq(k, "sz"))
}

/// The content of a start or empty tag after a style change.
pub fn restyle_tag(c: &str, ch: &StyleChanges) -> (r: String)
    ensures
        r@ == restyled_tag(c@, *ch),
{
    let name = tag_name_chars(c);
    let mut out = crate::text::string_of(&name);
    let attrs = tag_attributes(c);
    let ghost av = attrs@.map_values(|a: (String, String)| (a.0@, a.1@));
    let mut k: usize = 0;
    proof {
        assert(av.take(0) =~= Seq::<(Seq<char>, Seq<char>)>::empty());
    }
    while k < attrs.len()
        invariant
            k <= attrs@.len(),
            av == attrs@.map_values(|a: (String, String)| (a.0@, a.1@)),
            out@ == tag_name(c@) + kept_attrs(av.take(k as int), *ch),
        decreases attrs@.len() - k,
    {
        let key = attrs[k].0.as_str();
        let val = attrs[k].1.as_str();
        let ghost before = out@;
        if !is_overridden(key, ch) {
            push_attr(&mut out, key, val);
        }
        proof {
            assert(av.take(k + 1).drop_last() =~= av.take(k as int));
            assert(av.take(k + 1).last() == (key@, val@));
            assert(out@ =~= tag_name(c@) + kept_attrs(av.take(k + 1), *ch));
        }
        k = k + 1;
    }
    proof {
        assert(av.take(attrs@.len() as int) =~= av);
    }
    push_style_attrs(&mut out, ch);
    out
}

/// Restyles every start and empty tag of a run-properties fragment.
pub fn style_rpr(xml: &[u8], ch: &StyleChanges) -> (r: Vec<u8>)
    ensures
        r@ == restyled_xml(xml@, *ch),
{
    let (events, err) = scan_xml(xml);
    if err.is_some() {
        return vstd::slice::slice_to_vec(xml);
    }
    let ghost es = evs(events@);
    let ghost rs = es.map_values(|e: Ev| restyled_event(e, *ch));
    let mut out = String::new();
    let mut i: usize = 0;
    proof {
        assert(rs.take(0) =~= Seq::<Ev>::empty());
    }
    while i < events.len()
        invariant
            i <= events@.len(),
            es == evs(events@),
            rs == es.map_values(|e: Ev| restyled_event(e, *ch)),
            out@ == events_text(rs.take(i as int)),
        decreases events@.len() - i,
    {
        let e = &events[i];
        proof {
            assert(es[i as int] == e@);
            assert(rs[i as int] == restyled_event(e@, *ch));
        }
        if e.kind == XmlKind::Start || e.kind == XmlKind::Empty {
            let t = restyle_tag(e.content.as_str(), ch);
            let ne = XmlEvent { kind: e.kind, content: t };
            push_event(&mut out, &ne);
        } else {
            push_event(&mut out, e);
        }
        proof {
            lemma_events_text_take(rs, i as int);
        }
        i = i + 1;
    }
    proof {
        assert(rs.take(events@.len() as int) =~= rs);
    }
    string_bytes(&out)
}

// ---------------------------------------------------------------------------
// Restyling the runs whose text matches
// ---------------------------------------------------------------------------

/// The run, text and run-properties tag names of a format.
pub open spec fn style_tags(ext: Seq<char>) -> (Seq<char>, Seq<char>, Seq<char>) {
    if ext == "docx"@ {
        ("w:r"@, "w:t"@, "w:rPr"@)
    } else {
        ("a:r"@, "a:t"@, "a:rPr"@)
    }
}

/// Index just past the end tag that closes a run, scanning from `k` with
/// `depth` runs nested inside it open; the end of the events if none.
pub open spec fn run_close(es: Seq<Ev>, k: int, depth: int, run_tag: Seq<char>) -> int
    decreases es.len() - k,
{
    if k >= es.len() {
        es.len() as int
    } else if is_tag(es[k], XmlKind::End, run_tag) && depth == 0 {
        k + 1
    } else if is_tag(es[k], XmlKind::Start, run_tag) {
        run_close(es, k + 1, depth + 1, run_tag)
    } else if is_tag(es[k], XmlKind::End, run_tag) {
        run_close(es, k + 1, depth - 1, run_tag)
    } else {
        run_close(es, k + 1, depth, run_tag)
    }
}

/// The text a run shows: its text events inside its text elements, in order.
pub open spec fn text_upto(run: Seq<Ev>, tt: Seq<char>, n: int) -> Seq<char>
    decreases n,
{
    if n <= 0 {
        Seq::empty()
    } else {
        text_upto(run, tt, n - 1) + if run[n - 1].0 == XmlKind::Text && inside_after(run, tt, n - 1) {
            run[n - 1].1
        } else {
            Seq::<char>::empty()
        }
    }
}

pub open spec fn is_rpr(e: Ev, rpr: Seq<char>) -> bool {
    is_tag(e, XmlKind::Start, rpr) || is_tag(e, XmlKind::Empty, rpr)
}

pub open spec fn has_rpr(run: Seq<Ev>, rpr: Seq<char>) -> bool {
    exists|k: int| 0 <= k < run.len() && is_rpr(#[trigger] run[k], rpr)
}

/// A run-properties tag written on its own: an empty tag, or a start tag
/// closed at once.
pub open spec fn rpr_alone(e: Ev) -> Seq<char> {
    if e.0 == XmlKind::Start {
        event_text(e) + event_text((XmlKind::End, tag_name(e.1)))
    } else {
        event_text(e)
    }
}

/// What replaces a run-properties tag: the restyled fragment, read back up
/// to its first error.
pub open spec fn rpr_piece(e: Ev, ch: StyleChanges) -> Seq<char> {
    events_text(trimmed_xml_scan(restyled_xml(encode_utf8(rpr_alone(e)), ch)).0)
}

pub open spec fn font_attrs(ch: StyleChanges) -> Seq<char> {
    match ch.font_name {
        Some(n) => attr_text("ascii"@, n@) + attr_text("hAnsi"@, n@),
        None => Seq::empty(),
    }
}

/// The run-properties tag given to a run that has none.
pub open spec fn new_rpr(rpr: Seq<char>, ch: StyleChanges) -> Ev {
    (XmlKind::Empty, rpr + style_attrs(ch) + font_attrs(ch))
}

/// What the `k`-th event of a matching run becomes.
pub open spec fn run_piece(run: Seq<Ev>, k: int, with_rpr: bool, rpr: Seq<char>, ch: StyleChanges) -> Seq<char> {
    if is_rpr(run[k], rpr) {
        rpr_piece(run[k], ch)
    } else if k == 0 && !with_rpr {
        event_text(run[k]) + event_text(new_rpr(rpr, ch))
    } else {
        event_text(run[k])
    }
}

pub open spec fn pieces(run: Seq<Ev>, n: int, with_rpr: bool, rpr: Seq<char>, ch: StyleChanges) -> Seq<char>
    decreases n,
{
    if n <= 0 {
        Seq::empty()
    } else {
        pieces(run, n - 1, with_rpr, rpr, ch) + run_piece(run, n - 1, with_rpr, rpr, ch)
    }
}

/// A run after a style change: restyled, and read back up to its first
/// error, where its text is not empty and contains `pattern` (or `pattern`
/// is empty); written as it was otherwise.
pub open spec fn styled_run(run: Seq<Ev>, tt: Seq<char>, rpr: Seq<char>, pattern: Seq<char>, ch: StyleChanges) -> Seq<char> {
    let rt = text_upto(run, tt, run.len() as int);
    if (pattern.len() == 0 || contains_seq(rt, pattern)) && rt.len() > 0 {
        events_text(trimmed_xml_scan(encode_utf8(pieces(run, run.len() as int, has_rpr(run, rpr), rpr, ch))).0)
    } else {
        events_text(run)
    }
}

/// The text of the events from `i` on, each run restyled.
pub open spec fn styled_from(es: Seq<Ev>, i: int, tags: (Seq<char>, Seq<char>, Seq<char>), pattern: Seq<char>, ch: StyleChanges) -> Seq<char>
    decreases es.len() - i,
{
    if i < 0 || i >= es.len() {
        Seq::empty()
    } else if is_tag(es[i], XmlKind::Start, tags.0) {
        let j = run_close(es, i + 1, 0, tags.0);
        if j <= i || j > es.len() {
            Seq::empty()
        } else {
            styled_run(es.subrange(i, j), tags.1, tags.2, pattern, ch) + styled_from(es, j, tags, pattern, ch)
        }
    } else {
        event_text(es[i]) + styled_from(es, i + 1, tags, pattern, ch)
    }
}

/// A content part after a style change; a part the tokenizer fails on
/// stays as it was.
pub open spec fn styled_xml(data: Seq<u8>, ext: Seq<char>, pattern: Seq<char>, ch: StyleChanges) -> Seq<u8> {
    if trimmed_xml_scan(data).1 is None {
        encode_utf8(styled_from(trimmed_xml_scan(data).0, 0, style_tags(ext), pattern, ch))
    } else {
        data
    }
}

fn run_end(events: &Vec<XmlEvent>, start: usize, run_tag: &Vec<char>) -> (j: usize)
    requires
        start <= events@.len(),
    ensures
        j == run_close(evs(events@), start as int, 0, run_tag@),
        start <= j <= events@.len(),
{
    let ghost es = evs(events@);
    let mut k = start;
    let mut depth: usize = 0;
    while k < events.len()
        invariant
            start <= k <= events@.len(),
            es == evs(events@),
            depth <= k,
            run_close(es, k as int, depth as int, run_tag@) == run_close(es, start as int, 0, run_tag@),
        decreases events@.len() - k,
    {
        let e = &events[k];
        proof {
            assert(es[k as int] == e@);
        }
        let is_start = is_tag_exec(e, XmlKind::Start, run_tag);
        let is_end = is_tag_exec(e, XmlKind::End, run_tag);
        if is_end && depth == 0 {
            return k + 1;
        }
        if is_start {
            depth = depth + 1;
        } else if is_end {
            depth = depth - 1;
        }
        k = k + 1;
    }
    k
}

fn run_text(events: &Vec<XmlEvent>, lo: usize, hi: usize, tt: &Vec<char>) -> (r: Vec<char>)
    requires
        lo <= hi <= events@.len(),
    ensures
        r@ == text_upto(evs(events@).subrange(lo as int, hi as int), tt@, (hi - lo) as int),
{
    let ghost run = evs(events@).subrange(lo as int, hi as int);
    let mut r: Vec<char> = Vec::new();
    let mut inside = false;
    let mut k = lo;
    while k < hi
        invariant
            lo <= k <= hi <= events@.len(),
            run == evs(events@).subrange(lo as int, hi as int),
            inside == inside_after(run, tt@, k - lo),
            r@ == text_upto(run, tt@, k - lo),
        decreases hi - k,
    {
        let e = &events[k];
        proof {
            assert(run[k - lo] == e@);
        }
        let ghost before = r@;
        if e.kind == XmlKind::Text && inside {
            let t = chars_of(e.content.as_str());
            let mut q: usize = 0;
            while q < t.len()
                invariant
                    q <= t@.len(),
                    r@ == before + t@.subrange(0, q as int),
                decreases t@.len() - q,
            {
                r.push(t[q]);
                q = q + 1;
                proof {
                    assert(r@ =~= before + t@.subrange(0, q as int));
                }
            }
            proof {
                assert(t@.subrange(0, t@.len() as int) =~= t@);
            }
        }
        proof {
            assert(r@ =~= text_upto(run, tt@, k + 1 - lo));
        }
        if is_tag_exec(e, XmlKind::Start, tt) {
            inside = true;
        } else if is_tag_exec(e, XmlKind::End, tt) {
            inside = false;
        }
        k = k + 1;
    }
    r
}

fn run_has_rpr(events: &Vec<XmlEvent>, lo: usize, hi: usize, rpr: &Vec<char>) -> (b: bool)
    requires
        lo <= hi <= events@.len(),
    ensures
        b == has_rpr(evs(events@).subrange(lo as int, hi as int), rpr@),
{
    let ghost run = evs(events@).subrange(lo as int, hi as int);
    let mut k = lo;
    while k < hi
        invariant
            lo <= k <= hi <= events@.len(),
            run == evs(events@).subrange(lo as int, hi as int),
            forall|q: int| 0 <= q < k - lo ==> !is_rpr(#[trigger] run[q], rpr@),
        decreases hi - k,
    {
        let e = &events[k];
        proof {
            assert(run[k - lo] == e@);
        }
        if is_tag_exec(e, XmlKind::Start, rpr) || is_tag_exec(e, XmlKind::Empty, rpr) {
            proof {
                assert(is_rpr(run[k - lo], rpr@));
            }
            return true;
        }
        k = k + 1;
    }
    false
}

fn push_rpr_piece(out: &mut String, e: &XmlEvent, ch: &StyleChanges)
    ensures
        final(out)@ == old(out)@ + rpr_piece(e@, *ch),
{
    let mut alone = String::new();
    push_event(&mut alone, e);
    if e.kind == XmlKind::Start {
        let n = tag_name_chars(e.content.as_str());
        let ns = crate::text::string_of(&n);
        let end = XmlEvent { kind: XmlKind::End, content: ns };
        push_event(&mut alone, &end);
    }
    proof {
        assert(alone@ =~= rpr_alone(e@));
    }
    let bytes = string_bytes(&alone);
    let restyled = style_rpr(bytes.as_slice(), ch);
    let (back, _) = scan_xml(restyled.as_slice());
    push_events(out, &back);
}

fn push_new_rpr(out: &mut String, rpr: &Vec<char>, ch: &StyleChanges)
    ensures
        final(out)@ == old(out)@ + event_text(new_rpr(rpr@, *ch)),
{
    let mut c = crate::text::string_of(rpr);
    push_style_attrs(&mut c, ch);
    match &ch.font_name {
        Some(n) => {
            push_attr(&mut c, "ascii", n.as_str());
            push_attr(&mut c, "hAnsi", n.as_str());
        },
        None => {},
    }
    proof {
        assert(c@ =~= new_rpr(rpr@, *ch).1);
    }
    let e = XmlEvent { kind: XmlKind::Empty, content: c };
    push_event(out, &e);
}

fn styled_run_text(
    events: &Vec<XmlEvent>,
    lo: usize,
    hi: usize,
    tt: &Vec<char>,
    rpr: &Vec<char>,
    pattern: &str,
    ch: &StyleChanges,
) -> (r: String)
    requires
        lo <= hi <= events@.len(),
    ensures
        r@ == styled_run(evs(events@).subrange(lo as int, hi as int), tt@, rpr@, pattern@, *ch),
{
    let ghost run = evs(events@).subrange(lo as int, hi as int);
    let rt = run_text(events, lo, hi, tt);
    let pat = chars_of(pattern);
    let mut out = String::new();
    if (pat.len() == 0 || contains(&rt, &pat)) && rt.len() > 0 {
        let with_rpr = run_has_rpr(events, lo, hi, rpr);
        let mut w2 = String::new();
        let mut k = lo;
        while k < hi
            invariant
                lo <= k <= hi <= events@.len(),
                run == evs(events@).subrange(lo as int, hi as int),
                with_rpr == has_rpr(run, rpr@),
                w2@ == pieces(run, k - lo, with_rpr, rpr@, *ch),
            decreases hi - k,
        {
            let e = &events[k];
            proof {
                assert(run[k - lo] == e@);
            }
            if is_tag_exec(e, XmlKind::Start, rpr) || is_tag_exec(e, XmlKind::Empty, rpr) {
                push_rpr_piece(&mut w2, e, ch);
            } else {
                push_event(&mut w2, e);
                if k == lo && !with_rpr {
                    push_new_rpr(&mut w2, rpr, ch);
                }
            }
            proof {
                assert(w2@ =~= pieces(run, k + 1 - lo, with_rpr, rpr@, *ch));
            }
            k = k + 1;
        }
        let bytes = string_bytes(&w2);
        let (back, _) = scan_xml(bytes.as_slice());
        push_events(&mut out, &back);
    } else {
        let mut k = lo;
        proof {
            assert(run.take(0) =~= Seq::<Ev>::empty());
        }
        while k < hi
            invariant
                lo <= k <= hi <= events@.len(),
                run == evs(events@).subrange(lo as int, hi as int),
                out@ == events_text(run.take(k - lo)),
            decreases hi - k,
        {
            proof {
                assert(run[k - lo] == events@[k as int]@);
                lemma_events_text_take(run, k - lo);
            }
            push_event(&mut out, &events[k]);
            k = k + 1;
        }
        proof {
            assert(run.take(hi - lo) =~= run);
        }
    }
    out
}

/// Applies a style change to every run of a content part whose text
/// contains `pattern`: run properties restyled, or new ones added.
pub fn apply_style_to_xml(data: &[u8], ext: &str, pattern: &str, ch: &StyleChanges) -> (r: Vec<u8>)
    ensures
        r@ == styled_xml(data@, ext@, pattern@, *ch),
{
    let (events, err) = scan_xml(data);
    if err.is_some() {
        return vstd::slice::slice_to_vec(data);
    }
    let docx = str_eq(ext, "docx");
    let run_tag = if docx { chars_of("w:r") } else { chars_of("a:r") };
    let tt = if docx { chars_of("w:t") } else { chars_of("a:t") };
    let rpr = if docx { chars_of("w:rPr") } else { chars_of("a:rPr") };
    let ghost tags = style_tags(ext@);
    proof {
        assert(tags == (run_tag@, tt@, rpr@));
    }
    let ghost es = evs(events@);
    let mut out = String::new();
    let mut i: usize = 0;
    proof {
        assert(out@ + styled_from(es, 0, tags, pattern@, *ch) =~= styled_from(es, 0, tags, pattern@, *ch));
    }
    while i < events.len()
        invariant
            i <= events@.len(),
            es == evs(events@),
            tags == (run_tag@, tt@, rpr@),
            out@ + styled_from(es, i as int, tags, pattern@, *ch) == styled_from(es, 0, tags, pattern@, *ch),
        decreases events@.len() - i,
    {
        let ghost before = out@;
        proof {
            assert(es[i as int] == events@[i as int]@);
        }
        if is_tag_exec(&events[i], XmlKind::Start, &run_tag) {
            let j = run_end(&events, i + 1, &run_tag);
            let chunk = styled_run_text(&events, i, j, &tt, &rpr, pattern, ch);
            push_str(&mut out, chunk.as_str());
            proof {
                assert(before + styled_from(es, i as int, tags, pattern@, *ch) =~= out@ + styled_from(es, j as int, tags, pattern@, *ch));
            }
            i = j;
        } else {
            push_event(&mut out, &events[i]);
            proof {
                assert(before + styled_from(es, i as int, tags, pattern@, *ch) =~= out@ + styled_from(es, i + 1, tags, pattern@, *ch));
            }
            i = i + 1;
        }
    }
    proof {
        assert(out@ =~= out@ + styled_from(es, i as int, tags, pattern@, *ch));
    }
    string_bytes(&out)
}

} // verus!
