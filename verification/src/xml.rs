use vstd::prelude::*;
use quick_xml::events::Event;
use quick_xml::events::BytesStart;
use quick_xml::Reader;
use crate::text::{chars_of, push_str};
use self::XmlKind::{Start, End, Empty, Text, CData, Comment, Decl, PI, DocType, GeneralRef};

verus! {

/// The kinds of event an XML tokenizer yields.
#[derive(Clone, Copy, PartialEq, Eq, Structural, Debug)]
pub enum XmlKind {
    Start,
    End,
    Empty,
    Text,
    CData,
    Comment,
    Decl,
    PI,
    DocType,
    GeneralRef,
}

/// One XML event: its kind and its raw content, that is the markup
/// between the delimiters (`<` and `>` for a start tag, `</` and `>` for an
/// end tag, ...) or the escaped text.
pub struct XmlEvent {
    pub kind: XmlKind,
    pub content: String,
}

pub type Ev = (XmlKind, Seq<char>);

impl View for XmlEvent {
    type V = Ev;

    open spec fn view(&self) -> Ev {
        (self.kind, self.content@)
    }
}

pub open spec fn evs(v: Seq<XmlEvent>) -> Seq<Ev> {
    v.map_values(|e: XmlEvent| e@)
}

/// What the tokenizer yields on `data`, with text trimming on or off: the
/// events read before the first error, and that error's message (`None`
/// where the end of input was reached without one).
pub uninterp spec fn xml_scan(data: Seq<u8>, trim: bool) -> (Seq<Ev>, Option<Seq<char>>);

/// What the tokenizer yields on `data` with text trimming on.
pub open spec fn trimmed_xml_scan(data: Seq<u8>) -> (Seq<Ev>, Option<Seq<char>>) {
    xml_scan(data, true)
}

pub open spec fn opt_chars(o: Option<String>) -> Option<Seq<char>> {
    match o {
        Some(s) => Some(s@),
        None => None,
    }
}

/// The attributes the tokenizer finds in the content of a start tag, as
/// (key, raw value) pairs, malformed ones left out.
pub uninterp spec fn start_tag_attributes(content: Seq<char>) -> Seq<(Seq<char>, Seq<char>)>;

/// Runs `quick_xml::Reader::read_event` over `data`, with text trimming as
/// asked, until the end of input or the first error.  Trusted: the events
/// are those the reader yields, each with its kind and its `Deref<str>`
/// content; the result is a function of the input and the setting alone.
#[verifier::external_body]
pub(crate) fn scan_xml_events(data: &[u8], trim: bool) -> (r: (Vec<XmlEvent>, Option<String>))
    ensures
        evs(r.0@) == xml_scan(data@, trim).0,
        opt_chars(r.1) == xml_scan(data@, trim).1,
{
    let mut rd = Reader::from_reader(data);
    rd.config_mut().trim_text(trim);
    let mut out = Vec::new();
    loop {
        let ev = match rd.read_event() { Ok(Event::Eof) => return (out, None), Ok(e) => e, Err(e) => return (out, Some(e.to_string())) };
        let kind = match &ev { Event::Start(_) => Start, Event::End(_) => End, Event::Empty(_) => Empty, Event::Text(_) => Text, Event::CData(_) => CData, Event::Comment(_) => Comment, Event::Decl(_) => Decl, Event::PI(_) => PI, Event::DocType(_) => DocType, _ => GeneralRef };
        out.push(XmlEvent { kind, content: ev.to_string() });
    }
}

/// The events of `data`, read with text trimming on.
pub fn scan_xml(data: &[u8]) -> (r: (Vec<XmlEvent>, Option<String>))
    ensures
        evs(r.0@) == trimmed_xml_scan(data@).0,
        opt_chars(r.1) == trimmed_xml_scan(data@).1,
{
    scan_xml_events(data, true)
}

/// Where a reader over `text` (with the default configuration) first fails,
/// and its message: `None` when the text reads to its end.
pub uninterp spec fn xml_syntax_error(text: Seq<char>) -> Option<(nat, Seq<char>)>;

/// Reads events with `quick_xml::Reader::from_str` until the end of the text
/// or the first error, and gives that error's `buffer_position` and message.
/// Trusted: the result is a function of the text alone.
#[verifier::external_body]
pub(crate) fn first_xml_error(text: &str) -> (r: Option<(u64, String)>)
    ensures
        match r {
            Some(e) => xml_syntax_error(text@) == Some((e.0 as nat, e.1@)),
            None => xml_syntax_error(text@) is None,
        },
{
    let mut rd = Reader::from_str(text);
    loop {
        match rd.read_event() { Ok(Event::Eof) => return None, Err(e) => return Some((rd.buffer_position(), e.to_string())), Ok(_) => {} }
    }
}

/// Calls `quick_xml::events::BytesStart::attributes` on a start tag with
/// the given content (name length as the reader computes it) and keeps
/// the attributes that parse.  Trusted: the result is a function of the
/// content alone.
#[verifier::external_body]
pub(crate) fn tag_attributes(content: &str) -> (r: Vec<(String, String)>)
    ensures
        r@.map_values(|a: (String, String)| (a.0@, a.1@)) == start_tag_attributes(content@),
{
    let tag = BytesStart::from_content(content, quick_xml::utils::name_len(content.as_bytes()));
    let mut out = Vec::new();
    for a in tag.attributes() {
        if let Ok(a) = a {
            out.push((a.key.0.to_string(), a.value.to_string()));
        }
    }
    out
}

/// The raw value of the attribute `key` of a start tag, as a lookup that
/// stops at the first malformed attribute finds it.
pub uninterp spec fn start_tag_attribute(content: Seq<char>, key: Seq<char>) -> Option<Seq<char>>;

/// Calls `quick_xml::events::BytesStart::try_get_attribute` on a start tag
/// with the given content.  Trusted: the value found, if any, is a function
/// of the content and the key alone; an error counts as not found.
#[verifier::external_body]
pub(crate) fn tag_attribute(content: &str, key: &str) -> (r: Option<String>)
    ensures
        opt_chars(r) == start_tag_attribute(content@, key@),
{
    let tag = BytesStart::from_content(content, quick_xml::utils::name_len(content.as_bytes()));
    tag.try_get_attribute(key).ok().flatten().map(|a| a.value.to_string())
}

/// The text a predefined entity reference stands for.
pub open spec fn entity_text(name: Seq<char>) -> Option<Seq<char>> {
    if name == "amp"@ {
        Some("&"@)
    } else if name == "lt"@ {
        Some("<"@)
    } else if name == "gt"@ {
        Some(">"@)
    } else if name == "quot"@ {
        Some("\""@)
    } else if name == "apos"@ {
        Some("'"@)
    } else {
        None
    }
}

pub fn entity_chars(name: &str) -> (r: Option<&'static str>)
    ensures
        match entity_text(name@) {
            Some(t) => r matches Some(u) && u@ == t,
            None => r is None,
        },
{
    if crate::text::str_eq(name, "amp") {
        Some("&")
    } else if crate::text::str_eq(name, "lt") {
        Some("<")
    } else if crate::text::str_eq(name, "gt") {
        Some(">")
    } else if crate::text::str_eq(name, "quot") {
        Some("\"")
    } else if crate::text::str_eq(name, "apos") {
        Some("'")
    } else {
        None
    }
}

// ---------------------------------------------------------------------------
// Names and serialized forms
// ---------------------------------------------------------------------------

/// XML whitespace as the tokenizer counts it.
pub open spec fn xml_ws(c: char) -> bool {
    c == ' ' || c == '\r' || c == '\n' || c == '\t'
}

/// Length of the tag name at the start of a tag's content: up to the
/// first XML whitespace.
pub open spec fn name_len(c: Seq<char>) -> int
    decreases c.len(),
{
    if c.len() == 0 || xml_ws(c[0]) {
        0
    } else {
        1 + name_len(c.drop_first())
    }
}

pub open spec fn tag_name(c: Seq<char>) -> Seq<char> {
    c.subrange(0, name_len(c))
}

/// The name an event carries: the tag name of a start or empty tag, the
/// content of an end tag.
pub open spec fn event_name(e: Ev) -> Seq<char> {
    if e.0 == XmlKind::Start || e.0 == XmlKind::Empty {
        tag_name(e.1)
    } else {
        e.1
    }
}

/// How the writer serializes an event.
pub open spec fn event_text(e: Ev) -> Seq<char> {
    let c = e.1;
    match e.0 {
        XmlKind::Start => "<"@ + c + ">"@,
        XmlKind::End => "</"@ + c + ">"@,
        XmlKind::Empty => "<"@ + c + "/>"@,
        XmlKind::Text => c,
        XmlKind::CData => "<![CDATA["@ + c + "]]>"@,
        XmlKind::Comment => "<!--"@ + c + "-->"@,
        XmlKind::Decl => "<?"@ + c + "?>"@,
        XmlKind::PI => "<?"@ + c + "?>"@,
        XmlKind::DocType => "<!DOCTYPE "@ + c + ">"@,
        XmlKind::GeneralRef => "&"@ + c + ";"@,
    }
}

/// The serialized form of a sequence of events.
pub open spec fn events_text(es: Seq<Ev>) -> Seq<char>
    decreases es.len(),
{
    if es.len() == 0 {
        Seq::empty()
    } else {
        events_text(es.drop_last()) + event_text(es.last())
    }
}

pub proof fn lemma_events_text_push(es: Seq<Ev>, e: Ev)
    ensures
        events_text(es.push(e)) == events_text(es) + event_text(e),
{
    assert(es.push(e).drop_last() =~= es);
}

pub proof fn lemma_events_text_take(es: Seq<Ev>, i: int)
    requires
        0 <= i < es.len(),
    ensures
        events_text(es.take(i + 1)) == events_text(es.take(i)) + event_text(es[i]),
{
    assert(es.take(i + 1).drop_last() =~= es.take(i));
}

pub proof fn lemma_events_text_append(a: Seq<Ev>, b: Seq<Ev>)
    ensures
        events_text(a + b) == events_text(a) + events_text(b),
    decreases b.len(),
{
    if b.len() == 0 {
        assert(a + b =~= a);
    } else {
        lemma_events_text_append(a, b.drop_last());
        assert((a + b).drop_last() =~= a + b.drop_last());
        assert(events_text(a) + (events_text(b.drop_last()) + event_text(b.last()))
            =~= (events_text(a) + events_text(b.drop_last())) + event_text(b.last()));
    }
}

/// Appends the serialized form of an event to `out`.
pub fn push_event(out: &mut String, e: &XmlEvent)
    ensures
        final(out)@ == old(out)@ + event_text(e@),
{
    let c = e.content.as_str();
    match e.kind {
        XmlKind::Start => { push_str(out, "<"); push_str(out, c); push_str(out, ">"); },
        XmlKind::End => { push_str(out, "</"); push_str(out, c); push_str(out, ">"); },
        XmlKind::Empty => { push_str(out, "<"); push_str(out, c); push_str(out, "/>"); },
        XmlKind::Text => { push_str(out, c); },
        XmlKind::CData => { push_str(out, "<![CDATA["); push_str(out, c); push_str(out, "]]>"); },
        XmlKind::Comment => { push_str(out, "<!--"); push_str(out, c); push_str(out, "-->"); },
        XmlKind::Decl => { push_str(out, "<?"); push_str(out, c); push_str(out, "?>"); },
        XmlKind::PI => { push_str(out, "<?"); push_str(out, c); push_str(out, "?>"); },
        XmlKind::DocType => { push_str(out, "<!DOCTYPE "); push_str(out, c); push_str(out, ">"); },
        XmlKind::GeneralRef => { push_str(out, "&"); push_str(out, c); push_str(out, ";"); },
    }
    assert(final(out)@ =~= old(out)@ + event_text(e@));
}

/// Appends the serialized form of all `es` to `out`.
pub fn push_events(out: &mut String, es: &Vec<XmlEvent>)
    ensures
        final(out)@ == old(out)@ + events_text(evs(es@)),
{
    let ghost start = out@;
    let mut i: usize = 0;
    proof {
        assert(evs(es@).take(0) =~= Seq::<Ev>::empty());
    }
    while i < es.len()
        invariant
            i <= es@.len(),
            out@ == start + events_text(evs(es@).take(i as int)),
        decreases es@.len() - i,
    {
        push_event(out, &es[i]);
        proof {
            lemma_events_text_take(evs(es@), i as int);
            assert(out@ =~= start + events_text(evs(es@).take(i + 1)));
        }
        i = i + 1;
    }
    proof {
        assert(evs(es@).take(es@.len() as int) =~= evs(es@));
    }
}

/// The tag name at the start of a tag's content.
pub fn tag_name_chars(content: &str) -> (r: Vec<char>)
    ensures
        r@ == tag_name(content@),
{
    let c = chars_of(content);
    let mut r: Vec<char> = Vec::new();
    let mut i: usize = 0;
    proof {
        assert(c@.subrange(0, c@.len() as int) =~= c@);
    }
    while i < c.len() && !(c[i] == ' ' || c[i] == '\r' || c[i] == '\n' || c[i] == '\t')
        invariant
            i <= c@.len(),
            c@ == content@,
            r@ == c@.subrange(0, i as int),
            name_len(c@) == i + name_len(c@.subrange(i as int, c@.len() as int)),
        decreases c@.len() - i,
    {
        proof {
            assert(c@.subrange(i as int, c@.len() as int).drop_first() =~= c@.subrange(i + 1, c@.len() as int));
        }
        r.push(c[i]);
        i = i + 1;
        proof {
            assert(r@ =~= c@.subrange(0, i as int));
        }
    }
    proof {
        let rest = c@.subrange(i as int, c@.len() as int);
        if i < c@.len() {
            assert(rest[0] == c@[i as int]);
        }
        assert(name_len(rest) == 0);
    }
    r
}

/// The name of a start, empty or end tag.
pub fn name_of(e: &XmlEvent) -> (r: Vec<char>)
    ensures
        r@ == event_name(e@),
{
    if e.kind == XmlKind::Start || e.kind == XmlKind::Empty {
        tag_name_chars(e.content.as_str())
    } else {
        chars_of(e.content.as_str())
    }
}

/// Whether an event is a tag of the given kind with the given name.
pub open spec fn is_tag(e: Ev, kind: XmlKind, name: Seq<char>) -> bool {
    e.0 == kind && event_name(e) == name
}

pub fn is_tag_exec(e: &XmlEvent, kind: XmlKind, name: &Vec<char>) -> (b: bool)
    ensures
        b == is_tag(e@, kind, name@),
{
    if e.kind == kind {
        let n = name_of(e);
        crate::text::seq_eq(&n, name)
    } else {
        false
    }
}

// ---------------------------------------------------------------------------
// Escaping
// ---------------------------------------------------------------------------

/// What the text escaper writes for one character.
pub open spec fn escape_char(c: char) -> Seq<char> {
    if c == '<' {
        "&lt;"@
    } else if c == '>' {
        "&gt;"@
    } else if c == '&' {
        "&amp;"@
    } else if c == '\'' {
        "&apos;"@
    } else if c == '"' {
        "&quot;"@
    } else if c == '\r' {
        "&#13;"@
    } else {
        seq![c]
    }
}

/// What the attribute-value escaper writes for one character: as for text,
/// and also tabs and line feeds.
pub open spec fn escape_attr_char(c: char) -> Seq<char> {
    if c == '\n' {
        "&#10;"@
    } else if c == '\t' {
        "&#9;"@
    } else {
        escape_char(c)
    }
}

/// `quick_xml::escape::escape`: each character replaced by its escape.
pub open spec fn escape(s: Seq<char>) -> Seq<char>
    decreases s.len(),
{
    if s.len() == 0 {
        Seq::empty()
    } else {
        escape(s.drop_last()) + escape_char(s.last())
    }
}

/// The escaping applied to an attribute value given as text.
pub open spec fn escape_attribute(s: Seq<char>) -> Seq<char>
    decreases s.len(),
{
    if s.len() == 0 {
        Seq::empty()
    } else {
        escape_attribute(s.drop_last()) + escape_attr_char(s.last())
    }
}

/// Appends `escape(s)` (or, for an attribute value, `escape_attribute(s)`)
/// to `out`.
pub fn push_escaped(out: &mut String, s: &str, attr: bool)
    ensures
        final(out)@ == old(out)@ + (if attr { escape_attribute(s@) } else { escape(s@) }),
{
    let ghost start = out@;
    let cs = chars_of(s);
    let mut i: usize = 0;
    proof {
        assert(cs@.take(0) =~= Seq::<char>::empty());
    }
    while i < cs.len()
        invariant
            i <= cs@.len(),
            cs@ == s@,
            out@ == start + (if attr { escape_attribute(cs@.take(i as int)) } else { escape(cs@.take(i as int)) }),
        decreases cs@.len() - i,
    {
        let c = cs[i];
        if attr && c == '\n' {
            push_str(out, "&#10;");
        } else if attr && c == '\t' {
            push_str(out, "&#9;");
        } else if c == '<' {
            push_str(out, "&lt;");
        } else if c == '>' {
            push_str(out, "&gt;");
        } else if c == '&' {
            push_str(out, "&amp;");
        } else if c == '\'' {
            push_str(out, "&apos;");
        } else if c == '"' {
            push_str(out, "&quot;");
        } else if c == '\r' {
            push_str(out, "&#13;");
        } else {
            out.push(c);
        }
        proof {
            assert(cs@.take(i + 1).drop_last() =~= cs@.take(i as int));
            assert(cs@.take(i + 1).last() == c);
            assert(out@ =~= start + (if attr { escape_attribute(cs@.take(i + 1)) } else { escape(cs@.take(i + 1)) }));
        }
        i = i + 1;
    }
    proof {
        assert(cs@.take(cs@.len() as int) =~= cs@);
    }
}

} // verus!
