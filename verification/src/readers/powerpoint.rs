use vstd::prelude::*;
use crate::json::{JsonNumber, JsonValue};
use crate::text::{chars_of, decimal, push_range, push_str, trim, trim_chars, u64_to_string};

verus! {

pub struct JsonDocument {
    pub file: String,
    pub format: String,
    pub slide_count: usize,
    pub slides: Vec<SlideJson>,
}

pub struct SlideJson {
    pub slide_number: usize,
    pub name: String,
    pub notes: Option<String>,
    pub background_rgb: Option<[u8; 3]>,
    pub shapes: Vec<ShapeJson>,
}

/// A shape of a slide: text boxes carry their paragraphs' text, one per line.
pub enum ShapeJson {
    Text { name: String, text: String, alt_text: Option<String>, placeholder_type: Option<String> },
    Image { name: String, alt_text: Option<String>, format: Option<String> },
    Table { name: String, rows: Vec<Vec<String>> },
    Group { name: String, children: Vec<ShapeJson> },
    Connector { name: String },
    UnknownGraphic { name: String },
}

/// A slide as a chunk for retrieval.
pub struct Chunk {
    pub index: usize,
    pub text: String,
    pub metadata: JsonValue,
}

/// The text of a text box, when it has some.
pub open spec fn shape_text(s: ShapeJson) -> Seq<char> {
    match s {
        ShapeJson::Text { text, .. } => text@,
        _ => Seq::empty(),
    }
}

/// The non-empty texts of a slide's text boxes, each followed by `sep`.
pub open spec fn shapes_text(shapes: Seq<ShapeJson>, sep: Seq<char>) -> Seq<char>
    decreases shapes.len(),
{
    if shapes.len() == 0 {
        Seq::empty()
    } else {
        shapes_text(shapes.drop_last(), sep) + if shape_text(shapes.last()).len() == 0 {
            Seq::<char>::empty()
        } else {
            shape_text(shapes.last()) + sep
        }
    }
}

pub open spec fn slide_md(s: SlideJson, n: nat) -> Seq<char> {
    "## Slide "@ + decimal(n) + "\n\n"@ + shapes_text(s.shapes@, "\n\n"@) + match s.notes {
        Some(t) => "> **Speaker Notes:** "@ + t@ + "\n\n"@,
        None => Seq::empty(),
    } + "---\n\n"@
}

pub open spec fn slides_md(slides: Seq<SlideJson>) -> Seq<char>
    decreases slides.len(),
{
    if slides.len() == 0 {
        Seq::empty()
    } else {
        slides_md(slides.drop_last()) + slide_md(slides.last(), slides.len())
    }
}

/// A presentation in Markdown: a title, then each slide with its text boxes
/// and speaker notes, separated by rules.
pub open spec fn presentation_md(d: JsonDocument) -> Seq<char> {
    "# Presentation\n\n---\n\n"@ + slides_md(d.slides@)
}

fn push_shapes(out: &mut String, shapes: &Vec<ShapeJson>, sep: &str)
    ensures
        final(out)@ == old(out)@ + shapes_text(shapes@, sep@),
{
    let ghost start = old(out)@;
    let mut i: usize = 0;
    proof {
        assert(shapes@.take(0) =~= Seq::<ShapeJson>::empty());
    }
    while i < shapes.len()
        invariant
            i <= shapes@.len(),
            out@ == start + shapes_text(shapes@.take(i as int), sep@),
        decreases shapes@.len() - i,
    {
        proof {
            assert(shapes@.take(i + 1).drop_last() =~= shapes@.take(i as int));
        }
        match &shapes[i] {
            ShapeJson::Text { text, .. } => {
                if text.unicode_len() > 0 {
                    push_str(out, text.as_str());
                    push_str(out, sep);
                }
            },
            _ => {},
        }
        i = i + 1;
    }
    proof {
        assert(shapes@.take(shapes@.len() as int) =~= shapes@);
    }
}

/// The Markdown of a presentation as read.
pub fn read_ppt_to_md(doc: &JsonDocument) -> (r: String)
    requires
        doc.slides@.len() < u64::MAX,
    ensures
        r@ == presentation_md(*doc),
{
    let mut m = String::new();
    push_str(&mut m, "# Presentation\n\n---\n\n");
    let ghost head = m@;
    let mut i: usize = 0;
    proof {
        assert(doc.slides@.take(0) =~= Seq::<SlideJson>::empty());
    }
    while i < doc.slides.len()
        invariant
            i <= doc.slides@.len(),
            doc.slides@.len() < u64::MAX,
            m@ == head + slides_md(doc.slides@.take(i as int)),
        decreases doc.slides@.len() - i,
    {
        proof {
            assert(doc.slides@.take(i + 1).drop_last() =~= doc.slides@.take(i as int));
        }
        let s = &doc.slides[i];
        let ghost before = m@;
        push_str(&mut m, "## Slide ");
        let n = u64_to_string(i as u64 + 1);
        push_str(&mut m, n.as_str());
        push_str(&mut m, "\n\n");
        push_shapes(&mut m, &s.shapes, "\n\n");
        match &s.notes {
            Some(t) => {
                push_str(&mut m, "> **Speaker Notes:** ");
                push_str(&mut m, t.as_str());
                push_str(&mut m, "\n\n");
            },
            None => {},
        }
        push_str(&mut m, "---\n\n");
        proof {
            assert(m@ =~= before + slide_md(*s, (i + 1) as nat));
        }
        i = i + 1;
    }
    proof {
        assert(doc.slides@.take(doc.slides@.len() as int) =~= doc.slides@);
    }
    m
}

/// The text of a slide's chunk: a heading with its name (or `Slide <n>`),
/// its text boxes one per line, its notes; trimmed.
pub open spec fn chunk_text(s: SlideJson, n: nat) -> Seq<char> {
    trim("# "@ + (if s.name@.len() == 0 { "Slide "@ + decimal(n) } else { s.name@ }) + "\n\n"@
        + shapes_text(s.shapes@, seq!['\n']) + match s.notes {
        Some(t) => "Speaker Notes: "@ + t@ + seq!['\n'],
        None => Seq::empty(),
    })
}

/// The chunk metadata: whether the slide has notes, and its number.
pub open spec fn chunk_metadata(m: JsonValue, has_notes: bool, n: u64) -> bool {
    match m {
        JsonValue::Object(fields) => {
            &&& fields@.len() == 2
            &&& fields@[0].0@ == "has_notes"@
            &&& fields@[0].1 == JsonValue::Bool(has_notes)
            &&& fields@[1].0@ == "slide_number"@
            &&& fields@[1].1 == JsonValue::Number(JsonNumber::PosInt(n))
        },
        _ => false,
    }
}

/// One chunk per slide.
pub fn read_ppt_to_chunks(doc: &JsonDocument) -> (r: Vec<Chunk>)
    requires
        doc.slides@.len() < u64::MAX,
    ensures
        r@.len() == doc.slides@.len(),
        forall|i: int| 0 <= i < r@.len() ==> {
            &&& (#[trigger] r@[i]).index == i
            &&& r@[i].text@ == chunk_text(doc.slides@[i], (i + 1) as nat)
            &&& chunk_metadata(r@[i].metadata, doc.slides@[i].notes is Some, (i + 1) as u64)
        },
{
    let mut out: Vec<Chunk> = Vec::new();
    let mut i: usize = 0;
    while i < doc.slides.len()
        invariant
            i <= doc.slides@.len(),
            doc.slides@.len() < u64::MAX,
            out@.len() == i,
            forall|j: int| 0 <= j < i ==> {
                &&& (#[trigger] out@[j]).index == j
                &&& out@[j].text@ == chunk_text(doc.slides@[j], (j + 1) as nat)
                &&& chunk_metadata(out@[j].metadata, doc.slides@[j].notes is Some, (j + 1) as u64)
            },
        decreases doc.slides@.len() - i,
    {
        let s = &doc.slides[i];
        let mut t = String::new();
        push_str(&mut t, "# ");
        let n = u64_to_string(i as u64 + 1);
        if s.name.unicode_len() == 0 {
            push_str(&mut t, "Slide ");
            push_str(&mut t, n.as_str());
        } else {
            push_str(&mut t, s.name.as_str());
        }
        push_str(&mut t, "\n\n");
        proof {
            assert("\n"@ =~= seq!['\n']) by {
                reveal_strlit("\n");
            }
        }
        push_shapes(&mut t, &s.shapes, "\n");
        match &s.notes {
            Some(nt) => {
                push_str(&mut t, "Speaker Notes: ");
                push_str(&mut t, nt.as_str());
                t.push('\n');
            },
            None => {},
        }
        proof {
            assert(t@ =~= "# "@ + (if s.name@.len() == 0 { "Slide "@ + decimal((i + 1) as nat) } else { s.name@ })
                + "\n\n"@ + shapes_text(s.shapes@, seq!['\n']) + match s.notes {
                Some(nt) => "Speaker Notes: "@ + nt@ + seq!['\n'],
                None => Seq::empty(),
            });
        }
        let tv = chars_of(t.as_str());
        let tr = trim_chars(&tv);
        let mut text = String::new();
        push_range(&mut text, &tr, 0, tr.len());
        proof {
            assert(tr@.subrange(0, tr@.len() as int) =~= tr@);
        }
        let mut fields: Vec<(String, JsonValue)> = Vec::new();
        fields.push(("has_notes".to_owned(), JsonValue::Bool(s.notes.is_some())));
        fields.push(("slide_number".to_owned(), JsonValue::Number(JsonNumber::PosInt(i as u64 + 1))));
        let c = Chunk { index: i, text, metadata: JsonValue::Object(fields) };
        assert(chunk_metadata(c.metadata, s.notes is Some, (i + 1) as u64));
        out.push(c);
        i = i + 1;
    }
    out
}

} // verus!
