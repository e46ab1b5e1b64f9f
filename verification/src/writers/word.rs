//! What the Word writers compute around the document model: currency
//! symbols, and the repair of a package's document relationships.
use vstd::prelude::*;
use crate::text::{chars_of, first_at, find_at, lossy_text, slice_chars, str_bytes, str_eq, string_of, utf8_lossy};

verus! {

/// The symbol shown for a currency code; the dollar sign for codes it does
/// not know.
pub open spec fn symbol_of(code: Seq<char>) -> Seq<char> {
    if code == "USD"@ {
        "$"@
    } else if code == "EUR"@ {
        "€"@
    } else if code == "GBP"@ {
        "£"@
    } else if code == "JPY"@ {
        "¥"@
    } else if code == "VND"@ {
        "₫"@
    } else {
        "$"@
    }
}

pub fn currency_symbol(code: &str) -> (r: &'static str)
    ensures
        r@ == symbol_of(code@),
{
    if crate::text::str_eq(code, "USD") {
        "$"
    } else if crate::text::str_eq(code, "EUR") {
        "€"
    } else if crate::text::str_eq(code, "GBP") {
        "£"
    } else if crate::text::str_eq(code, "JPY") {
        "¥"
    } else if crate::text::str_eq(code, "VND") {
        "₫"
    } else {
        "$"
    }
}

// ---------------------------------------------------------------------------
// Repairing the document relationships
// ---------------------------------------------------------------------------

/// The relationships text with a second opening `<Relationships` tag (one
/// after the first character) removed: everything up to the end of the
/// first tag (as found before the second), then everything after the end
/// of the second tag.  Text with no second tag is unchanged.
pub open spec fn fixed_rels(s: Seq<char>) -> Seq<char> {
    match first_at(s, "<Relationships"@, 1) {
        Some(p) => {
            let first_end = match first_at(s.take(p + 6), ">"@, 0) {
                Some(e) => e,
                None => 0,
            };
            let second = s.skip(p);
            let second_close = match first_at(second, ">"@, 0) {
                Some(c) => c,
                None => 0,
            };
            s.take(first_end + 1) + second.skip(second_close + 1)
        },
        None => s,
    }
}

/// The name of the part whose relationships are repaired.
pub open spec fn rels_part() -> Seq<char> {
    "word/_rels/document.xml.rels"@
}

/// Repairs a doubled opening `<Relationships` tag, as some writers leave
/// in a document's relationships.  The text must start with an ASCII
/// character (it is cut after its first byte).
pub fn fix_rels_text(s: &str) -> (r: String)
    requires
        s@.len() > 0,
        (s@[0] as u32) < 0x80,
    ensures
        r@ == fixed_rels(s@),
{
    let cs = chars_of(s);
    let tag = chars_of("<Relationships");
    let gt = chars_of(">");
    proof {
        reveal_strlit("<Relationships");
        reveal_strlit(">");
    }
    match find_at(&cs, &tag, 1) {
        Some(p) => {
            let head = slice_chars(&cs, 0, p + 6);
            let first_end: usize = match find_at(&head, &gt, 0) {
                Some(e) => e,
                None => 0,
            };
            let second = slice_chars(&cs, p, cs.len());
            let second_close: usize = match find_at(&second, &gt, 0) {
                Some(c) => c,
                None => 0,
            };
            proof {
                assert(head@ =~= cs@.take(p + 6));
                assert(second@ =~= cs@.skip(p as int));
            }
            let mut out = string_of(&slice_chars(&cs, 0, first_end + 1));
            let rest = slice_chars(&second, second_close + 1, second.len());
            crate::text::push_str(&mut out, string_of(&rest).as_str());
            proof {
                assert(out@ =~= fixed_rels(s@));
            }
            out
        },
        None => s.to_owned(),
    }
}

/// A package with its document relationships repaired (`fixed_rels` of the
/// part read leniently as UTF-8); every other part unchanged.  Each such
/// part must start with an ASCII byte.
pub fn fix_docx_rels(entries: Vec<(String, Vec<u8>)>) -> (r: Vec<(String, Vec<u8>)>)
    requires
        forall|i: int| 0 <= i < entries@.len() && (#[trigger] entries@[i]).0@ == rels_part()
            ==> entries@[i].1@.len() > 0 && entries@[i].1@[0] < 0x80,
    ensures
        r@.len() == entries@.len(),
        forall|i: int| 0 <= i < r@.len() ==> (#[trigger] r@[i]).0@ == entries@[i].0@
            && r@[i].1@ == if entries@[i].0@ == rels_part() {
                vstd::utf8::encode_utf8(fixed_rels(lossy_text(entries@[i].1@)))
            } else {
                entries@[i].1@
            },
{
    let mut out: Vec<(String, Vec<u8>)> = Vec::new();
    let mut rest = entries;
    let ghost orig = rest@;
    let mut i: usize = 0;
    while i < rest.len()
        invariant
            i <= rest@.len(),
            rest@ == orig,
            forall|j: int| 0 <= j < orig.len() && (#[trigger] orig[j]).0@ == rels_part()
                ==> orig[j].1@.len() > 0 && orig[j].1@[0] < 0x80,
            out@.len() == i,
            forall|j: int| 0 <= j < i ==> (#[trigger] out@[j]).0@ == orig[j].0@
                && out@[j].1@ == if orig[j].0@ == rels_part() {
                    vstd::utf8::encode_utf8(fixed_rels(lossy_text(orig[j].1@)))
                } else {
                    orig[j].1@
                },
        decreases rest@.len() - i,
    {
        let name = rest[i].0.as_str().to_owned();
        if str_eq(name.as_str(), "word/_rels/document.xml.rels") {
            let text = utf8_lossy(rest[i].1.as_slice());
            let fixed = fix_rels_text(text.as_str());
            out.push((name, str_bytes(fixed.as_str())));
        } else {
            let mut data: Vec<u8> = Vec::new();
            let src = &rest[i].1;
            let mut k: usize = 0;
            while k < src.len()
                invariant
                    k <= src@.len(),
                    data@ == src@.take(k as int),
                decreases src@.len() - k,
            {
                data.push(src[k]);
                k = k + 1;
                proof {
                    assert(data@ =~= src@.take(k as int));
                }
            }
            proof {
                assert(src@.take(src@.len() as int) =~= src@);
            }
            out.push((name, data));
        }
        i = i + 1;
    }
    out
}

} // verus!
