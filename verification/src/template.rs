//! Finding the placeholders of a Word template.
use vstd::prelude::*;
use vstd::utf8::{decode_utf8, valid_utf8};
use crate::diff::document_diff::{lex_lt, lemma_lex_total, lowercase, to_lowercase};
use crate::patchers::{parts_view, utf8_decode};
use crate::paths::{file_name_of, name_extension_of, path_extension};
use crate::patterns::{regex_compile_error, regex_error, regex_first_groups, regex_groups};
use crate::text::{chars_of, ends_with, has_suffix, push_str, seq_eq, str_eq, string_of, trim, trim_chars};

verus! {

/// Fills Word templates and finds their placeholders.
pub struct TemplateEngine;

/// The lower-cased extension of a template's path (empty when it has none).
pub open spec fn template_ext(path: Seq<char>) -> Seq<char> {
    lowercase(match path_extension(path) {
        Some(e) => e,
        None => Seq::empty(),
    })
}

/// The refusal of a template that is not a `.docx` file.
pub open spec fn format_refusal(path: Seq<char>) -> Option<Seq<char>> {
    if template_ext(path) == "docx"@ {
        None
    } else {
        Some("Unsupported format: '"@ + template_ext(path) + "'. Only .docx files are supported."@)
    }
}

/// The pattern of a placeholder, `{name}` or `{{name}}`, capturing the name.
pub open spec fn placeholder_regex() -> Seq<char> {
    "\\{\\{?([^}]+)\\}?\\}"@
}

/// Whether a part of the package is searched: XML parts and relationships.
pub open spec fn is_searched_part(name: Seq<char>) -> bool {
    ends_with(name, ".xml"@) || ends_with(name, ".rels"@) || name == "[Content_Types].xml"@
}

/// The names captured, trimmed, blank ones left out.
pub open spec fn group_names(gs: Seq<Option<Seq<char>>>) -> Seq<Seq<char>>
    decreases gs.len(),
{
    if gs.len() == 0 {
        Seq::empty()
    } else {
        group_names(gs.drop_last()) + match gs.last() {
            Some(g) => if trim(g).len() > 0 { seq![trim(g)] } else { Seq::<Seq<char>>::empty() },
            None => Seq::<Seq<char>>::empty(),
        }
    }
}

/// The placeholder names in one part: none unless it is searched and UTF-8.
pub open spec fn part_names(e: (Seq<char>, Seq<u8>)) -> Seq<Seq<char>> {
    if is_searched_part(e.0) && valid_utf8(e.1) {
        group_names(regex_groups(placeholder_regex(), decode_utf8(e.1)))
    } else {
        Seq::empty()
    }
}

/// The placeholder names in all parts, in the order found.
pub open spec fn all_names(es: Seq<(Seq<char>, Seq<u8>)>) -> Seq<Seq<char>>
    decreases es.len(),
{
    if es.len() == 0 {
        Seq::empty()
    } else {
        all_names(es.drop_last()) + part_names(es.last())
    }
}

/// Strictly increasing in code-point order: sorted, with no name twice.
pub open spec fn strictly_sorted(s: Seq<Seq<char>>) -> bool {
    forall|i: int, j: int| 0 <= i < j < s.len() ==> lex_lt(#[trigger] s[i], #[trigger] s[j])
}

pub proof fn lemma_lex_irreflexive(a: Seq<char>)
    ensures
        !lex_lt(a, a),
    decreases a.len(),
{
    if a.len() > 0 {
        lemma_lex_irreflexive(a.drop_first());
    }
}

pub proof fn lemma_lex_transitive(a: Seq<char>, b: Seq<char>, c: Seq<char>)
    requires
        lex_lt(a, b),
        lex_lt(b, c),
    ensures
        lex_lt(a, c),
    decreases a.len(),
{
    if a.len() > 0 && b.len() > 0 && c.len() > 0 && a[0] == b[0] && b[0] == c[0] {
        lemma_lex_transitive(a.drop_first(), b.drop_first(), c.drop_first());
    }
}

fn lex_less_str(a: &Vec<char>, b: &Vec<char>) -> (r: bool)
    ensures
        r == lex_lt(a@, b@),
{
    let mut i: usize = 0;
    proof {
        assert(a@.skip(0) =~= a@);
        assert(b@.skip(0) =~= b@);
    }
    loop
        invariant
            i <= a@.len(),
            i <= b@.len(),
            lex_lt(a@, b@) == lex_lt(a@.skip(i as int), b@.skip(i as int)),
        decreases a@.len() - i,
    {
        if i == a.len() {
            return i < b.len();
        }
        if i == b.len() {
            return false;
        }
        proof {
            assert(a@.skip(i as int)[0] == a@[i as int]);
            assert(b@.skip(i as int)[0] == b@[i as int]);
            assert(a@.skip(i as int).drop_first() =~= a@.skip(i + 1));
            assert(b@.skip(i as int).drop_first() =~= b@.skip(i + 1));
        }
        if a[i] != b[i] {
            return a[i] < b[i];
        }
        i = i + 1;
    }
}

pub open spec fn names_view(v: Seq<String>) -> Seq<Seq<char>> {
    v.map_values(|s: String| s@)
}

/// Adds a name to a strictly sorted list unless it is there already.
fn insert_name(r: &mut Vec<String>, x: &Vec<char>)
    requires
        strictly_sorted(names_view(old(r)@)),
    ensures
        strictly_sorted(names_view(final(r)@)),
        forall|y: Seq<char>| names_view(final(r)@).contains(y) <==> (names_view(old(r)@).contains(y) || y == x@),
{
    let ghost old_v = names_view(r@);
    let mut p: usize = 0;
    while p < r.len() && lex_less_str(&chars_of(r[p].as_str()), x)
        invariant
            p <= r@.len(),
            names_view(r@) == old_v,
            forall|k: int| 0 <= k < p ==> lex_lt(#[trigger] old_v[k], x@),
        decreases r@.len() - p,
    {
        p = p + 1;
    }
    if p < r.len() && seq_eq(&chars_of(r[p].as_str()), x) {
        proof {
            assert(old_v[p as int] == x@);
            assert forall|y: Seq<char>| names_view(r@).contains(y) <==> (old_v.contains(y) || y == x@) by {
                if y == x@ {
                    assert(old_v[p as int] == y);
                }
            }
        }
        return;
    }
    proof {
        if p < old_v.len() {
            lemma_lex_total(old_v[p as int], x@);
            assert(lex_lt(x@, old_v[p as int]));
        }
    }
    r.insert(p, string_of(x));
    proof {
        let nv = names_view(r@);
        assert(nv =~= old_v.insert(p as int, x@));
        assert forall|i: int, j: int| 0 <= i < j < nv.len() implies lex_lt(#[trigger] nv[i], #[trigger] nv[j]) by {
            if j < p {
                assert(nv[i] == old_v[i] && nv[j] == old_v[j]);
            } else if j == p {
                assert(nv[j] == x@ && nv[i] == old_v[i]);
            } else if i < p {
                assert(nv[i] == old_v[i] && nv[j] == old_v[j - 1]);
                if j - 1 == p {
                } else {
                    lemma_lex_transitive(x@, old_v[p as int], old_v[j - 1]);
                    lemma_lex_transitive(old_v[i], x@, old_v[j - 1]);
                }
            } else if i == p {
                assert(nv[i] == x@ && nv[j] == old_v[j - 1]);
                if j - 1 > p {
                    lemma_lex_transitive(x@, old_v[p as int], old_v[j - 1]);
                }
            } else {
                assert(nv[i] == old_v[i - 1] && nv[j] == old_v[j - 1]);
            }
        }
        assert forall|y: Seq<char>| nv.contains(y) <==> (old_v.contains(y) || y == x@) by {
            if nv.contains(y) {
                let k = choose|k: int| 0 <= k < nv.len() && nv[k] == y;
                if k < p {
                    assert(old_v[k] == y);
                } else if k > p {
                    assert(old_v[k - 1] == y);
                }
            }
            if old_v.contains(y) {
                let k = choose|k: int| 0 <= k < old_v.len() && old_v[k] == y;
                if k < p {
                    assert(nv[k] == y);
                } else {
                    assert(nv[k + 1] == y);
                }
            }
            if y == x@ {
                assert(nv[p as int] == y);
            }
        }
    }
}

/// The distinct names of `v`, strictly sorted.
fn sorted_distinct(v: &Vec<String>) -> (r: Vec<String>)
    ensures
        strictly_sorted(names_view(r@)),
        forall|y: Seq<char>| names_view(r@).contains(y) <==> names_view(v@).contains(y),
{
    let ghost vs = names_view(v@);
    let mut r: Vec<String> = Vec::new();
    let mut i: usize = 0;
    while i < v.len()
        invariant
            i <= v@.len(),
            vs == names_view(v@),
            strictly_sorted(names_view(r@)),
            forall|y: Seq<char>| #[trigger] names_view(r@).contains(y) <==> vs.take(i as int).contains(y),
        decreases v@.len() - i,
    {
        let ghost old_r = names_view(r@);
        insert_name(&mut r, &chars_of(v[i].as_str()));
        proof {
            assert forall|y: Seq<char>| #[trigger] names_view(r@).contains(y) <==> vs.take(i + 1).contains(y) by {
                let t0 = vs.take(i as int);
                let t1 = vs.take(i + 1);
                assert(old_r.contains(y) <==> t0.contains(y));
                assert(t1 =~= t0.push(vs[i as int]));
                if t1.contains(y) {
                    let j = choose|j: int| 0 <= j < t1.len() && t1[j] == y;
                    if j < t0.len() {
                        assert(t0[j] == y);
                    }
                }
                if t0.contains(y) {
                    let j = choose|j: int| 0 <= j < t0.len() && t0[j] == y;
                    assert(t1[j] == y);
                }
                if y == vs[i as int] {
                    assert(t1[t0.len() as int] == y);
                }
            }
        }
        i = i + 1;
    }
    proof {
        assert(vs.take(vs.len() as int) =~= vs);
    }
    r
}

impl TemplateEngine {
    pub fn new() -> (r: TemplateEngine) {
        TemplateEngine
    }

    /// Why a template path is refused before it is opened: anything but a
    /// `.docx` extension (compared lower-cased).
    pub fn unsupported_format(input_path: &str) -> (r: Option<String>)
        ensures
            match format_refusal(input_path@) {
                Some(m) => r matches Some(t) && t@ == m,
                None => r is None,
            },
    {
        let p = chars_of(input_path);
        let e: Vec<char> = match file_name_of(&p) {
            Some(n) => match name_extension_of(&n) {
                Some(e) => e,
                None => Vec::new(),
            },
            None => Vec::new(),
        };
        let ext = to_lowercase(string_of(&e).as_str());
        if str_eq(ext.as_str(), "docx") {
            None
        } else {
            let mut m = String::new();
            push_str(&mut m, "Unsupported format: '");
            push_str(&mut m, ext.as_str());
            push_str(&mut m, "'. Only .docx files are supported.");
            Some(m)
        }
    }

    /// The distinct placeholder names (`{name}` or `{{name}}`, the name
    /// trimmed) in the XML and relationship parts of a Word package, sorted.
    pub fn detect_placeholders(entries: &Vec<(String, Vec<u8>)>) -> (r: Result<Vec<String>, String>)
        ensures
            match regex_error(placeholder_regex()) {
                Some(e) => r matches Err(m) && m@ == "Regex error: "@ + e,
                None => r matches Ok(names) && strictly_sorted(names_view(names@))
                    && forall|y: Seq<char>| names_view(names@).contains(y) <==> all_names(parts_view(entries@)).contains(y),
            },
    {
        let pat = "\\{\\{?([^}]+)\\}?\\}";
        match regex_compile_error(pat) {
            Some(e) => {
                let mut m = String::new();
                push_str(&mut m, "Regex error: ");
                push_str(&mut m, e.as_str());
                return Err(m);
            },
            None => {},
        }
        let ghost es = parts_view(entries@);
        let mut found: Vec<String> = Vec::new();
        let mut i: usize = 0;
        while i < entries.len()
            invariant
                i <= entries@.len(),
                es == parts_view(entries@),
                regex_error(placeholder_regex()) is None,
                pat@ == placeholder_regex(),
                names_view(found@) == all_names(es.take(i as int)),
            decreases entries@.len() - i,
        {
            proof {
                assert(es.take(i + 1).drop_last() =~= es.take(i as int));
                assert(es.take(i + 1).last() == es[i as int]);
                assert(es[i as int] == (entries@[i as int].0@, entries@[i as int].1@));
                reveal_strlit(".xml");
                reveal_strlit(".rels");
            }
            let ghost before = names_view(found@);
            let name = entries[i].0.as_str();
            if has_suffix(&chars_of(name), &chars_of(".xml")) || has_suffix(&chars_of(name), &chars_of(".rels"))
                || str_eq(name, "[Content_Types].xml") {
                match utf8_decode(entries[i].1.as_slice()) {
                    Some(text) => {
                        let groups = regex_first_groups(pat, text.as_str());
                        let ghost gs = regex_groups(placeholder_regex(), text@);
                        let mut k: usize = 0;
                        proof {
                            assert(gs.take(0) =~= Seq::<Option<Seq<char>>>::empty());
                            assert(before + group_names(gs.take(0)) =~= before);
                        }
                        while k < groups.len()
                            invariant
                                k <= groups@.len(),
                                groups@.map_values(|g: Option<String>| crate::xml::opt_chars(g)) == gs,
                                names_view(found@) == before + group_names(gs.take(k as int)),
                            decreases groups@.len() - k,
                        {
                            proof {
                                assert(gs.take(k + 1).drop_last() =~= gs.take(k as int));
                                assert(gs.take(k + 1).last() == gs[k as int]);
                                assert(gs[k as int] == crate::xml::opt_chars(groups@[k as int]));
                            }
                            let ghost cur = names_view(found@);
                            match &groups[k] {
                                Some(g) => {
                                    let t = trim_chars(&chars_of(g.as_str()));
                                    if t.len() > 0 {
                                        found.push(string_of(&t));
                                        proof {
                                            assert(names_view(found@) =~= cur.push(t@));
                                            assert(before + group_names(gs.take(k + 1)) =~= (before + group_names(gs.take(k as int))).push(t@));
                                        }
                                    } else {
                                        proof {
                                            assert(before + group_names(gs.take(k + 1)) =~= before + group_names(gs.take(k as int)));
                                        }
                                    }
                                },
                                None => {
                                    proof {
                                        assert(before + group_names(gs.take(k + 1)) =~= before + group_names(gs.take(k as int)));
                                    }
                                },
                            }
                            k = k + 1;
                        }
                        proof {
                            assert(gs.take(gs.len() as int) =~= gs);
                        }
                    },
                    None => {
                        proof {
                            assert(before + part_names(es[i as int]) =~= before);
                        }
                    },
                }
            } else {
                proof {
                    assert(before + part_names(es[i as int]) =~= before);
                }
            }
            i = i + 1;
        }
        proof {
            assert(es.take(es.len() as int) =~= es);
        }
        let r = sorted_distinct(&found);
        Ok(r)
    }
}

} // verus!
