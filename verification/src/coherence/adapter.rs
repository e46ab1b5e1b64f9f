use vstd::prelude::*;
use crate::coherence::graph::EntityType;
use crate::text::{
    chars_of, find_from, is_first_from, occurs_at, push_str, seq_eq, string_of_range,
    u64_to_string, decimal,
};

verus! {

/// Index of the first `'_'` at or after `from`, if any.
pub open spec fn underscore_from(s: Seq<char>, from: int) -> Option<int> {
    if exists|i: int| is_first_from(s, seq!['_'], from, i) {
        Some(choose|i: int| is_first_from(s, seq!['_'], from, i))
    } else {
        None
    }
}

/// The part of an entity id before its first `'_'` (the whole id when it
/// has none).
pub open spec fn category_of(id: Seq<char>) -> Seq<char> {
    match underscore_from(id, 0) {
        Some(i) => id.subrange(0, i),
        None => id,
    }
}

/// `t` is the entity type that a category name denotes.
pub open spec fn kind_for(category: Seq<char>, t: EntityType) -> bool {
    if category == "cell"@ {
        t == EntityType::Cell
    } else if category == "section"@ {
        t == EntityType::Section
    } else if category == "slide"@ {
        t == EntityType::Slide
    } else if category == "header"@ {
        t == EntityType::Header
    } else if category == "chart"@ {
        t == EntityType::Chart
    } else if category == "table"@ {
        t == EntityType::Table
    } else if category == "image"@ {
        t == EntityType::Image
    } else {
        t matches EntityType::Custom(s) && s@ == category
    }
}

/// What splitting an id into at most three parts at `'_'` yields when the
/// first part is `cell`: the sheet and the cell reference.
pub open spec fn parsed_cell(id: Seq<char>) -> Option<(Seq<char>, Seq<char>)> {
    match underscore_from(id, 0) {
        None => None,
        Some(i) => match underscore_from(id, i + 1) {
            None => None,
            Some(j) => if id.subrange(0, i) == "cell"@ {
                Some((id.subrange(i + 1, j), id.subrange(j + 1, id.len() as int)))
            } else {
                None
            },
        },
    }
}

pub open spec fn joined3(a: Seq<char>, b: Seq<char>, c: Seq<char>) -> Seq<char> {
    a + b + seq!['_'] + c
}

pub proof fn lemma_first_unique(s: Seq<char>, p: Seq<char>, from: int, i: int)
    requires
        is_first_from(s, p, from, i),
    ensures
        forall|j: int| #[trigger] is_first_from(s, p, from, j) ==> j == i,
{
    assert forall|j: int| #[trigger] is_first_from(s, p, from, j) implies j == i by {
        if j < i {
            assert(!occurs_at(s, p, j));
        } else if i < j {
            assert(!occurs_at(s, p, i));
        }
    }
}

/// Position of the first `'_'` at or after `from`.
fn find_underscore(s: &Vec<char>, from: usize) -> (r: Option<usize>)
    ensures
        match r {
            Some(i) => underscore_from(s@, from as int) == Some(i as int) && i < s.len()
                && s@[i as int] == '_',
            None => underscore_from(s@, from as int) is None,
        },
{
    let u: Vec<char> = vec!['_'];
    assert(u@ =~= seq!['_']);
    let r = find_from(s, &u, from);
    proof {
        match r {
            Some(i) => {
                lemma_first_unique(s@, seq!['_'], from as int, i as int);
                assert(s@.subrange(i as int, i + 1)[0] == s@[i as int]);
            },
            None => {},
        }
    }
    r
}

pub struct EntityAdapter;

impl EntityAdapter {
    /// `cell_<sheet>_<cell>`.
    pub fn cell_to_entity(sheet: &str, cell: &str) -> (r: String)
        ensures
            r@ == joined3("cell_"@, sheet@, cell@),
    {
        let mut r = String::new();
        push_str(&mut r, "cell_");
        push_str(&mut r, sheet);
        push_str(&mut r, "_");
        push_str(&mut r, cell);
        proof {
            reveal_strlit("_");
            assert(r@ =~= joined3("cell_"@, sheet@, cell@));
        }
        r
    }

    /// Splits `cell_<sheet>_<rest>` back into the sheet and the rest.
    pub fn parse_cell_entity(entity_id: &str) -> (r: Option<(String, String)>)
        ensures
            match r {
                Some((a, b)) => parsed_cell(entity_id@) == Some((a@, b@)),
                None => parsed_cell(entity_id@) is None,
            },
    {
        let s = chars_of(entity_id);
        match find_underscore(&s, 0) {
            None => None,
            Some(i) => {
                match find_underscore(&s, i + 1) {
                    None => None,
                    Some(j) => {
                        let head = string_of_range(&s, 0, i);
                        let hv = chars_of(head.as_str());
                        let cell = chars_of("cell");
                        if seq_eq(&hv, &cell) {
                            let a = string_of_range(&s, i + 1, j);
                            let b = string_of_range(&s, j + 1, s.len());
                            Some((a, b))
                        } else {
                            None
                        }
                    },
                }
            },
        }
    }

    /// `section_<doc>_<section_id>`.
    pub fn section_to_entity(doc: &str, section_id: &str) -> (r: String)
        ensures
            r@ == joined3("section_"@, doc@, section_id@),
    {
        let mut r = String::new();
        push_str(&mut r, "section_");
        push_str(&mut r, doc);
        push_str(&mut r, "_");
        push_str(&mut r, section_id);
        proof {
            reveal_strlit("_");
            assert(r@ =~= joined3("section_"@, doc@, section_id@));
        }
        r
    }

    /// `slide_<deck>_<slide_num>`, the number in decimal.
    pub fn slide_to_entity(deck: &str, slide_num: u32) -> (r: String)
        ensures
            r@ == joined3("slide_"@, deck@, decimal(slide_num as nat)),
    {
        let mut r = String::new();
        push_str(&mut r, "slide_");
        push_str(&mut r, deck);
        push_str(&mut r, "_");
        let n = u64_to_string(slide_num as u64);
        push_str(&mut r, n.as_str());
        proof {
            reveal_strlit("_");
            assert(r@ =~= joined3("slide_"@, deck@, decimal(slide_num as nat)));
        }
        r
    }

    /// The entity type named by the part of the id before its first `'_'`.
    pub fn entity_type_from_id(entity_id: &str) -> (t: EntityType)
        ensures
            kind_for(category_of(entity_id@), t),
    {
        let s = chars_of(entity_id);
        let end = match find_underscore(&s, 0) {
            Some(i) => i,
            None => s.len(),
        };
        let cat_string = string_of_range(&s, 0, end);
        proof {
            assert(s@.subrange(0, s@.len() as int) =~= s@);
        }
        let cat = chars_of(cat_string.as_str());
        if seq_eq(&cat, &chars_of("cell")) {
            EntityType::Cell
        } else if seq_eq(&cat, &chars_of("section")) {
            EntityType::Section
        } else if seq_eq(&cat, &chars_of("slide")) {
            EntityType::Slide
        } else if seq_eq(&cat, &chars_of("header")) {
            EntityType::Header
        } else if seq_eq(&cat, &chars_of("chart")) {
            EntityType::Chart
        } else if seq_eq(&cat, &chars_of("table")) {
            EntityType::Table
        } else if seq_eq(&cat, &chars_of("image")) {
            EntityType::Image
        } else {
            EntityType::Custom(cat_string)
        }
    }
}


/// The first `'_'` at or after `from` is at `i`.
pub proof fn lemma_underscore_at(s: Seq<char>, from: int, i: int)
    requires
        0 <= from <= i < s.len(),
        s[i] == '_',
        forall|k: int| from <= k < i ==> s[k] != '_',
    ensures
        underscore_from(s, from) == Some(i),
{
    let u = seq!['_'];
    assert(s.subrange(i, i + 1) =~= u);
    assert forall|j: int| from <= j < i implies !occurs_at(s, u, j) by {
        if occurs_at(s, u, j) {
            assert(s.subrange(j, j + 1)[0] == s[j]);
        }
    }
    assert(is_first_from(s, u, from, i));
    lemma_first_unique(s, u, from, i);
}

/// An id made of a word without `'_'`, a `'_'` and any rest belongs to the
/// category named by that word.
pub proof fn lemma_category_of_prefixed(word: Seq<char>, rest: Seq<char>)
    requires
        !word.contains('_'),
    ensures
        category_of(word + seq!['_'] + rest) == word,
{
    let id = word + seq!['_'] + rest;
    assert forall|k: int| 0 <= k < word.len() implies id[k] != '_' by {
        assert(id[k] == word[k]);
    }
    lemma_underscore_at(id, 0, word.len() as int);
    assert(id.subrange(0, word.len() as int) =~= word);
}

/// Law: the id that `cell_to_entity` builds parses back into the same sheet
/// and cell reference, provided the sheet name holds no `'_'`, and it
/// denotes a cell.
pub proof fn lemma_cell_entity_roundtrip(sheet: Seq<char>, cell: Seq<char>)
    requires
        !sheet.contains('_'),
    ensures
        parsed_cell(joined3("cell_"@, sheet, cell)) == Some((sheet, cell)),
        kind_for(category_of(joined3("cell_"@, sheet, cell)), EntityType::Cell),
{
    reveal_strlit("cell_");
    reveal_strlit("cell");
    let id = joined3("cell_"@, sheet, cell);
    assert(!"cell"@.contains('_')) by {
        if "cell"@.contains('_') {
            let k = choose|k: int| 0 <= k < "cell"@.len() && "cell"@[k] == '_';
        }
    }
    assert(id =~= "cell"@ + seq!['_'] + (sheet + seq!['_'] + cell));
    lemma_category_of_prefixed("cell"@, sheet + seq!['_'] + cell);
    assert(id.subrange(0, 4) =~= "cell"@);
    assert forall|k: int| 5 <= k < 5 + sheet.len() implies id[k] != '_' by {
        assert(id[k] == sheet[k - 5]);
    }
    let n: int = sheet.len() as int;
    assert(id[5 + n] == '_');
    lemma_underscore_at(id, 5, 5 + n);
    assert(id.subrange(5, 5 + n) =~= sheet);
    assert(id.subrange(6 + n, id.len() as int) =~= cell);
}

/// Law: ids built by `section_to_entity` denote sections.
pub proof fn lemma_section_entity_kind(doc: Seq<char>, section_id: Seq<char>)
    ensures
        kind_for(category_of(joined3("section_"@, doc, section_id)), EntityType::Section),
{
    reveal_strlit("section_");
    reveal_strlit("section");
    reveal_strlit("cell");
    let id = joined3("section_"@, doc, section_id);
    assert(!"section"@.contains('_')) by {
        if "section"@.contains('_') {
            let k = choose|k: int| 0 <= k < "section"@.len() && "section"@[k] == '_';
        }
    }
    assert(id =~= "section"@ + seq!['_'] + (doc + seq!['_'] + section_id));
    lemma_category_of_prefixed("section"@, doc + seq!['_'] + section_id);
    assert("section"@ != "cell"@) by {
        assert("section"@.len() != "cell"@.len());
    }
}

/// Law: ids built by `slide_to_entity` denote slides.
pub proof fn lemma_slide_entity_kind(deck: Seq<char>, slide_num: u32)
    ensures
        kind_for(category_of(joined3("slide_"@, deck, decimal(slide_num as nat))), EntityType::Slide),
{
    reveal_strlit("slide_");
    reveal_strlit("slide");
    reveal_strlit("section");
    reveal_strlit("cell");
    let id = joined3("slide_"@, deck, decimal(slide_num as nat));
    assert(!"slide"@.contains('_')) by {
        if "slide"@.contains('_') {
            let k = choose|k: int| 0 <= k < "slide"@.len() && "slide"@[k] == '_';
        }
    }
    assert(id =~= "slide"@ + seq!['_'] + (deck + seq!['_'] + decimal(slide_num as nat)));
    lemma_category_of_prefixed("slide"@, deck + seq!['_'] + decimal(slide_num as nat));
    assert("slide"@ != "cell"@) by {
        assert("slide"@.len() != "cell"@.len());
    }
    assert("slide"@ != "section"@) by {
        assert("slide"@.len() != "section"@.len());
    }
}
} // verus!
