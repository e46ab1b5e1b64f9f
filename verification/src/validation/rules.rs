use vstd::prelude::*;
use vstd::utf8::{valid_utf8, decode_utf8};
use crate::json::{JsonValue, JsonNumber, json_get, json_str, json_u64};
use crate::paths::{lower_ext, lower_extension};
use crate::text::{
    chars_of, contains, contains_seq, count_matches, count_occ, decimal, has_prefix, has_suffix,
    join, join_strings, push_str, seq_eq, starts_with, ends_with, str_eq, string_of, strings_view,
    trim_start, leading_ws, slice_chars, u64_to_string, trim_leading, trim_leading_chars,
    lemma_count_bound,
};
use crate::patterns::{regex_error, regex_found, regex_compile_error, regex_find_all};
use super::{
    ArchiveEntry, ArchiveRead, FileFacts, ValidationCheck, entry_text, entry_index, has_entry,
    named_text, find_entry, text_of, text_named, plain_check, make_check, message, message3,
    opt_view,
};

verus! {

/// The message for a file that does not exist.
pub open spec fn not_found_text(fp: Seq<char>) -> Seq<char> {
    "File not found: "@ + fp
}

fn not_found_check(rule: &str, fp: &str) -> (c: ValidationCheck)
    ensures
        plain_check(c, rule@, false, not_found_text(fp@)),
{
    make_check(rule, false, message("File not found: ", fp))
}

// ---------------------------------------------------------------------------
// Archive structure
// ---------------------------------------------------------------------------

pub open spec fn office_format(ext: Seq<char>) -> bool {
    ext == "docx"@ || ext == "xlsx"@ || ext == "pptx"@ || ext == "doc"@ || ext == "xls"@ || ext == "ppt"@
}

/// The first four bytes are a ZIP signature.
pub open spec fn zip_magic(m: Option<Vec<u8>>) -> bool {
    match m {
        Some(b) => b@.len() >= 4 && b@[0] == 0x50 && b@[1] == 0x4B && ((b@[2] == 3 && b@[3] == 4) || (b@[2] == 5
            && b@[3] == 6) || (b@[2] == 7 && b@[3] == 8)),
        None => false,
    }
}

/// The part a format cannot do without, besides `[Content_Types].xml`.
pub open spec fn main_part(ext: Seq<char>) -> Option<Seq<char>> {
    if ext == "docx"@ || ext == "doc"@ {
        Some("word/document.xml"@)
    } else if ext == "pptx"@ || ext == "ppt"@ {
        Some("ppt/presentation.xml"@)
    } else if ext == "xlsx"@ || ext == "xls"@ {
        Some("xl/workbook.xml"@)
    } else {
        None
    }
}

pub open spec fn missing_parts(es: Seq<ArchiveEntry>, ext: Seq<char>) -> Seq<Seq<char>> {
    (if has_entry(es, "[Content_Types].xml"@) {
        Seq::<Seq<char>>::empty()
    } else {
        seq!["[Content_Types].xml"@]
    }) + match main_part(ext) {
        Some(p) => if has_entry(es, p) {
            Seq::<Seq<char>>::empty()
        } else {
            seq![p]
        },
        None => Seq::<Seq<char>>::empty(),
    }
}

pub open spec fn empty_xml(e: ArchiveEntry) -> bool {
    e.size == 0 && ends_with(e.name@, ".xml"@)
}

/// An XML entry whose bytes were read and either are not UTF-8 or do not
/// start, after white space, with markup.
pub open spec fn malformed_xml(e: ArchiveEntry) -> bool {
    &&& !empty_xml(e)
    &&& ends_with(e.name@, ".xml"@)
    &&& e.data is Some
    &&& match entry_text(e) {
        Some(t) => !starts_with(trim_start(t), "<?xml"@) && !starts_with(trim_start(t), "<"@),
        None => true,
    }
}

/// Names of the first `n` entries that satisfy `malformed_xml` (`empty` false) or
/// `empty_xml` (`empty` true).
pub open spec fn flagged(es: Seq<ArchiveEntry>, n: int, empty: bool) -> Seq<Seq<char>>
    decreases n,
{
    if n <= 0 {
        Seq::empty()
    } else {
        flagged(es, n - 1, empty) + if (empty && empty_xml(es[n - 1])) || (!empty && malformed_xml(es[n - 1])) {
            seq![es[n - 1].name@]
        } else {
            Seq::<Seq<char>>::empty()
        }
    }
}

/// The report's parts, each present where its list is not empty.
pub open spec fn labelled(label: Seq<char>, items: Seq<Seq<char>>) -> Seq<Seq<char>> {
    if items.len() == 0 {
        Seq::empty()
    } else {
        seq![label + join(items, ", "@)]
    }
}

/// What the archive-structure rule finds: whether it passes, and its details.
pub open spec fn ooxml_outcome(fp: Seq<char>, f: FileFacts) -> (bool, Seq<char>) {
    let ext = lower_ext(fp);
    if !f.exists {
        (false, not_found_text(fp))
    } else if !office_format(ext) {
        (true, "OOXML check skipped for non-OOXML format: ."@ + ext)
    } else if !zip_magic(f.magic) {
        (false, "Not a valid ZIP archive (bad magic bytes)"@)
    } else {
        match f.archive {
            ArchiveRead::FileError(e) => (false, "Cannot open file: "@ + e@),
            ArchiveRead::ZipError(e) => (false, "Invalid ZIP archive: "@ + e@),
            ArchiveRead::Opened { entries, total } => {
                let es = entries@;
                let missing = missing_parts(es, ext);
                let malformed = flagged(es, es.len() as int, false);
                let empty = flagged(es, es.len() as int, true);
                if missing.len() == 0 && malformed.len() == 0 && empty.len() == 0 {
                    (true, "Valid OOXML archive with "@ + decimal(total as nat) + " entries"@)
                } else {
                    (false, join(
                        labelled("Missing parts: "@, missing) + labelled("Malformed XML: "@, malformed) + labelled(
                            "Empty entries: "@,
                            empty,
                        ),
                        "; "@,
                    ))
                }
            },
        }
    }
}

fn zip_magic_exec(m: &Option<Vec<u8>>) -> (b: bool)
    ensures
        b == zip_magic(*m),
{
    match m {
        Some(b) => b.len() >= 4 && b[0] == 0x50 && b[1] == 0x4B && ((b[2] == 3 && b[3] == 4) || (b[2] == 5
            && b[3] == 6) || (b[2] == 7 && b[3] == 8)),
        None => false,
    }
}

fn is_office(ext: &str) -> (b: bool)
    ensures
        b == office_format(ext@),
{
    str_eq(ext, "docx") || str_eq(ext, "xlsx") || str_eq(ext, "pptx") || str_eq(ext, "doc") || str_eq(ext, "xls")
        || str_eq(ext, "ppt")
}

fn ends_xml(name: &str) -> (b: bool)
    ensures
        b == ends_with(name@, ".xml"@),
{
    has_suffix(&chars_of(name), &chars_of(".xml"))
}

fn is_malformed(e: &ArchiveEntry) -> (b: bool)
    ensures
        b == malformed_xml(*e),
{
    if (e.size == 0 && ends_xml(e.name.as_str())) || !ends_xml(e.name.as_str()) || e.data.is_none() {
        return false;
    }
    match text_of(e) {
        Some(t) => {
            let cs = chars_of(t.as_str());
            let n = leading_ws(&cs);
            let trimmed = slice_chars(&cs, n, cs.len());
            !has_prefix(&trimmed, &chars_of("<?xml")) && !has_prefix(&trimmed, &chars_of("<"))
        },
        None => true,
    }
}

fn flagged_names(es: &Vec<ArchiveEntry>, empty: bool) -> (r: Vec<String>)
    ensures
        strings_view(r@) == flagged(es@, es@.len() as int, empty),
{
    let mut out: Vec<String> = Vec::new();
    let mut i: usize = 0;
    while i < es.len()
        invariant
            i <= es@.len(),
            strings_view(out@) == flagged(es@, i as int, empty),
        decreases es@.len() - i,
    {
        let e = &es[i];
        let hit = if empty {
            e.size == 0 && ends_xml(e.name.as_str())
        } else {
            is_malformed(e)
        };
        let ghost before = out@;
        if hit {
            out.push(e.name.clone());
        }
        proof {
            assert(strings_view(out@) =~= flagged(es@, i + 1, empty));
        }
        i = i + 1;
    }
    out
}

fn push_labelled(parts: &mut Vec<String>, label: &str, items: &Vec<String>)
    ensures
        strings_view(final(parts)@) == strings_view(old(parts)@) + labelled(label@, strings_view(items@)),
{
    if items.len() > 0 {
        let j = join_strings(items, ", ");
        let m = message(label, j.as_str());
        parts.push(m);
        proof {
            assert(strings_view(final(parts)@) =~= strings_view(old(parts)@) + labelled(label@, strings_view(items@)));
        }
    } else {
        proof {
            assert(strings_view(final(parts)@) =~= strings_view(old(parts)@) + labelled(label@, strings_view(items@)));
        }
    }
}

/// Checks that a file is an OOXML archive with its required parts and
/// well-formed, non-empty XML entries.
pub fn ooxml_valid(file_path: &str, facts: &FileFacts) -> (c: ValidationCheck)
    ensures
        plain_check(c, "ooxml_valid"@, ooxml_outcome(file_path@, *facts).0, ooxml_outcome(file_path@, *facts).1),
{
    let rule = "ooxml_valid";
    if !facts.exists {
        return not_found_check(rule, file_path);
    }
    let ext = string_of(&lower_extension(file_path));
    if !is_office(ext.as_str()) {
        return make_check(rule, true, message("OOXML check skipped for non-OOXML format: .", ext.as_str()));
    }
    if !zip_magic_exec(&facts.magic) {
        return make_check(rule, false, "Not a valid ZIP archive (bad magic bytes)".to_owned());
    }
    match &facts.archive {
        ArchiveRead::FileError(e) => make_check(rule, false, message("Cannot open file: ", e.as_str())),
        ArchiveRead::ZipError(e) => make_check(rule, false, message("Invalid ZIP archive: ", e.as_str())),
        ArchiveRead::Opened { entries, total } => {
            let mut missing: Vec<String> = Vec::new();
            if find_entry(entries, "[Content_Types].xml").is_none() {
                missing.push("[Content_Types].xml".to_owned());
            }
            let main = if str_eq(ext.as_str(), "docx") || str_eq(ext.as_str(), "doc") {
                Some("word/document.xml")
            } else if str_eq(ext.as_str(), "pptx") || str_eq(ext.as_str(), "ppt") {
                Some("ppt/presentation.xml")
            } else if str_eq(ext.as_str(), "xlsx") || str_eq(ext.as_str(), "xls") {
                Some("xl/workbook.xml")
            } else {
                None
            };
            match main {
                Some(p) => {
                    if find_entry(entries, p).is_none() {
                        missing.push(p.to_owned());
                    }
                },
                None => {},
            }
            proof {
                assert(strings_view(missing@) =~= missing_parts(entries@, ext@));
            }
            let malformed = flagged_names(entries, false);
            let empty = flagged_names(entries, true);
            if missing.len() == 0 && malformed.len() == 0 && empty.len() == 0 {
                let n = u64_to_string(*total as u64);
                make_check(rule, true, message3("Valid OOXML archive with ", n.as_str(), " entries"))
            } else {
                let mut parts: Vec<String> = Vec::new();
                push_labelled(&mut parts, "Missing parts: ", &missing);
                push_labelled(&mut parts, "Malformed XML: ", &malformed);
                push_labelled(&mut parts, "Empty entries: ", &empty);
                proof {
                    assert(strings_view(parts@) =~= labelled("Missing parts: "@, strings_view(missing@))
                        + labelled("Malformed XML: "@, strings_view(malformed@)) + labelled(
                        "Empty entries: "@,
                        strings_view(empty@),
                    ));
                }
                make_check(rule, false, join_strings(&parts, "; "))
            }
        },
    }
}

// ---------------------------------------------------------------------------
// Style definitions
// ---------------------------------------------------------------------------

/// The parts that hold a format's styles.
pub open spec fn style_parts(ext: Seq<char>) -> Option<Seq<Seq<char>>> {
    if ext == "docx"@ {
        Some(seq!["word/styles.xml"@])
    } else if ext == "pptx"@ {
        Some(seq!["ppt/styles.xml"@, "ppt/theme/theme1.xml"@])
    } else if ext == "xlsx"@ {
        Some(seq!["xl/styles.xml"@])
    } else {
        None
    }
}

/// Whether a style part defines or uses the style `id`.
pub open spec fn style_in(t: Seq<char>, id: Seq<char>) -> bool {
    contains_seq(t, "w:styleId=\""@ + id + "\""@) || contains_seq(t, "w:val=\""@ + id + "\""@)
}

pub open spec fn style_found(es: Seq<ArchiveEntry>, paths: Seq<Seq<char>>, id: Seq<char>) -> bool {
    exists|k: int| 0 <= k < paths.len() && match named_text(es, #[trigger] paths[k]) {
        Some(t) => style_in(t, id),
        None => false,
    }
}

/// The required style names (the string items of `items`, first `n`) that no style part has.
pub open spec fn missing_styles(es: Seq<ArchiveEntry>, paths: Seq<Seq<char>>, items: Seq<JsonValue>, n: int) -> Seq<Seq<char>>
    decreases n,
{
    if n <= 0 {
        Seq::empty()
    } else {
        missing_styles(es, paths, items, n - 1) + match json_str(items[n - 1]) {
            Some(id) => if style_found(es, paths, id) {
                Seq::<Seq<char>>::empty()
            } else {
                seq![id]
            },
            None => Seq::<Seq<char>>::empty(),
        }
    }
}

pub open spec fn absent_paths(es: Seq<ArchiveEntry>, paths: Seq<Seq<char>>, n: int) -> Seq<Seq<char>>
    decreases n,
{
    if n <= 0 {
        Seq::empty()
    } else {
        absent_paths(es, paths, n - 1) + if has_entry(es, paths[n - 1]) {
            Seq::<Seq<char>>::empty()
        } else {
            seq![paths[n - 1]]
        }
    }
}

pub open spec fn styles_outcome(fp: Seq<char>, f: FileFacts, config: Option<JsonValue>) -> (bool, Seq<char>) {
    let ext = lower_ext(fp);
    if !f.exists {
        (false, not_found_text(fp))
    } else {
        match style_parts(ext) {
            None => (true, "Styles check not applicable for ."@ + ext + " format"@),
            Some(paths) => match f.archive {
                ArchiveRead::FileError(e) => (false, "Cannot open file: "@ + e@),
                ArchiveRead::ZipError(e) => (false, "Invalid OOXML archive: "@ + e@),
                ArchiveRead::Opened { entries, total } => {
                    let es = entries@;
                    let absent = absent_paths(es, paths, paths.len() as int);
                    match config {
                        Some(JsonValue::Array(items)) => {
                            let ms = missing_styles(es, paths, items@, items@.len() as int);
                            if ms.len() == 0 {
                                (true, "All required styles found"@)
                            } else {
                                (false, "Required styles not found: "@ + join(ms, ", "@))
                            }
                        },
                        _ => if absent.len() < paths.len() || absent.len() == 0 {
                            if absent.len() == 0 {
                                (true, "Required styles files found"@)
                            } else {
                                (true, "Some optional styles present, missing: "@ + join(absent, ", "@))
                            }
                        } else {
                            (false, "Required styles not found: "@ + join(absent, ", "@))
                        },
                    }
                },
            },
        }
    }
}

pub proof fn lemma_absent_len(es: Seq<ArchiveEntry>, paths: Seq<Seq<char>>, n: int)
    requires
        0 <= n <= paths.len(),
    ensures
        absent_paths(es, paths, n).len() <= n,
        absent_paths(es, paths, n).len() < n <==> exists|k: int| 0 <= k < n && has_entry(es, #[trigger] paths[k]),
    decreases n,
{
    if n > 0 {
        lemma_absent_len(es, paths, n - 1);
        if has_entry(es, paths[n - 1]) {
            assert(exists|k: int| 0 <= k < n && has_entry(es, #[trigger] paths[k]));
        } else {
            if exists|k: int| 0 <= k < n && has_entry(es, #[trigger] paths[k]) {
                let k = choose|k: int| 0 <= k < n && has_entry(es, #[trigger] paths[k]);
                assert(k < n - 1);
            }
        }
    }
}

fn style_paths_of(ext: &str) -> (r: Option<Vec<String>>)
    ensures
        match style_parts(ext@) {
            Some(ps) => r matches Some(v) && strings_view(v@) == ps,
            None => r is None,
        },
{
    if str_eq(ext, "docx") {
        let v = vec!["word/styles.xml".to_owned()];
        proof {
            assert(strings_view(v@) =~= seq!["word/styles.xml"@]);
        }
        Some(v)
    } else if str_eq(ext, "pptx") {
        let v = vec!["ppt/styles.xml".to_owned(), "ppt/theme/theme1.xml".to_owned()];
        proof {
            assert(strings_view(v@) =~= seq!["ppt/styles.xml"@, "ppt/theme/theme1.xml"@]);
        }
        Some(v)
    } else if str_eq(ext, "xlsx") {
        let v = vec!["xl/styles.xml".to_owned()];
        proof {
            assert(strings_view(v@) =~= seq!["xl/styles.xml"@]);
        }
        Some(v)
    } else {
        None
    }
}

fn style_search(es: &Vec<ArchiveEntry>, paths: &Vec<String>, id: &str) -> (b: bool)
    ensures
        b == style_found(es@, strings_view(paths@), id@),
{
    let mut k: usize = 0;
    let mut a = String::new();
    push_str(&mut a, "w:styleId=\"");
    push_str(&mut a, id);
    push_str(&mut a, "\"");
    let mut v = String::new();
    push_str(&mut v, "w:val=\"");
    push_str(&mut v, id);
    push_str(&mut v, "\"");
    let ac = chars_of(a.as_str());
    let vc = chars_of(v.as_str());
    proof {
        assert(ac@ =~= "w:styleId=\""@ + id@ + "\""@);
        assert(vc@ =~= "w:val=\""@ + id@ + "\""@);
    }
    while k < paths.len()
        invariant
            k <= paths@.len(),
            ac@ == "w:styleId=\""@ + id@ + "\""@,
            vc@ == "w:val=\""@ + id@ + "\""@,
            forall|q: int| 0 <= q < k ==> !(match named_text(es@, #[trigger] strings_view(paths@)[q]) {
                Some(t) => style_in(t, id@),
                None => false,
            }),
        decreases paths@.len() - k,
    {
        proof {
            assert(strings_view(paths@)[k as int] == paths@[k as int]@);
        }
        match text_named(es, paths[k].as_str()) {
            Some(t) => {
                let tc = chars_of(t.as_str());
                if contains(&tc, &ac) || contains(&tc, &vc) {
                    return true;
                }
            },
            None => {},
        }
        k = k + 1;
    }
    false
}

/// Checks that a document carries its style parts, or, when the
/// configuration lists style names, that each is defined or used there.
pub fn styles_exist(file_path: &str, facts: &FileFacts, config: Option<&JsonValue>) -> (c: ValidationCheck)
    ensures
        plain_check(
            c,
            "styles_exist"@,
            styles_outcome(file_path@, *facts, opt_json(config)).0,
            styles_outcome(file_path@, *facts, opt_json(config)).1,
        ),
{
    let rule = "styles_exist";
    if !facts.exists {
        return not_found_check(rule, file_path);
    }
    let ext = string_of(&lower_extension(file_path));
    let paths = match style_paths_of(ext.as_str()) {
        Some(p) => p,
        None => {
            return make_check(rule, true, message3("Styles check not applicable for .", ext.as_str(), " format"));
        },
    };
    let ghost pv = strings_view(paths@);
    match &facts.archive {
        ArchiveRead::FileError(e) => make_check(rule, false, message("Cannot open file: ", e.as_str())),
        ArchiveRead::ZipError(e) => make_check(rule, false, message("Invalid OOXML archive: ", e.as_str())),
        ArchiveRead::Opened { entries, total } => {
            let mut absent: Vec<String> = Vec::new();
            let mut k: usize = 0;
            while k < paths.len()
                invariant
                    k <= paths@.len(),
                    pv == strings_view(paths@),
                    strings_view(absent@) == absent_paths(entries@, pv, k as int),
                decreases paths@.len() - k,
            {
                proof {
                    assert(pv[k as int] == paths@[k as int]@);
                }
                if find_entry(entries, paths[k].as_str()).is_none() {
                    absent.push(paths[k].clone());
                }
                proof {
                    assert(strings_view(absent@) =~= absent_paths(entries@, pv, k + 1));
                }
                k = k + 1;
            }
            match config {
                Some(JsonValue::Array(items)) => {
                    let mut ms: Vec<String> = Vec::new();
                    let mut q: usize = 0;
                    while q < items.len()
                        invariant
                            q <= items@.len(),
                            pv == strings_view(paths@),
                            strings_view(ms@) == missing_styles(entries@, pv, items@, q as int),
                        decreases items@.len() - q,
                    {
                        match items[q].as_str() {
                            Some(id) => {
                                if !style_search(entries, &paths, id) {
                                    ms.push(id.to_owned());
                                }
                            },
                            None => {},
                        }
                        proof {
                            assert(strings_view(ms@) =~= missing_styles(entries@, pv, items@, q + 1));
                        }
                        q = q + 1;
                    }
                    if ms.len() == 0 {
                        make_check(rule, true, "All required styles found".to_owned())
                    } else {
                        let j = join_strings(&ms, ", ");
                        make_check(rule, false, message("Required styles not found: ", j.as_str()))
                    }
                },
                _ => {
                    proof {
                        lemma_absent_len(entries@, pv, pv.len() as int);
                    }
                    if absent.len() < paths.len() || absent.len() == 0 {
                        if absent.len() == 0 {
                            make_check(rule, true, "Required styles files found".to_owned())
                        } else {
                            let j = join_strings(&absent, ", ");
                            make_check(rule, true, message("Some optional styles present, missing: ", j.as_str()))
                        }
                    } else {
                        let j = join_strings(&absent, ", ");
                        make_check(rule, false, message("Required styles not found: ", j.as_str()))
                    }
                },
            }
        },
    }
}

pub open spec fn opt_json(o: Option<&JsonValue>) -> Option<JsonValue> {
    match o {
        Some(v) => Some(*v),
        None => None,
    }
}

// ---------------------------------------------------------------------------
// Theme colours
// ---------------------------------------------------------------------------

pub open spec fn theme_paths() -> Seq<Seq<char>> {
    seq!["theme/theme1.xml"@, "ppt/theme/theme1.xml"@, "xl/theme/theme1.xml"@]
}

/// The text of the first theme part, in `theme_paths` order from `k`, that
/// is present and reads; empty where none does.
pub open spec fn theme_text_from(es: Seq<ArchiveEntry>, k: int) -> Seq<char>
    decreases 3 - k,
{
    if k < 0 || k >= 3 {
        Seq::empty()
    } else {
        match named_text(es, theme_paths()[k]) {
            Some(t) => t,
            None => theme_text_from(es, k + 1),
        }
    }
}

pub open spec fn any_theme(es: Seq<ArchiveEntry>) -> bool {
    has_entry(es, theme_paths()[0]) || has_entry(es, theme_paths()[1]) || has_entry(es, theme_paths()[2])
}

/// The mismatch a configured colour gives, if any.
pub open spec fn colour_mismatch(theme: Seq<char>, cfg: JsonValue, key: Seq<char>, label: Seq<char>) -> Seq<Seq<char>> {
    match json_get(cfg, key) {
        Some(v) => match json_str(v) {
            Some(c) => if contains_seq(theme, trim_leading(c, '#')) {
                Seq::empty()
            } else {
                seq![label + " color "@ + c + " not found in theme"@]
            },
            None => Seq::empty(),
        },
        None => Seq::empty(),
    }
}

pub open spec fn brand_outcome(fp: Seq<char>, f: FileFacts, config: Option<JsonValue>) -> (bool, Seq<char>) {
    let ext = lower_ext(fp);
    if !f.exists {
        (false, not_found_text(fp))
    } else if !(ext == "docx"@ || ext == "pptx"@ || ext == "xlsx"@) {
        (true, "Brand color check skipped: not an OOXML format"@)
    } else {
        match f.archive {
            ArchiveRead::FileError(e) => (false, "Cannot open file: "@ + e@),
            ArchiveRead::ZipError(e) => (false, "Invalid OOXML archive: "@ + e@),
            ArchiveRead::Opened { entries, total } => {
                let es = entries@;
                let theme = theme_text_from(es, 0);
                if !any_theme(es) {
                    (false, "No theme file found in OOXML archive"@)
                } else {
                    match config {
                        Some(cfg) => {
                            let ms = colour_mismatch(theme, cfg, "primary"@, "primary"@) + colour_mismatch(
                                theme,
                                cfg,
                                "accent"@,
                                "accent"@,
                            );
                            if ms.len() == 0 {
                                (true, "Theme colors match expected values"@)
                            } else {
                                (false, join(ms, "; "@))
                            }
                        },
                        None => if contains_seq(theme, "<a:theme"@) || contains_seq(theme, "<a:themeElement"@) {
                            (true, "Theme file found with valid theme elements"@)
                        } else {
                            (false, "Theme file found but no valid theme elements"@)
                        },
                    }
                }
            },
        }
    }
}

fn theme_text(es: &Vec<ArchiveEntry>) -> (r: Vec<char>)
    ensures
        r@ == theme_text_from(es@, 0),
{
    proof {
        reveal_with_fuel(theme_text_from, 4);
    }
    match text_named(es, "theme/theme1.xml") {
        Some(t) => chars_of(t.as_str()),
        None => match text_named(es, "ppt/theme/theme1.xml") {
            Some(t) => chars_of(t.as_str()),
            None => match text_named(es, "xl/theme/theme1.xml") {
                Some(t) => chars_of(t.as_str()),
                None => Vec::new(),
            },
        },
    }
}

fn push_mismatch(ms: &mut Vec<String>, theme: &Vec<char>, cfg: &JsonValue, key: &str, label: &str)
    ensures
        strings_view(final(ms)@) == strings_view(old(ms)@) + colour_mismatch(theme@, *cfg, key@, label@),
{
    match cfg.get(key) {
        Some(v) => match v.as_str() {
            Some(c) => {
                let n = trim_leading_chars(&chars_of(c), '#');
                if !contains(theme, &n) {
                    let mut m = String::new();
                    push_str(&mut m, label);
                    push_str(&mut m, " color ");
                    push_str(&mut m, c);
                    push_str(&mut m, " not found in theme");
                    ms.push(m);
                }
            },
            None => {},
        },
        None => {},
    }
    proof {
        assert(strings_view(final(ms)@) =~= strings_view(old(ms)@) + colour_mismatch(theme@, *cfg, key@, label@));
    }
}

/// Checks the theme of an OOXML document: that it exists, and that it has
/// the configured primary and accent colours (or, with no configuration,
/// theme elements).
pub fn brand_colors_match(file_path: &str, facts: &FileFacts, config: Option<&JsonValue>) -> (c: ValidationCheck)
    ensures
        plain_check(
            c,
            "brand_colors_match"@,
            brand_outcome(file_path@, *facts, opt_json(config)).0,
            brand_outcome(file_path@, *facts, opt_json(config)).1,
        ),
{
    let rule = "brand_colors_match";
    if !facts.exists {
        return not_found_check(rule, file_path);
    }
    let ext = string_of(&lower_extension(file_path));
    if !(str_eq(ext.as_str(), "docx") || str_eq(ext.as_str(), "pptx") || str_eq(ext.as_str(), "xlsx")) {
        return make_check(rule, true, "Brand color check skipped: not an OOXML format".to_owned());
    }
    match &facts.archive {
        ArchiveRead::FileError(e) => make_check(rule, false, message("Cannot open file: ", e.as_str())),
        ArchiveRead::ZipError(e) => make_check(rule, false, message("Invalid OOXML archive: ", e.as_str())),
        ArchiveRead::Opened { entries, total } => {
            let theme = theme_text(entries);
            let found = find_entry(entries, "theme/theme1.xml").is_some() || find_entry(entries, "ppt/theme/theme1.xml").is_some()
                || find_entry(entries, "xl/theme/theme1.xml").is_some();
            if !found {
                return make_check(rule, false, "No theme file found in OOXML archive".to_owned());
            }
            match config {
                Some(cfg) => {
                    let mut ms: Vec<String> = Vec::new();
                    push_mismatch(&mut ms, &theme, cfg, "primary", "primary");
                    push_mismatch(&mut ms, &theme, cfg, "accent", "accent");
                    if ms.len() == 0 {
                        make_check(rule, true, "Theme colors match expected values".to_owned())
                    } else {
                        make_check(rule, false, join_strings(&ms, "; "))
                    }
                },
                None => {
                    if contains(&theme, &chars_of("<a:theme")) || contains(&theme, &chars_of("<a:themeElement")) {
                        make_check(rule, true, "Theme file found with valid theme elements".to_owned())
                    } else {
                        make_check(rule, false, "Theme file found but no valid theme elements".to_owned())
                    }
                },
            }
        },
    }
}

// ---------------------------------------------------------------------------
// Cross references
// ---------------------------------------------------------------------------

/// Reference, caption and sequence-field counts over the first `n`
/// readable XML entries.
pub open spec fn ref_counts(es: Seq<ArchiveEntry>, n: int) -> (nat, nat, nat)
    decreases n,
{
    if n <= 0 {
        (0, 0, 0)
    } else {
        let prev = ref_counts(es, n - 1);
        let e = es[n - 1];
        if ends_with(e.name@, ".xml"@) && entry_text(e) is Some {
            let t = entry_text(e).unwrap();
            (
                prev.0 + count_occ(t, "w:instrText"@) + count_occ(t, "w:numId"@),
                prev.1 + count_occ(t, "<w:caption"@) + count_occ(t, "a:fld"@),
                prev.2 + count_occ(t, "SEQ "@) + count_occ(t, " w:instrText "@),
            )
        } else {
            prev
        }
    }
}

pub open spec fn cross_refs_outcome(fp: Seq<char>, f: FileFacts) -> (bool, Seq<char>) {
    let ext = lower_ext(fp);
    if !f.exists {
        (false, not_found_text(fp))
    } else if !(ext == "docx"@ || ext == "pptx"@) {
        (true, "Cross-reference check not applicable for ."@ + ext + " format"@)
    } else {
        match f.archive {
            ArchiveRead::FileError(e) => (false, "Cannot open file: "@ + e@),
            ArchiveRead::ZipError(e) => (false, "Invalid OOXML archive: "@ + e@),
            ArchiveRead::Opened { entries, total } => {
                let c = ref_counts(entries@, entries@.len() as int);
                (true, "Found "@ + decimal(c.0) + " references, "@ + decimal(c.1) + " captions, "@ + decimal(c.2)
                    + " sequence fields"@)
            },
        }
    }
}

/// The counts fit the machine's counters.
pub open spec fn counts_fit(f: FileFacts) -> bool {
    match f.archive {
        ArchiveRead::Opened { entries, total } => {
            let c = ref_counts(entries@, entries@.len() as int);
            c.0 <= usize::MAX && c.1 <= usize::MAX && c.2 <= usize::MAX
        },
        _ => true,
    }
}

pub proof fn lemma_ref_counts_mono(es: Seq<ArchiveEntry>, m: int, n: int)
    requires
        0 <= m <= n,
    ensures
        ref_counts(es, m).0 <= ref_counts(es, n).0,
        ref_counts(es, m).1 <= ref_counts(es, n).1,
        ref_counts(es, m).2 <= ref_counts(es, n).2,
    decreases n - m,
{
    if m < n {
        lemma_ref_counts_mono(es, m, n - 1);
    }
}

/// Counts the cross-reference fields, captions and sequence fields of a
/// Word document or presentation; it passes whenever it can count.
pub fn cross_references_valid(file_path: &str, facts: &FileFacts) -> (c: ValidationCheck)
    requires
        counts_fit(*facts),
    ensures
        plain_check(c, "cross_references_valid"@, cross_refs_outcome(file_path@, *facts).0, cross_refs_outcome(file_path@, *facts).1),
{
    let rule = "cross_references_valid";
    if !facts.exists {
        return not_found_check(rule, file_path);
    }
    let ext = string_of(&lower_extension(file_path));
    if !(str_eq(ext.as_str(), "docx") || str_eq(ext.as_str(), "pptx")) {
        return make_check(rule, true, message3("Cross-reference check not applicable for .", ext.as_str(), " format"));
    }
    match &facts.archive {
        ArchiveRead::FileError(e) => make_check(rule, false, message("Cannot open file: ", e.as_str())),
        ArchiveRead::ZipError(e) => make_check(rule, false, message("Invalid OOXML archive: ", e.as_str())),
        ArchiveRead::Opened { entries, total } => {
            let ghost es = entries@;
            let mut r: usize = 0;
            let mut cap: usize = 0;
            let mut sq: usize = 0;
            let mut i: usize = 0;
            let p1 = chars_of("w:instrText");
            let p2 = chars_of("w:numId");
            let p3 = chars_of("<w:caption");
            let p4 = chars_of("a:fld");
            let p5 = chars_of("SEQ ");
            let p6 = chars_of(" w:instrText ");
            proof {
                reveal_strlit("w:instrText");
                reveal_strlit("w:numId");
                reveal_strlit("<w:caption");
                reveal_strlit("a:fld");
                reveal_strlit("SEQ ");
                reveal_strlit(" w:instrText ");
            }
            while i < entries.len()
                invariant
                    i <= es.len(),
                    es == entries@,
                    counts_fit(*facts),
                    facts.archive == (ArchiveRead::Opened { entries: *entries, total: *total }),
                    p1@ == "w:instrText"@,
                    p2@ == "w:numId"@,
                    p3@ == "<w:caption"@,
                    p4@ == "a:fld"@,
                    p5@ == "SEQ "@,
                    p6@ == " w:instrText "@,
                    p1@.len() > 0 && p2@.len() > 0 && p3@.len() > 0 && p4@.len() > 0 && p5@.len() > 0 && p6@.len() > 0,
                    (r as nat, cap as nat, sq as nat) == ref_counts(es, i as int),
                decreases es.len() - i,
            {
                proof {
                    lemma_ref_counts_mono(es, i + 1, es.len() as int);
                }
                let e = &entries[i];
                if ends_xml(e.name.as_str()) {
                    match text_of(e) {
                        Some(t) => {
                            let tc = chars_of(t.as_str());
                            r = r + count_matches(&tc, &p1);
                            r = r + count_matches(&tc, &p2);
                            cap = cap + count_matches(&tc, &p3);
                            cap = cap + count_matches(&tc, &p4);
                            sq = sq + count_matches(&tc, &p5);
                            sq = sq + count_matches(&tc, &p6);
                        },
                        None => {},
                    }
                }
                i = i + 1;
            }
            let mut d = String::new();
            push_str(&mut d, "Found ");
            push_str(&mut d, u64_to_string(r as u64).as_str());
            push_str(&mut d, " references, ");
            push_str(&mut d, u64_to_string(cap as u64).as_str());
            push_str(&mut d, " captions, ");
            push_str(&mut d, u64_to_string(sq as u64).as_str());
            push_str(&mut d, " sequence fields");
            make_check(rule, true, d)
        },
    }
}

// ---------------------------------------------------------------------------
// Placeholders left empty
// ---------------------------------------------------------------------------

/// A placeholder: `{`, anything but `}`, `}`.
pub open spec fn placeholder_pattern() -> Seq<char> {
    "\\{[^}]*\\}"@
}

/// `seen` followed by the items of `found` it lacks, first occurrences only.
pub open spec fn add_new(seen: Seq<Seq<char>>, found: Seq<Seq<char>>) -> Seq<Seq<char>>
    decreases found.len(),
{
    if found.len() == 0 {
        seen
    } else {
        let prev = add_new(seen, found.drop_last());
        if prev.contains(found.last()) {
            prev
        } else {
            prev.push(found.last())
        }
    }
}

/// The texts of the first `n` entries that are XML or relationship parts
/// and read.
pub open spec fn scanned_texts(es: Seq<ArchiveEntry>, n: int) -> Seq<Seq<char>>
    decreases n,
{
    if n <= 0 {
        Seq::empty()
    } else {
        let e = es[n - 1];
        scanned_texts(es, n - 1) + if (ends_with(e.name@, ".xml"@) || ends_with(e.name@, ".rels"@)) && entry_text(e) is Some {
            seq![entry_text(e).unwrap()]
        } else {
            Seq::<Seq<char>>::empty()
        }
    }
}

/// What the placeholder search reads: the parts of an office archive, or
/// the whole text of any other file.
pub open spec fn placeholder_sources(f: FileFacts, ext: Seq<char>) -> Seq<Seq<char>> {
    if office_format(ext) {
        match f.archive {
            ArchiveRead::Opened { entries, total } => scanned_texts(entries@, entries@.len() as int),
            _ => Seq::empty(),
        }
    } else {
        match f.text {
            Some(t) => seq![t@],
            None => Seq::empty(),
        }
    }
}

/// The distinct placeholders of the first `n` texts, in order of first occurrence.
pub open spec fn placeholders_in(texts: Seq<Seq<char>>, n: int) -> Seq<Seq<char>>
    decreases n,
{
    if n <= 0 {
        Seq::empty()
    } else {
        add_new(placeholders_in(texts, n - 1), regex_found(placeholder_pattern(), texts[n - 1]))
    }
}

pub open spec fn found_placeholders(f: FileFacts, fp: Seq<char>) -> Seq<Seq<char>> {
    let texts = placeholder_sources(f, lower_ext(fp));
    placeholders_in(texts, texts.len() as int)
}

/// The arguments of the suggested fix: the file and the placeholders.
pub open spec fn placeholder_fix_args(c: ValidationCheck, fp: Seq<char>, found: Seq<Seq<char>>) -> bool {
    match c.fix_args {
        Some(JsonValue::Object(fs)) => {
            &&& fs@.len() == 2
            &&& fs@[0].0@ == "file_path"@
            &&& fs@[0].1 matches JsonValue::Str(p) && p@ == fp
            &&& fs@[1].0@ == "placeholders"@
            &&& fs@[1].1 matches JsonValue::Array(items) && items@.len() == found.len() && forall|k: int|
                0 <= k < found.len() ==> (#[trigger] items@[k] matches JsonValue::Str(t) && t@ == found[k])
        },
        _ => false,
    }
}

fn add_new_exec(seen: &mut Vec<String>, found: &Vec<String>)
    ensures
        strings_view(final(seen)@) == add_new(strings_view(old(seen)@), strings_view(found@)),
{
    let ghost start = strings_view(seen@);
    let mut k: usize = 0;
    proof {
        assert(strings_view(found@).take(0) =~= Seq::<Seq<char>>::empty());
    }
    while k < found.len()
        invariant
            k <= found@.len(),
            strings_view(seen@) == add_new(start, strings_view(found@).take(k as int)),
        decreases found@.len() - k,
    {
        let f = &found[k];
        let mut present = false;
        let mut q: usize = 0;
        while q < seen.len()
            invariant
                q <= seen@.len(),
                present == exists|j: int| 0 <= j < q && seen@[j]@ == f@,
            decreases seen@.len() - q,
        {
            if str_eq(seen[q].as_str(), f.as_str()) {
                present = true;
            }
            q = q + 1;
        }
        proof {
            let t = strings_view(found@).take(k + 1);
            assert(t.drop_last() =~= strings_view(found@).take(k as int));
            assert(t.last() == f@);
            if present {
                let j = choose|j: int| 0 <= j < seen@.len() && seen@[j]@ == f@;
                assert(strings_view(seen@)[j] == f@);
            } else {
                if strings_view(seen@).contains(f@) {
                    let j = choose|j: int| 0 <= j < strings_view(seen@).len() && strings_view(seen@)[j] == f@;
                    assert(seen@[j]@ == f@);
                }
            }
        }
        if !present {
            seen.push(f.clone());
            proof {
                assert(strings_view(seen@) =~= add_new(start, strings_view(found@).take(k + 1)));
            }
        }
        k = k + 1;
    }
    proof {
        assert(strings_view(found@).take(found@.len() as int) =~= strings_view(found@));
    }
}

fn scan_text(seen: &mut Vec<String>, text: &str, pat: &str)
    requires
        regex_error(pat@) is None,
    ensures
        strings_view(final(seen)@) == add_new(strings_view(old(seen)@), regex_found(pat@, text@)),
{
    let found = regex_find_all(pat, text);
    proof {
        assert(strings_view(found@) =~= found@.map_values(|m: String| m@));
    }
    add_new_exec(seen, &found);
}

/// Looks for placeholders (`{...}`) left in a document: in every XML or
/// relationship part of an office archive, or in the text of any other
/// file.  Fails, suggesting a text replacement, when there are some; an
/// `Err` carries the message of a pattern that does not compile.
pub fn no_empty_placeholders(file_path: &str, facts: &FileFacts) -> (r: Result<ValidationCheck, String>)
    ensures
        !facts.exists ==> (r matches Ok(c) && plain_check(c, "no_empty_placeholders"@, false, not_found_text(file_path@))),
        facts.exists ==> match regex_error(placeholder_pattern()) {
            Some(e) => r matches Err(m) && m@ == e,
            None => r matches Ok(c) && {
                let found = found_placeholders(*facts, file_path@);
                &&& c.rule@ == "no_empty_placeholders"@
                &&& c.passed == (found.len() == 0)
                &&& found.len() == 0 ==> c.details is None && c.fix_tool is None && c.fix_args is None
                &&& found.len() > 0 ==> {
                    &&& opt_view(c.details) == Some("Found "@ + decimal(found.len()) + " placeholder(s): "@ + join(found, ", "@))
                    &&& opt_view(c.fix_tool) == Some("office_replace_text"@)
                    &&& placeholder_fix_args(c, file_path@, found)
                }
            },
        },
{
    let rule = "no_empty_placeholders";
    if !facts.exists {
        return Ok(not_found_check(rule, file_path));
    }
    let ext = string_of(&lower_extension(file_path));
    let pat = "\\{[^}]*\\}";
    match regex_compile_error(pat) {
        Some(e) => {
            return Err(e);
        },
        None => {},
    }
    let ghost texts = placeholder_sources(*facts, ext@);
    let mut seen: Vec<String> = Vec::new();
    if is_office(ext.as_str()) {
        match &facts.archive {
            ArchiveRead::Opened { entries, total } => {
                let ghost es = entries@;
                let mut i: usize = 0;
                while i < entries.len()
                    invariant
                        i <= es.len(),
                        es == entries@,
                        pat@ == placeholder_pattern(),
                        regex_error(pat@) is None,
                        strings_view(seen@) == placeholders_in(scanned_texts(es, i as int), scanned_texts(es, i as int).len() as int),
                    decreases es.len() - i,
                {
                    let e = &entries[i];
                    let n = chars_of(e.name.as_str());
                    let ghost before = scanned_texts(es, i as int);
                    if has_suffix(&n, &chars_of(".xml")) || has_suffix(&n, &chars_of(".rels")) {
                        match text_of(e) {
                            Some(t) => {
                                scan_text(&mut seen, t.as_str(), pat);
                                proof {
                                    let after = scanned_texts(es, i + 1);
                                    assert(after =~= before.push(t@));
                                    assert(after.take(before.len() as int) =~= before);
                                    lemma_placeholders_prefix(after, before.len() as int);
                                    assert(after[before.len() as int] == t@);
                                }
                            },
                            None => {},
                        }
                    }
                    i = i + 1;
                }
                proof {
                    assert(texts == scanned_texts(es, es.len() as int));
                    assert(strings_view(seen@) == placeholders_in(texts, texts.len() as int));
                }
            },
            _ => {
                proof {
                    assert(texts.len() == 0);
                    assert(strings_view(seen@) =~= placeholders_in(texts, texts.len() as int));
                }
            },
        }
    } else {
        match &facts.text {
            Some(t) => {
                proof {
                    assert(strings_view(seen@) =~= Seq::<Seq<char>>::empty());
                    assert(pat@ == placeholder_pattern());
                }
                scan_text(&mut seen, t.as_str(), pat);
                proof {
                    assert(texts =~= seq![t@]);
                    assert(placeholders_in(texts, 0) =~= Seq::<Seq<char>>::empty());
                    assert(strings_view(seen@) == placeholders_in(texts, texts.len() as int));
                }
            },
            None => {
                proof {
                    assert(texts.len() == 0);
                    assert(strings_view(seen@) =~= placeholders_in(texts, texts.len() as int));
                }
            },
        }
    }
    proof {
        assert(strings_view(seen@) == found_placeholders(*facts, file_path@));
    }
    if seen.len() == 0 {
        return Ok(ValidationCheck {
            rule: rule.to_owned(),
            passed: true,
            details: None,
            fix_tool: None,
            fix_args: None,
        });
    }
    let mut d = String::new();
    push_str(&mut d, "Found ");
    push_str(&mut d, u64_to_string(seen.len() as u64).as_str());
    push_str(&mut d, " placeholder(s): ");
    push_str(&mut d, join_strings(&seen, ", ").as_str());
    let mut items: Vec<JsonValue> = Vec::new();
    let mut k: usize = 0;
    while k < seen.len()
        invariant
            k <= seen@.len(),
            items@.len() == k,
            forall|q: int| 0 <= q < k ==> (#[trigger] items@[q] matches JsonValue::Str(t) && t@ == seen@[q]@),
        decreases seen@.len() - k,
    {
        items.push(JsonValue::Str(seen[k].clone()));
        k = k + 1;
    }
    let fields = vec![
        ("file_path".to_owned(), JsonValue::Str(file_path.to_owned())),
        ("placeholders".to_owned(), JsonValue::Array(items)),
    ];
    Ok(ValidationCheck {
        rule: rule.to_owned(),
        passed: false,
        details: Some(d),
        fix_tool: Some("office_replace_text".to_owned()),
        fix_args: Some(JsonValue::Object(fields)),
    })
}

proof fn lemma_placeholders_prefix(texts: Seq<Seq<char>>, n: int)
    requires
        0 <= n <= texts.len(),
    ensures
        placeholders_in(texts.take(n), n) == placeholders_in(texts, n),
    decreases n,
{
    if n > 0 {
        lemma_placeholders_prefix(texts, n - 1);
        lemma_placeholders_prefix(texts.take(n), n - 1);
        assert(texts.take(n).take(n - 1) =~= texts.take(n - 1));
    }
}

// ---------------------------------------------------------------------------
// Page limits
// ---------------------------------------------------------------------------

/// Section and page-break marks in the Word parts among the first `n` entries.
pub open spec fn page_marks(es: Seq<ArchiveEntry>, n: int) -> nat
    decreases n,
{
    if n <= 0 {
        0
    } else {
        let e = es[n - 1];
        page_marks(es, n - 1) + if starts_with(e.name@, "word/"@) && ends_with(e.name@, ".xml"@) && entry_text(e) is Some {
            count_occ(entry_text(e).unwrap(), "<w:sectPr"@) + count_occ(entry_text(e).unwrap(), "<w:br w:type=\"page\""@)
        } else {
            0
        }
    }
}

/// Entries among the first `n` whose name starts with `prefix` and ends in `.xml`.
pub open spec fn parts_named(es: Seq<ArchiveEntry>, n: int, prefix: Seq<char>) -> nat
    decreases n,
{
    if n <= 0 {
        0
    } else {
        parts_named(es, n - 1, prefix) + if starts_with(es[n - 1].name@, prefix) && ends_with(es[n - 1].name@, ".xml"@) {
            1nat
        } else {
            0nat
        }
    }
}

pub open spec fn at_least_one(n: nat) -> nat {
    if n == 0 {
        1
    } else {
        n
    }
}

/// Pages of a Word document, slides of a presentation, sheets of a
/// workbook: at least one, and one where the archive cannot be read.
pub open spec fn page_count(f: FileFacts, ext: Seq<char>) -> nat {
    match f.archive {
        ArchiveRead::Opened { entries, total } => {
            let es = entries@;
            if ext == "docx"@ {
                at_least_one(page_marks(es, es.len() as int))
            } else if ext == "pptx"@ {
                at_least_one(parts_named(es, es.len() as int, "ppt/slides/slide"@))
            } else {
                at_least_one(parts_named(es, es.len() as int, "xl/worksheets/sheet"@))
            }
        },
        _ => 1,
    }
}

pub open spec fn default_max(ext: Seq<char>) -> nat {
    if ext == "docx"@ {
        10
    } else if ext == "pptx"@ {
        15
    } else {
        5
    }
}

pub open spec fn max_pages_outcome(fp: Seq<char>, f: FileFacts, config: Option<JsonValue>) -> (bool, Seq<char>) {
    let ext = lower_ext(fp);
    if !f.exists {
        (false, not_found_text(fp))
    } else if !(ext == "docx"@ || ext == "pptx"@ || ext == "xlsx"@) {
        (true, "Page count check not applicable for ."@ + ext + " format"@)
    } else {
        let limit: nat = match config {
            Some(v) => match json_u64(v) {
                Some(n) => n as nat,
                None => default_max(ext),
            },
            None => default_max(ext),
        };
        let n = page_count(f, ext);
        if n <= limit {
            (true, decimal(n) + " page(s) within limit of "@ + decimal(limit))
        } else {
            (false, decimal(n) + " page(s) exceeds max allowed ("@ + decimal(limit) + ")"@)
        }
    }
}

proof fn lemma_parts_named_filter(es: Seq<ArchiveEntry>, n: int, prefix: Seq<char>, pred: spec_fn(ArchiveEntry) -> bool)
    requires
        0 <= n <= es.len(),
        forall|e: ArchiveEntry| #[trigger] pred(e) == (starts_with(e.name@, prefix) && ends_with(e.name@, ".xml"@)),
    ensures
        parts_named(es, n, prefix) == es.take(n).filter(pred).len(),
    decreases n,
{
    reveal(Seq::filter);
    if n > 0 {
        lemma_parts_named_filter(es, n - 1, prefix, pred);
        let t = es.take(n);
        assert(t.drop_last() =~= es.take(n - 1));
        assert(t.last() == es[n - 1]);
        assert(pred(es[n - 1]) == (starts_with(es[n - 1].name@, prefix) && ends_with(es[n - 1].name@, ".xml"@)));
        assert(t.filter(pred) == (if pred(t.last()) { t.drop_last().filter(pred).push(t.last()) } else { t.drop_last().filter(pred) }));
    } else {
        assert(es.take(0) =~= Seq::<ArchiveEntry>::empty());
    }
}

/// Law: the pages of a workbook are its worksheets and those of a
/// presentation its slides.  For an opened `.xlsx` archive, the page count
/// `max_pages` reports (checked against the default limit of 5) is the
/// number of entries named `xl/worksheets/sheet….xml`; for an opened
/// `.pptx` archive (limit 15), the number named `ppt/slides/slide….xml`;
/// at least 1 either way.
pub proof fn lemma_pages_are_sheets_and_slides(fp: Seq<char>, f: FileFacts, entries: Vec<ArchiveEntry>, total: usize)
    requires
        f.exists,
        f.archive == (ArchiveRead::Opened { entries, total }),
    ensures
        lower_ext(fp) == "xlsx"@ ==> {
            let n = entries@.filter(
                |e: ArchiveEntry| starts_with(e.name@, "xl/worksheets/sheet"@) && ends_with(e.name@, ".xml"@),
            ).len();
            let p: nat = if n == 0 { 1 } else { n };
            max_pages_outcome(fp, f, None) == if p <= 5 {
                (true, decimal(p) + " page(s) within limit of "@ + decimal(5))
            } else {
                (false, decimal(p) + " page(s) exceeds max allowed ("@ + decimal(5) + ")"@)
            }
        },
        lower_ext(fp) == "pptx"@ ==> {
            let n = entries@.filter(
                |e: ArchiveEntry| starts_with(e.name@, "ppt/slides/slide"@) && ends_with(e.name@, ".xml"@),
            ).len();
            let p: nat = if n == 0 { 1 } else { n };
            max_pages_outcome(fp, f, None) == if p <= 15 {
                (true, decimal(p) + " page(s) within limit of "@ + decimal(15))
            } else {
                (false, decimal(p) + " page(s) exceeds max allowed ("@ + decimal(15) + ")"@)
            }
        },
{
    reveal_strlit("xlsx");
    reveal_strlit("pptx");
    reveal_strlit("docx");
    let es = entries@;
    let sheets = |e: ArchiveEntry| starts_with(e.name@, "xl/worksheets/sheet"@) && ends_with(e.name@, ".xml"@);
    let slides = |e: ArchiveEntry| starts_with(e.name@, "ppt/slides/slide"@) && ends_with(e.name@, ".xml"@);
    lemma_parts_named_filter(es, es.len() as int, "xl/worksheets/sheet"@, sheets);
    lemma_parts_named_filter(es, es.len() as int, "ppt/slides/slide"@, slides);
    assert(es.take(es.len() as int) =~= es);
    assert(es.filter(sheets) == es.filter(
        |e: ArchiveEntry| starts_with(e.name@, "xl/worksheets/sheet"@) && ends_with(e.name@, ".xml"@),
    ));
    let ext = lower_ext(fp);
    if ext == "xlsx"@ {
        assert(ext[0] != "docx"@[0] && ext[0] != "pptx"@[0]);
        assert(default_max(ext) == 5);
        let prefix = "xl/worksheets/sheet"@;
        assert(page_count(f, ext) == at_least_one(parts_named(es, es.len() as int, prefix)));
    }
    if ext == "pptx"@ {
        assert(ext[0] != "docx"@[0]);
        assert(default_max(ext) == 15);
        let prefix = "ppt/slides/slide"@;
        assert(page_count(f, ext) == at_least_one(parts_named(es, es.len() as int, prefix)));
    }
}

/// Law: the pages of a Word document are counted by its section ends and
/// page breaks.  For an opened `.docx` archive holding only
/// `word/document.xml` with UTF-8 text `t`, the page count `max_pages`
/// reports (against the default limit of 10) is the number of
/// `<w:sectPr` plus the number of `<w:br w:type="page"` in `t`, at least 1.
pub proof fn lemma_word_pages_are_sections_and_breaks(
    fp: Seq<char>,
    f: FileFacts,
    entries: Vec<ArchiveEntry>,
    total: usize,
    t: Seq<char>,
)
    requires
        f.exists,
        lower_ext(fp) == "docx"@,
        f.archive == (ArchiveRead::Opened { entries, total }),
        entries@.len() == 1,
        entries@[0].name@ == "word/document.xml"@,
        entry_text(entries@[0]) == Some(t),
    ensures
        ({
            let n = count_occ(t, "<w:sectPr"@) + count_occ(t, "<w:br w:type=\"page\""@);
            let p: nat = if n == 0 { 1 } else { n };
            max_pages_outcome(fp, f, None) == if p <= 10 {
                (true, decimal(p) + " page(s) within limit of "@ + decimal(10))
            } else {
                (false, decimal(p) + " page(s) exceeds max allowed ("@ + decimal(10) + ")"@)
            }
        }),
{
    reveal_strlit("docx");
    reveal_strlit("word/");
    reveal_strlit(".xml");
    reveal_strlit("word/document.xml");
    let es = entries@;
    let name = es[0].name@;
    assert(name.subrange(0, 5) =~= "word/"@);
    assert(name.subrange(name.len() - 4, name.len() as int) =~= ".xml"@);
    assert(starts_with(name, "word/"@));
    assert(ends_with(name, ".xml"@));
    assert(page_marks(es, 0) == 0);
    assert(page_marks(es, 1) == count_occ(t, "<w:sectPr"@) + count_occ(t, "<w:br w:type=\"page\""@));
}

/// The page marks fit a 64-bit counter.
pub open spec fn marks_fit(f: FileFacts) -> bool {
    match f.archive {
        ArchiveRead::Opened { entries, total } => page_marks(entries@, entries@.len() as int) <= u64::MAX,
        _ => true,
    }
}

pub proof fn lemma_page_marks_mono(es: Seq<ArchiveEntry>, m: int, n: int)
    requires
        0 <= m <= n,
    ensures
        page_marks(es, m) <= page_marks(es, n),
    decreases n - m,
{
    if m < n {
        lemma_page_marks_mono(es, m, n - 1);
    }
}

pub proof fn lemma_parts_named_bound(es: Seq<ArchiveEntry>, n: int, prefix: Seq<char>)
    requires
        0 <= n,
    ensures
        parts_named(es, n, prefix) <= n,
    decreases n,
{
    if n > 0 {
        lemma_parts_named_bound(es, n - 1, prefix);
    }
}

fn count_named(es: &Vec<ArchiveEntry>, prefix: &str) -> (n: u64)
    ensures
        n == parts_named(es@, es@.len() as int, prefix@),
{
    let mut n: u64 = 0;
    let mut i: usize = 0;
    let p = chars_of(prefix);
    while i < es.len()
        invariant
            i <= es@.len(),
            p@ == prefix@,
            n == parts_named(es@, i as int, prefix@),
            n <= i,
        decreases es@.len() - i,
    {
        let name = chars_of(es[i].name.as_str());
        if has_prefix(&name, &p) && has_suffix(&name, &chars_of(".xml")) {
            n = n + 1;
        }
        i = i + 1;
    }
    n
}

fn count_pages(facts: &FileFacts, ext: &str) -> (n: u64)
    requires
        marks_fit(*facts),
    ensures
        n == page_count(*facts, ext@),
{
    match &facts.archive {
        ArchiveRead::Opened { entries, total } => {
            let c = if str_eq(ext, "docx") {
                let ghost es = entries@;
                let mut t: u64 = 0;
                let mut i: usize = 0;
                let p1 = chars_of("<w:sectPr");
                let p2 = chars_of("<w:br w:type=\"page\"");
                proof {
                    reveal_strlit("<w:sectPr");
                    reveal_strlit("<w:br w:type=\"page\"");
                }
                while i < entries.len()
                    invariant
                        i <= es.len(),
                        es == entries@,
                        marks_fit(*facts),
                        facts.archive == (ArchiveRead::Opened { entries: *entries, total: *total }),
                        p1@ == "<w:sectPr"@,
                        p2@ == "<w:br w:type=\"page\""@,
                        p1@.len() > 0 && p2@.len() > 0,
                        t == page_marks(es, i as int),
                    decreases es.len() - i,
                {
                    proof {
                        lemma_page_marks_mono(es, i + 1, es.len() as int);
                    }
                    let e = &entries[i];
                    let name = chars_of(e.name.as_str());
                    if has_prefix(&name, &chars_of("word/")) && has_suffix(&name, &chars_of(".xml")) {
                        match text_of(e) {
                            Some(txt) => {
                                let tc = chars_of(txt.as_str());
                                let a = count_matches(&tc, &p1);
                                let b = count_matches(&tc, &p2);
                                t = t + a as u64 + b as u64;
                            },
                            None => {},
                        }
                    }
                    i = i + 1;
                }
                t
            } else if str_eq(ext, "pptx") {
                count_named(entries, "ppt/slides/slide")
            } else {
                count_named(entries, "xl/worksheets/sheet")
            };
            if c == 0 {
                1
            } else {
                c
            }
        },
        _ => 1,
    }
}

/// Whether the reference counts and page marks of the archive fit the
/// counters the rules keep them in (`usize` and `u64`); where they do not,
/// the rules that count them cannot take the facts.
pub fn facts_countable(facts: &FileFacts) -> (b: bool)
    ensures
        b == (counts_fit(*facts) && marks_fit(*facts)),
{
    match &facts.archive {
        ArchiveRead::Opened { entries, total } => {
            let ghost es = entries@;
            let mut r: u128 = 0;
            let mut cap: u128 = 0;
            let mut sq: u128 = 0;
            let mut pm: u128 = 0;
            let p1 = chars_of("w:instrText");
            let p2 = chars_of("w:numId");
            let p3 = chars_of("<w:caption");
            let p4 = chars_of("a:fld");
            let p5 = chars_of("SEQ ");
            let p6 = chars_of(" w:instrText ");
            let q1 = chars_of("<w:sectPr");
            let q2 = chars_of("<w:br w:type=\"page\"");
            proof {
                reveal_strlit("w:instrText");
                reveal_strlit("w:numId");
                reveal_strlit("<w:caption");
                reveal_strlit("a:fld");
                reveal_strlit("SEQ ");
                reveal_strlit(" w:instrText ");
                reveal_strlit("<w:sectPr");
                reveal_strlit("<w:br w:type=\"page\"");
            }
            let mut i: usize = 0;
            while i < entries.len()
                invariant
                    i <= es.len(),
                    es == entries@,
                    facts.archive == (ArchiveRead::Opened { entries: *entries, total: *total }),
                    p1@ == "w:instrText"@,
                    p2@ == "w:numId"@,
                    p3@ == "<w:caption"@,
                    p4@ == "a:fld"@,
                    p5@ == "SEQ "@,
                    p6@ == " w:instrText "@,
                    q1@ == "<w:sectPr"@,
                    q2@ == "<w:br w:type=\"page\""@,
                    p1@.len() > 0 && p2@.len() > 0 && p3@.len() > 0 && p4@.len() > 0 && p5@.len() > 0 && p6@.len() > 0,
                    q1@.len() > 0 && q2@.len() > 0,
                    (r as nat, cap as nat, sq as nat) == ref_counts(es, i as int),
                    pm as nat == page_marks(es, i as int),
                    r <= usize::MAX && cap <= usize::MAX && sq <= usize::MAX && pm <= u64::MAX,
                decreases es.len() - i,
            {
                proof {
                    lemma_ref_counts_mono(es, i + 1, es.len() as int);
                    lemma_page_marks_mono(es, i + 1, es.len() as int);
                }
                let e = &entries[i];
                if ends_xml(e.name.as_str()) {
                    match text_of(e) {
                        Some(t) => {
                            let tc = chars_of(t.as_str());
                            r = r + count_matches(&tc, &p1) as u128 + count_matches(&tc, &p2) as u128;
                            cap = cap + count_matches(&tc, &p3) as u128 + count_matches(&tc, &p4) as u128;
                            sq = sq + count_matches(&tc, &p5) as u128 + count_matches(&tc, &p6) as u128;
                        },
                        None => {},
                    }
                }
                let name = chars_of(e.name.as_str());
                if has_prefix(&name, &chars_of("word/")) && has_suffix(&name, &chars_of(".xml")) {
                    match text_of(e) {
                        Some(txt) => {
                            let tc = chars_of(txt.as_str());
                            pm = pm + count_matches(&tc, &q1) as u128 + count_matches(&tc, &q2) as u128;
                        },
                        None => {},
                    }
                }
                if r > usize::MAX as u128 || cap > usize::MAX as u128 || sq > usize::MAX as u128 || pm > u64::MAX as u128 {
                    return false;
                }
                i = i + 1;
            }
            proof {
                assert(es.len() == entries@.len());
            }
            true
        },
        _ => true,
    }
}

/// Checks that a document stays within a page limit: pages of a Word
/// document (10 by default), slides of a presentation (15), sheets of a
/// workbook (5); a number as configuration sets the limit.
pub fn max_pages(file_path: &str, facts: &FileFacts, config: Option<&JsonValue>) -> (c: ValidationCheck)
    requires
        marks_fit(*facts),
    ensures
        plain_check(
            c,
            "max_pages"@,
            max_pages_outcome(file_path@, *facts, opt_json(config)).0,
            max_pages_outcome(file_path@, *facts, opt_json(config)).1,
        ),
{
    let rule = "max_pages";
    if !facts.exists {
        return not_found_check(rule, file_path);
    }
    let ext = string_of(&lower_extension(file_path));
    let e = ext.as_str();
    if !(str_eq(e, "docx") || str_eq(e, "pptx") || str_eq(e, "xlsx")) {
        return make_check(rule, true, message3("Page count check not applicable for .", e, " format"));
    }
    let default: u64 = if str_eq(e, "docx") {
        10
    } else if str_eq(e, "pptx") {
        15
    } else {
        5
    };
    let limit: u64 = match config {
        Some(v) => match v.as_u64() {
            Some(n) => n,
            None => default,
        },
        None => default,
    };
    let n = count_pages(facts, e);
    let ns = u64_to_string(n);
    let ls = u64_to_string(limit);
    if n <= limit {
        make_check(rule, true, message3(ns.as_str(), " page(s) within limit of ", ls.as_str()))
    } else {
        let mut d = String::new();
        push_str(&mut d, ns.as_str());
        push_str(&mut d, " page(s) exceeds max allowed (");
        push_str(&mut d, ls.as_str());
        push_str(&mut d, ")");
        make_check(rule, false, d)
    }
}

// ---------------------------------------------------------------------------
// The rules as values
// ---------------------------------------------------------------------------

pub struct NoEmptyPlaceholders;

impl NoEmptyPlaceholders {
    pub fn name(&self) -> (r: &'static str)
        ensures
            r@ == "no_empty_placeholders"@,
    {
        "no_empty_placeholders"
    }

    pub fn validate(&self, file_path: &str, facts: &FileFacts, _config: Option<&JsonValue>) -> (r: Result<ValidationCheck, String>)
        ensures
            !facts.exists ==> (r matches Ok(c) && plain_check(c, "no_empty_placeholders"@, false, not_found_text(file_path@))),
            facts.exists ==> match regex_error(placeholder_pattern()) {
                Some(e) => r matches Err(m) && m@ == e,
                None => r matches Ok(c) && {
                    let found = found_placeholders(*facts, file_path@);
                    &&& c.rule@ == "no_empty_placeholders"@
                    &&& c.passed == (found.len() == 0)
                    &&& found.len() == 0 ==> c.details is None && c.fix_tool is None && c.fix_args is None
                    &&& found.len() > 0 ==> {
                        &&& opt_view(c.details) == Some("Found "@ + decimal(found.len()) + " placeholder(s): "@ + join(found, ", "@))
                        &&& opt_view(c.fix_tool) == Some("office_replace_text"@)
                        &&& placeholder_fix_args(c, file_path@, found)
                    }
                },
            },
    {
        no_empty_placeholders(file_path, facts)
    }
}

pub struct BrandColorsMatch;

impl BrandColorsMatch {
    pub fn name(&self) -> (r: &'static str)
        ensures
            r@ == "brand_colors_match"@,
    {
        "brand_colors_match"
    }

    pub fn validate(&self, file_path: &str, facts: &FileFacts, config: Option<&JsonValue>) -> (r: Result<ValidationCheck, String>)
        ensures
            r matches Ok(c) && plain_check(c, "brand_colors_match"@, brand_outcome(file_path@, *facts, opt_json(config)).0, brand_outcome(file_path@, *facts, opt_json(config)).1),
    {
        Ok(brand_colors_match(file_path, facts, config))
    }
}

pub struct MaxPages;

impl MaxPages {
    pub fn name(&self) -> (r: &'static str)
        ensures
            r@ == "max_pages"@,
    {
        "max_pages"
    }

    pub fn validate(&self, file_path: &str, facts: &FileFacts, config: Option<&JsonValue>) -> (r: Result<ValidationCheck, String>)
        requires
            marks_fit(*facts),
        ensures
            r matches Ok(c) && plain_check(c, "max_pages"@, max_pages_outcome(file_path@, *facts, opt_json(config)).0, max_pages_outcome(file_path@, *facts, opt_json(config)).1),
    {
        Ok(max_pages(file_path, facts, config))
    }
}

pub struct StylesExist;

impl StylesExist {
    pub fn name(&self) -> (r: &'static str)
        ensures
            r@ == "styles_exist"@,
    {
        "styles_exist"
    }

    pub fn validate(&self, file_path: &str, facts: &FileFacts, config: Option<&JsonValue>) -> (r: Result<ValidationCheck, String>)
        ensures
            r matches Ok(c) && plain_check(c, "styles_exist"@, styles_outcome(file_path@, *facts, opt_json(config)).0, styles_outcome(file_path@, *facts, opt_json(config)).1),
    {
        Ok(styles_exist(file_path, facts, config))
    }
}

pub struct CrossReferencesValid;

impl CrossReferencesValid {
    pub fn name(&self) -> (r: &'static str)
        ensures
            r@ == "cross_references_valid"@,
    {
        "cross_references_valid"
    }

    pub fn validate(&self, file_path: &str, facts: &FileFacts, _config: Option<&JsonValue>) -> (r: Result<ValidationCheck, String>)
        requires
            counts_fit(*facts),
        ensures
            r matches Ok(c) && plain_check(c, "cross_references_valid"@, cross_refs_outcome(file_path@, *facts).0, cross_refs_outcome(file_path@, *facts).1),
    {
        Ok(cross_references_valid(file_path, facts))
    }
}

pub struct OOXMLValid;

impl OOXMLValid {
    pub fn name(&self) -> (r: &'static str)
        ensures
            r@ == "ooxml_valid"@,
    {
        "ooxml_valid"
    }

    pub fn validate(&self, file_path: &str, facts: &FileFacts, _config: Option<&JsonValue>) -> (r: Result<ValidationCheck, String>)
        ensures
            r matches Ok(c) && plain_check(c, "ooxml_valid"@, ooxml_outcome(file_path@, *facts).0, ooxml_outcome(file_path@, *facts).1),
    {
        Ok(ooxml_valid(file_path, facts))
    }
}

} // verus!
