//! Integrity checks of an OOXML package: its ZIP structure, content types,
//! relationship targets and XML well-formedness.
use vstd::prelude::*;
use crate::text::{
    chars_of, contains, contains_seq, decimal, ends_with, find_last, has_prefix, has_suffix,
    join, join_strings, last_of, lines, lines_of, push_str, seq_eq, split_chars, split_on,
    starts_with, string_of, strings_view, trim, trim_chars, trim_leading, trim_leading_chars,
    u64_to_string, slice_chars, first_at, find_at,
};
use crate::patchers::{trim_end_all, trim_end_all_exec};
use crate::xml::{xml_syntax_error, first_xml_error};

verus! {

pub struct IntegrityReport {
    pub passed: bool,
    pub checks: Vec<IntegrityCheck>,
    pub duration_ms: u64,
}

pub struct IntegrityCheck {
    pub name: String,
    pub passed: bool,
    pub details: String,
    pub errors: Option<Vec<String>>,
}

pub struct IntegrityValidator;

/// A member of the archive as the checks see it: its name, the sizes its
/// header declares, and its content read as UTF-8 text (or the reader's
/// error).
pub struct ZipMember {
    pub name: String,
    pub size: u64,
    pub compressed_size: u64,
    pub content: Result<String, String>,
}

pub open spec fn member_names(ms: Seq<ZipMember>) -> Seq<Seq<char>> {
    ms.map_values(|m: ZipMember| m.name@)
}

/// What a check reports: passed exactly when there are no errors, the
/// errors listed only when there are some.
pub open spec fn check_is(c: IntegrityCheck, name: Seq<char>, errors: Seq<Seq<char>>, details: Seq<char>) -> bool {
    &&& c.name@ == name
    &&& c.passed == (errors.len() == 0)
    &&& c.details@ == details
    &&& if errors.len() == 0 {
        c.errors is None
    } else {
        c.errors is Some && strings_view(c.errors.unwrap()@) == errors
    }
}

fn make_check(name: &str, errors: Vec<String>, details: String) -> (c: IntegrityCheck)
    ensures
        check_is(c, name@, strings_view(errors@), details@),
{
    let passed = errors.len() == 0;
    IntegrityCheck {
        name: name.to_owned(),
        passed,
        details,
        errors: if passed { None } else { Some(errors) },
    }
}

pub open spec fn quoted(n: Seq<char>) -> Seq<char> {
    seq!['\''] + n + seq!['\'']
}

fn push_quoted(out: &mut String, n: &str)
    ensures
        final(out)@ == old(out)@ + quoted(n@),
{
    out.push('\'');
    push_str(out, n);
    out.push('\'');
    assert(out@ =~= old(out)@ + quoted(n@));
}

// ---------------------------------------------------------------------------
// ZIP structure
// ---------------------------------------------------------------------------

/// A directory entry, as the `zip` crate tells one: its name ends in `/` or
/// `\`.
pub open spec fn is_dir_name(n: Seq<char>) -> bool {
    n.len() > 0 && (n.last() == '/' || n.last() == '\\')
}

pub open spec fn member_issues(m: ZipMember) -> Seq<Seq<char>> {
    let n = m.name@;
    if is_dir_name(n) {
        Seq::empty()
    } else {
        (if m.size > 0 && m.compressed_size == 0 && !ends_with(n, seq!['/']) {
            seq![quoted(n) + " is empty but declares "@ + decimal(m.size as nat) + " bytes"@]
        } else {
            Seq::empty()
        }) + (if starts_with(n, seq!['/']) || contains_seq(n, ".."@) || starts_with(n, seq!['\\']) {
            seq![quoted(n) + " has unsafe path"@]
        } else {
            Seq::empty()
        })
    }
}

pub open spec fn structure_issues(ms: Seq<ZipMember>) -> Seq<Seq<char>>
    decreases ms.len(),
{
    if ms.len() == 0 {
        Seq::empty()
    } else {
        structure_issues(ms.drop_last()) + member_issues(ms.last())
    }
}

pub open spec fn structure_details(ms: Seq<ZipMember>) -> Seq<char> {
    decimal(ms.len()) + " entries, "@ + decimal(structure_issues(ms).len()) + " issues"@
}

fn push_all(out: &mut Vec<String>, more: Vec<String>)
    ensures
        strings_view(final(out)@) == strings_view(old(out)@) + strings_view(more@),
{
    let ghost start = strings_view(out@);
    let mut i: usize = 0;
    while i < more.len()
        invariant
            i <= more@.len(),
            strings_view(out@) == start + strings_view(more@).take(i as int),
        decreases more@.len() - i,
    {
        let ghost before = strings_view(out@);
        let s = more[i].clone();
        out.push(s);
        proof {
            assert(strings_view(out@) =~= before.push(s@));
            assert(strings_view(more@).take(i + 1) =~= strings_view(more@).take(i as int).push(more@[i as int]@));
        }
        i = i + 1;
    }
    assert(strings_view(more@).take(more@.len() as int) =~= strings_view(more@));
}

fn issues_of(m: &ZipMember) -> (r: Vec<String>)
    ensures
        strings_view(r@) == member_issues(*m),
{
    let mut r: Vec<String> = Vec::new();
    let n = chars_of(m.name.as_str());
    let dir = n.len() > 0 && (n[n.len() - 1] == '/' || n[n.len() - 1] == '\\');
    if dir {
        assert(strings_view(r@) =~= member_issues(*m));
        return r;
    }
    let slash = vec!['/'];
    let backslash = vec!['\\'];
    let dots = chars_of("..");
    let ghost first: Seq<Seq<char>> = if m.size > 0 && m.compressed_size == 0 && !ends_with(n@, seq!['/']) {
        seq![quoted(n@) + " is empty but declares "@ + decimal(m.size as nat) + " bytes"@]
    } else {
        Seq::empty()
    };
    assert(slash@ =~= seq!['/']);
    assert(backslash@ =~= seq!['\\']);
    if m.size > 0 && m.compressed_size == 0 && !has_suffix(&n, &slash) {
        let mut e = String::new();
        push_quoted(&mut e, m.name.as_str());
        push_str(&mut e, " is empty but declares ");
        let d = u64_to_string(m.size);
        push_str(&mut e, d.as_str());
        push_str(&mut e, " bytes");
        r.push(e);
    }
    assert(strings_view(r@) =~= first);
    if has_prefix(&n, &slash) || contains(&n, &dots) || has_prefix(&n, &backslash) {
        let mut e = String::new();
        push_quoted(&mut e, m.name.as_str());
        push_str(&mut e, " has unsafe path");
        let ghost before = strings_view(r@);
        r.push(e);
        assert(strings_view(r@) =~= before.push(quoted(n@) + " has unsafe path"@));
    }
    assert(strings_view(r@) =~= member_issues(*m));
    r
}

// ---------------------------------------------------------------------------
// Content types
// ---------------------------------------------------------------------------

/// The first member called `name`.
pub open spec fn first_member(ms: Seq<ZipMember>, name: Seq<char>) -> Option<int>
    decreases ms.len(),
{
    if ms.len() == 0 {
        None
    } else if ms[0].name@ == name {
        Some(0)
    } else {
        match first_member(ms.drop_first(), name) {
            Some(i) => Some(i + 1),
            None => None,
        }
    }
}

pub proof fn lemma_first_member(ms: Seq<ZipMember>, name: Seq<char>)
    ensures
        match first_member(ms, name) {
            Some(i) => 0 <= i < ms.len() && ms[i].name@ == name,
            None => forall|j: int| 0 <= j < ms.len() ==> ms[j].name@ != name,
        },
    decreases ms.len(),
{
    if ms.len() > 0 && ms[0].name@ != name {
        lemma_first_member(ms.drop_first(), name);
        assert forall|j: int| 0 < j < ms.len() implies ms[j].name@ == ms.drop_first()[j - 1].name@ by {}
    }
}

spec fn shifted(o: Option<int>, k: int) -> Option<int> {
    match o {
        Some(i) => Some(i + k),
        None => None,
    }
}

fn member_index(ms: &Vec<ZipMember>, name: &str) -> (r: Option<usize>)
    ensures
        match r {
            Some(i) => first_member(ms@, name@) == Some(i as int) && i < ms@.len(),
            None => first_member(ms@, name@) is None,
        },
{
    let mut i: usize = 0;
    proof {
        assert(ms@.skip(0) =~= ms@);
    }
    while i < ms.len()
        invariant
            i <= ms@.len(),
            first_member(ms@, name@) == shifted(first_member(ms@.skip(i as int), name@), i as int),
        decreases ms@.len() - i,
    {
        proof {
            assert(ms@.skip(i as int)[0] == ms@[i as int]);
            assert(ms@.skip(i as int).drop_first() =~= ms@.skip(i + 1));
        }
        if crate::text::str_eq(ms[i].name.as_str(), name) {
            return Some(i);
        }
        i = i + 1;
    }
    None
}

/// Whether a member counts as covered by the content types.
pub open spec fn covered(n: Seq<char>, text: Seq<char>) -> bool {
    &&& n != "[Content_Types].xml"@
    &&& !ends_with(n, seq!['/'])
    &&& (contains_seq(text, n) || starts_with(n, "_rels/"@) || n == "docProps/app.xml"@
        || n == "docProps/core.xml"@)
}

pub open spec fn covered_count(ms: Seq<ZipMember>, text: Seq<char>) -> nat
    decreases ms.len(),
{
    if ms.len() == 0 {
        0
    } else {
        covered_count(ms.drop_last(), text) + if covered(ms.last().name@, text) { 1nat } else { 0nat }
    }
}

pub open spec fn types_issues(text: Seq<char>) -> Seq<Seq<char>> {
    if !contains_seq(text, "<Types"@) || !contains_seq(text, "</Types>"@) {
        seq!["[Content_Types].xml has invalid structure"@]
    } else {
        Seq::empty()
    }
}

/// The content-types check: it fails when the part is missing, errs when
/// the part cannot be read as text, and otherwise checks that the part has
/// a `Types` element; it counts the members the part covers.
pub open spec fn content_types_check(ms: Seq<ZipMember>, c: Result<IntegrityCheck, String>) -> bool {
    match first_member(ms, "[Content_Types].xml"@) {
        None => c is Ok && check_is(
            c.unwrap(),
            "content_types"@,
            seq!["[Content_Types].xml not found"@],
            "Missing [Content_Types].xml — not a valid OOXML document"@,
        ),
        Some(i) => match ms[i].content {
            Err(e) => c is Err && c.get_Err_0()@ == e@,
            Ok(t) => c is Ok && check_is(
                c.unwrap(),
                "content_types"@,
                types_issues(t@),
                decimal(ms.len()) + " entries, "@ + decimal(covered_count(ms, t@)) + " covered, "@
                    + decimal(types_issues(t@).len()) + " issues"@,
            ),
        },
    }
}

fn is_covered(n: &str, text: &Vec<char>) -> (b: bool)
    ensures
        b == covered(n@, text@),
{
    let nv = chars_of(n);
    let slash = vec!['/'];
    assert(slash@ =~= seq!['/']);
    let rels = chars_of("_rels/");
    !crate::text::str_eq(n, "[Content_Types].xml") && !has_suffix(&nv, &slash) && (contains(text, &nv)
        || has_prefix(&nv, &rels) || crate::text::str_eq(n, "docProps/app.xml")
        || crate::text::str_eq(n, "docProps/core.xml"))
}

fn check_content_types(ms: &Vec<ZipMember>) -> (r: Result<IntegrityCheck, String>)
    ensures
        content_types_check(ms@, r),
{
    let idx = member_index(ms, "[Content_Types].xml");
    match idx {
        None => {
            let mut errors: Vec<String> = Vec::new();
            errors.push("[Content_Types].xml not found".to_owned());
            assert(strings_view(errors@) =~= seq!["[Content_Types].xml not found"@]);
            Ok(make_check(
                "content_types",
                errors,
                "Missing [Content_Types].xml — not a valid OOXML document".to_owned(),
            ))
        },
        Some(i) => {
            match &ms[i].content {
                Err(e) => Err(e.clone()),
                Ok(t) => {
                    let text = chars_of(t.as_str());
                    let mut errors: Vec<String> = Vec::new();
                    let open = chars_of("<Types");
                    let close = chars_of("</Types>");
                    if !contains(&text, &open) || !contains(&text, &close) {
                        errors.push("[Content_Types].xml has invalid structure".to_owned());
                    }
                    assert(strings_view(errors@) =~= types_issues(text@));
                    let mut count: u64 = 0;
                    let mut k: usize = 0;
                    while k < ms.len()
                        invariant
                            k <= ms@.len(),
                            count as nat == covered_count(ms@.take(k as int), text@),
                            count <= k,
                        decreases ms@.len() - k,
                    {
                        proof {
                            assert(ms@.take(k + 1).drop_last() =~= ms@.take(k as int));
                        }
                        if is_covered(ms[k].name.as_str(), &text) {
                            count = count + 1;
                        }
                        k = k + 1;
                    }
                    proof {
                        assert(ms@.take(ms@.len() as int) =~= ms@);
                    }
                    let mut details = u64_to_string(ms.len() as u64);
                    push_str(&mut details, " entries, ");
                    let c = u64_to_string(count);
                    push_str(&mut details, c.as_str());
                    push_str(&mut details, " covered, ");
                    let n = u64_to_string(errors.len() as u64);
                    push_str(&mut details, n.as_str());
                    push_str(&mut details, " issues");
                    Ok(make_check("content_types", errors, details))
                },
            }
        },
    }
}

// ---------------------------------------------------------------------------
// Relationships
// ---------------------------------------------------------------------------

/// The path segments of `segs` applied to `parts`: `..` drops the last part,
/// `.` and empty segments are skipped, any other segment is appended.
pub open spec fn walk(parts: Seq<Seq<char>>, segs: Seq<Seq<char>>) -> Seq<Seq<char>>
    decreases segs.len(),
{
    if segs.len() == 0 {
        parts
    } else {
        let p = walk(parts, segs.drop_last());
        let s = segs.last();
        if s == ".."@ {
            if p.len() > 0 { p.drop_last() } else { p }
        } else if s == "."@ || s.len() == 0 {
            p
        } else {
            p.push(s)
        }
    }
}

/// The part a relationship target names, resolved against the folder of
/// the relationship file: an absolute target loses its leading slashes;
/// a `_rels` folder stands for its parent; a file at the top resolves the
/// target to itself.
pub open spec fn resolved_target(rel_file: Seq<char>, target: Seq<char>) -> Seq<char> {
    if starts_with(target, seq!['/']) {
        trim_leading(target, '/')
    } else {
        match last_of(rel_file, seq!['/']) {
            None => target,
            Some(i) => {
                let dir = rel_file.subrange(0, i);
                let base = if ends_with(dir, "_rels"@) {
                    trim_end_all(trim_end_all(dir, "_rels"@), seq!['/'])
                } else {
                    dir
                };
                if base.len() == 0 {
                    target
                } else {
                    join(walk(split_on(base, '/'), split_on(target, '/')), "/"@)
                }
            },
        }
    }
}

/// Resolves a relationship target against the relationship file.
pub fn resolve_rel_target(rel_file: &str, target: &str) -> (r: String)
    ensures
        r@ == resolved_target(rel_file@, target@),
{
    let t = chars_of(target);
    let slash = vec!['/'];
    assert(slash@ =~= seq!['/']);
    if has_prefix(&t, &slash) {
        let tr = trim_leading_chars(&t, '/');
        return string_of(&tr);
    }
    let f = chars_of(rel_file);
    let i = match find_last(&f, &slash) {
        Some(i) => i,
        None => {
            return target.to_owned();
        },
    };
    let dir = slice_chars(&f, 0, i);
    let rels = chars_of("_rels");
    let base = if has_suffix(&dir, &rels) {
        let a = trim_end_all_exec(&dir, &rels);
        trim_end_all_exec(&a, &slash)
    } else {
        dir
    };
    if base.len() == 0 {
        return target.to_owned();
    }
    let base_parts = split_chars(&base, '/');
    let mut parts: Vec<String> = Vec::new();
    let mut k: usize = 0;
    while k < base_parts.len()
        invariant
            k <= base_parts@.len(),
            strings_view(parts@) == base_parts@.map_values(|v: Vec<char>| v@).take(k as int),
        decreases base_parts@.len() - k,
    {
        let ghost before = strings_view(parts@);
        let s = string_of(&base_parts[k]);
        parts.push(s);
        proof {
            assert(strings_view(parts@) =~= before.push(s@));
            assert(base_parts@.map_values(|v: Vec<char>| v@).take(k + 1) =~= before.push(s@));
        }
        k = k + 1;
    }
    proof {
        assert(base_parts@.map_values(|v: Vec<char>| v@).take(base_parts@.len() as int)
            =~= base_parts@.map_values(|v: Vec<char>| v@));
    }
    let ghost start = strings_view(parts@);
    let segs = split_chars(&t, '/');
    let ghost sv = segs@.map_values(|v: Vec<char>| v@);
    let dotdot = chars_of("..");
    let dot = chars_of(".");
    let mut j: usize = 0;
    proof {
        assert(sv.take(0) =~= Seq::<Seq<char>>::empty());
    }
    while j < segs.len()
        invariant
            j <= segs@.len(),
            sv == segs@.map_values(|v: Vec<char>| v@),
            dotdot@ == ".."@,
            dot@ == "."@,
            strings_view(parts@) == walk(start, sv.take(j as int)),
        decreases segs@.len() - j,
    {
        let ghost before = strings_view(parts@);
        proof {
            assert(sv.take(j + 1).drop_last() =~= sv.take(j as int));
            assert(sv.take(j + 1).last() == segs@[j as int]@);
        }
        let seg = &segs[j];
        if seq_eq(seg, &dotdot) {
            if parts.len() > 0 {
                parts.pop();
                proof {
                    assert(strings_view(parts@) =~= before.drop_last());
                }
            }
        } else if seq_eq(seg, &dot) || seg.len() == 0 {
        } else {
            let s = string_of(seg);
            parts.push(s);
            proof {
                assert(strings_view(parts@) =~= before.push(s@));
            }
        }
        j = j + 1;
    }
    proof {
        assert(sv.take(segs@.len() as int) =~= sv);
    }
    join_strings(&parts, "/")
}

/// The target of a relationship line: after the first `Target="` of the
/// trimmed line (up to any second one), the text before the first quote.
pub open spec fn line_target(line: Seq<char>) -> Option<Seq<char>> {
    let t = trim(line);
    match first_at(t, "Target=\""@, 0) {
        None => None,
        Some(i) => {
            let from = i + "Target=\""@.len();
            let seg = match first_at(t, "Target=\""@, from) {
                Some(j) => t.subrange(from, j),
                None => t.subrange(from, t.len() as int),
            };
            match first_at(seg, seq!['"'], 0) {
                Some(q) => Some(seg.subrange(0, q)),
                None => Some(seg),
            }
        },
    }
}

pub open spec fn external_target(t: Seq<char>) -> bool {
    starts_with(t, "http://"@) || starts_with(t, "https://"@) || starts_with(t, "ftp://"@)
}

pub open spec fn dangling_message(rel_file: Seq<char>, target: Seq<char>) -> Seq<char> {
    quoted(rel_file) + " references "@ + quoted(target) + " — resolved to "@
        + quoted(resolved_target(rel_file, target)) + " not found in archive"@
}

/// The errors of one line: its target, when it is a part of the package
/// that the package lacks.
pub open spec fn line_errors(rel_file: Seq<char>, line: Seq<char>, names: Seq<Seq<char>>) -> Seq<Seq<char>> {
    match line_target(line) {
        Some(t) => if !external_target(t) && resolved_target(rel_file, t).len() > 0
            && !names.contains(resolved_target(rel_file, t)) {
            seq![dangling_message(rel_file, t)]
        } else {
            Seq::empty()
        },
        None => Seq::empty(),
    }
}

/// Law: a relationship to the web or to an FTP server is never reported as
/// dangling.  A line whose target starts with `http://`, `https://` or
/// `ftp://` gives no error, whatever the package holds.
pub proof fn lemma_web_targets_never_dangle(rel_file: Seq<char>, line: Seq<char>, names: Seq<Seq<char>>, t: Seq<char>)
    requires
        line_target(line) == Some(t),
        starts_with(t, "ftp://"@) || starts_with(t, "https://"@) || starts_with(t, "http://"@),
    ensures
        line_errors(rel_file, line, names) == Seq::<Seq<char>>::empty(),
{
}

/// Law: a relationship to a part inside the package that the package lacks
/// is reported once.  A line whose target is not a web or FTP address and
/// resolves to a part name absent from `names` gives exactly one error,
/// naming the relationships part, the target and the part it resolves to.
pub proof fn lemma_missing_part_reported(rel_file: Seq<char>, line: Seq<char>, names: Seq<Seq<char>>, t: Seq<char>)
    requires
        line_target(line) == Some(t),
        !(starts_with(t, "ftp://"@) || starts_with(t, "https://"@) || starts_with(t, "http://"@)),
        resolved_target(rel_file, t).len() > 0,
        !names.contains(resolved_target(rel_file, t)),
    ensures
        line_errors(rel_file, line, names) == seq![
            quoted(rel_file) + " references "@ + quoted(t) + " — resolved to "@ + quoted(resolved_target(rel_file, t))
                + " not found in archive"@,
        ],
{
}

/// Law: a relationships part whose every line either names no target or
/// names a web or FTP address contributes no errors.
pub proof fn lemma_web_only_rels_are_clean(rel_file: Seq<char>, ls: Seq<Seq<char>>, names: Seq<Seq<char>>)
    requires
        forall|i: int| 0 <= i < ls.len() ==> match line_target(#[trigger] ls[i]) {
            Some(t) => starts_with(t, "ftp://"@) || starts_with(t, "https://"@) || starts_with(t, "http://"@),
            None => true,
        },
    ensures
        lines_errors(rel_file, ls, names) == Seq::<Seq<char>>::empty(),
    decreases ls.len(),
{
    if ls.len() > 0 {
        lemma_web_only_rels_are_clean(rel_file, ls.drop_last(), names);
        assert(ls.last() == ls[ls.len() - 1]);
        assert(lines_errors(rel_file, ls.drop_last(), names) + line_errors(rel_file, ls.last(), names)
            =~= Seq::<Seq<char>>::empty());
    }
}

pub open spec fn lines_errors(rel_file: Seq<char>, ls: Seq<Seq<char>>, names: Seq<Seq<char>>) -> Seq<Seq<char>>
    decreases ls.len(),
{
    if ls.len() == 0 {
        Seq::empty()
    } else {
        lines_errors(rel_file, ls.drop_last(), names) + line_errors(rel_file, ls.last(), names)
    }
}

pub open spec fn is_rels(m: ZipMember) -> bool {
    ends_with(m.name@, ".rels"@)
}

pub open spec fn rel_file_errors(m: ZipMember, names: Seq<Seq<char>>) -> Seq<Seq<char>> {
    match m.content {
        Err(_) => seq!["Cannot read "@ + quoted(m.name@)],
        Ok(t) => lines_errors(m.name@, lines(t@), names),
    }
}

pub open spec fn rels_errors(ms: Seq<ZipMember>, names: Seq<Seq<char>>) -> Seq<Seq<char>>
    decreases ms.len(),
{
    if ms.len() == 0 {
        Seq::empty()
    } else {
        rels_errors(ms.drop_last(), names) + if is_rels(ms.last()) {
            rel_file_errors(ms.last(), names)
        } else {
            Seq::empty()
        }
    }
}

pub open spec fn rels_count(ms: Seq<ZipMember>) -> nat
    decreases ms.len(),
{
    if ms.len() == 0 {
        0
    } else {
        rels_count(ms.drop_last()) + if is_rels(ms.last()) { 1nat } else { 0nat }
    }
}

fn name_listed(ms: &Vec<ZipMember>, n: &String) -> (b: bool)
    ensures
        b == member_names(ms@).contains(n@),
{
    let mut k: usize = 0;
    while k < ms.len()
        invariant
            k <= ms@.len(),
            forall|j: int| 0 <= j < k ==> ms@[j].name@ != n@,
        decreases ms@.len() - k,
    {
        if crate::text::str_eq(ms[k].name.as_str(), n.as_str()) {
            assert(member_names(ms@)[k as int] == n@);
            return true;
        }
        k = k + 1;
    }
    assert forall|j: int| 0 <= j < member_names(ms@).len() implies member_names(ms@)[j] != n@ by {
        assert(member_names(ms@)[j] == ms@[j].name@);
    }
    false
}

fn target_of(line: &Vec<char>) -> (r: Option<Vec<char>>)
    ensures
        match r {
            Some(t) => line_target(line@) == Some(t@),
            None => line_target(line@) is None,
        },
{
    let t = trim_chars(line);
    let pat = chars_of("Target=\"");
    match find_at(&t, &pat, 0) {
        None => None,
        Some(i) => {
            let from = i + pat.len();
            let seg = match find_at(&t, &pat, from) {
                Some(j) => slice_chars(&t, from, j),
                None => slice_chars(&t, from, t.len()),
            };
            let quote = vec!['"'];
            assert(quote@ =~= seq!['"']);
            match find_at(&seg, &quote, 0) {
                Some(q) => Some(slice_chars(&seg, 0, q)),
                None => {
                    assert(seg@.subrange(0, seg@.len() as int) =~= seg@);
                    Some(seg)
                },
            }
        },
    }
}

fn line_errors_of(ms: &Vec<ZipMember>, rel_file: &str, line: &Vec<char>) -> (r: Vec<String>)
    ensures
        strings_view(r@) == line_errors(rel_file@, line@, member_names(ms@)),
{
    let mut r: Vec<String> = Vec::new();
    match target_of(line) {
        Some(t) => {
            let http = chars_of("http://");
            let https = chars_of("https://");
            let ftp = chars_of("ftp://");
            if has_prefix(&t, &http) || has_prefix(&t, &https) || has_prefix(&t, &ftp) {
                assert(strings_view(r@) =~= line_errors(rel_file@, line@, member_names(ms@)));
                return r;
            }
            let ts = string_of(&t);
            let resolved = resolve_rel_target(rel_file, ts.as_str());
            if resolved.unicode_len() > 0 && !name_listed(ms, &resolved) {
                let mut e = String::new();
                push_quoted(&mut e, rel_file);
                push_str(&mut e, " references ");
                push_quoted(&mut e, ts.as_str());
                push_str(&mut e, " — resolved to ");
                push_quoted(&mut e, resolved.as_str());
                push_str(&mut e, " not found in archive");
                r.push(e);
            }
            assert(strings_view(r@) =~= line_errors(rel_file@, line@, member_names(ms@)));
            r
        },
        None => {
            assert(strings_view(r@) =~= line_errors(rel_file@, line@, member_names(ms@)));
            r
        },
    }
}

fn rel_file_errors_of(ms: &Vec<ZipMember>, m: &ZipMember) -> (r: Vec<String>)
    ensures
        strings_view(r@) == rel_file_errors(*m, member_names(ms@)),
{
    let mut r: Vec<String> = Vec::new();
    match &m.content {
        Err(_) => {
            let mut e = String::new();
            push_str(&mut e, "Cannot read ");
            push_quoted(&mut e, m.name.as_str());
            r.push(e);
            assert(strings_view(r@) =~= rel_file_errors(*m, member_names(ms@)));
            r
        },
        Ok(text) => {
            let tv = chars_of(text.as_str());
            let ls = lines_of(&tv);
            let ghost lv = lines(tv@);
            let mut i: usize = 0;
            proof {
                assert(lv.take(0) =~= Seq::<Seq<char>>::empty());
            }
            while i < ls.len()
                invariant
                    i <= ls@.len(),
                    ls@.map_values(|l: Vec<char>| l@) == lv,
                    strings_view(r@) == lines_errors(m.name@, lv.take(i as int), member_names(ms@)),
                decreases ls@.len() - i,
            {
                proof {
                    assert(lv.take(i + 1).drop_last() =~= lv.take(i as int));
                    assert(lv.take(i + 1).last() == ls@[i as int]@);
                }
                let more = line_errors_of(ms, m.name.as_str(), &ls[i]);
                push_all(&mut r, more);
                i = i + 1;
            }
            proof {
                assert(lv.take(ls@.len() as int) =~= lv);
            }
            r
        },
    }
}

pub open spec fn relationships_details(ms: Seq<ZipMember>) -> Seq<char> {
    decimal(rels_count(ms)) + " relationship files, "@
        + decimal(rels_errors(ms, member_names(ms)).len()) + " issues"@
}

fn check_relationships(ms: &Vec<ZipMember>) -> (c: IntegrityCheck)
    ensures
        check_is(c, "relationships"@, rels_errors(ms@, member_names(ms@)), relationships_details(ms@)),
{
    let ghost names = member_names(ms@);
    let mut errors: Vec<String> = Vec::new();
    let mut count: u64 = 0;
    let mut k: usize = 0;
    let suffix = chars_of(".rels");
    while k < ms.len()
        invariant
            k <= ms@.len(),
            names == member_names(ms@),
            suffix@ == ".rels"@,
            count <= k,
            count as nat == rels_count(ms@.take(k as int)),
            strings_view(errors@) == rels_errors(ms@.take(k as int), names),
        decreases ms@.len() - k,
    {
        proof {
            assert(ms@.take(k + 1).drop_last() =~= ms@.take(k as int));
            assert(ms@.take(k + 1).last() == ms@[k as int]);
        }
        let n = chars_of(ms[k].name.as_str());
        if has_suffix(&n, &suffix) {
            count = count + 1;
            let more = rel_file_errors_of(ms, &ms[k]);
            push_all(&mut errors, more);
        } else {
            assert(strings_view(errors@) =~= rels_errors(ms@.take(k + 1), names));
        }
        k = k + 1;
    }
    proof {
        assert(ms@.take(ms@.len() as int) =~= ms@);
    }
    let mut details = u64_to_string(count);
    push_str(&mut details, " relationship files, ");
    let n = u64_to_string(errors.len() as u64);
    push_str(&mut details, n.as_str());
    push_str(&mut details, " issues");
    make_check("relationships", errors, details)
}

// ---------------------------------------------------------------------------
// Well-formed XML
// ---------------------------------------------------------------------------

pub open spec fn is_xml_member(m: ZipMember) -> bool {
    ends_with(m.name@, ".xml"@) || ends_with(m.name@, ".rels"@)
}

/// The problem found in one XML member, if any: unreadable, empty (white
/// space only), or the first error a reader meets in it.
pub open spec fn xml_member_errors(m: ZipMember) -> Seq<Seq<char>> {
    match m.content {
        Err(_) => seq![quoted(m.name@) + ": cannot read content"@],
        Ok(t) => if trim(t@).len() == 0 {
            seq![quoted(m.name@) + ": empty XML file"@]
        } else {
            match xml_syntax_error(t@) {
                Some(e) => seq![quoted(m.name@) + ": 1 parse error(s) — pos "@ + decimal(e.0) + ": "@ + e.1],
                None => Seq::empty(),
            }
        },
    }
}

pub open spec fn xml_errors(ms: Seq<ZipMember>) -> Seq<Seq<char>>
    decreases ms.len(),
{
    if ms.len() == 0 {
        Seq::empty()
    } else {
        xml_errors(ms.drop_last()) + if is_xml_member(ms.last()) {
            xml_member_errors(ms.last())
        } else {
            Seq::empty()
        }
    }
}

pub open spec fn xml_count(ms: Seq<ZipMember>) -> nat
    decreases ms.len(),
{
    if ms.len() == 0 {
        0
    } else {
        xml_count(ms.drop_last()) + if is_xml_member(ms.last()) { 1nat } else { 0nat }
    }
}

pub open spec fn xml_details(ms: Seq<ZipMember>) -> Seq<char> {
    decimal(xml_count(ms)) + " XML files checked, "@ + decimal(xml_errors(ms).len()) + " issues"@
}

fn xml_member_errors_of(m: &ZipMember) -> (r: Vec<String>)
    ensures
        strings_view(r@) == xml_member_errors(*m),
{
    let mut r: Vec<String> = Vec::new();
    match &m.content {
        Err(_) => {
            let mut e = String::new();
            push_quoted(&mut e, m.name.as_str());
            push_str(&mut e, ": cannot read content");
            r.push(e);
        },
        Ok(t) => {
            let tv = chars_of(t.as_str());
            let tt = trim_chars(&tv);
            if tt.len() == 0 {
                let mut e = String::new();
                push_quoted(&mut e, m.name.as_str());
                push_str(&mut e, ": empty XML file");
                r.push(e);
            } else {
                match first_xml_error(t.as_str()) {
                    Some(err) => {
                        let mut e = String::new();
                        push_quoted(&mut e, m.name.as_str());
                        push_str(&mut e, ": 1 parse error(s) — pos ");
                        let p = u64_to_string(err.0);
                        push_str(&mut e, p.as_str());
                        push_str(&mut e, ": ");
                        push_str(&mut e, err.1.as_str());
                        r.push(e);
                    },
                    None => {},
                }
            }
        },
    }
    assert(strings_view(r@) =~= xml_member_errors(*m));
    r
}

fn check_xml_well_formed(ms: &Vec<ZipMember>) -> (c: IntegrityCheck)
    ensures
        check_is(c, "xml_well_formed"@, xml_errors(ms@), xml_details(ms@)),
{
    let mut errors: Vec<String> = Vec::new();
    let mut count: u64 = 0;
    let mut k: usize = 0;
    let xml = chars_of(".xml");
    let rels = chars_of(".rels");
    while k < ms.len()
        invariant
            k <= ms@.len(),
            xml@ == ".xml"@,
            rels@ == ".rels"@,
            count <= k,
            count as nat == xml_count(ms@.take(k as int)),
            strings_view(errors@) == xml_errors(ms@.take(k as int)),
        decreases ms@.len() - k,
    {
        proof {
            assert(ms@.take(k + 1).drop_last() =~= ms@.take(k as int));
            assert(ms@.take(k + 1).last() == ms@[k as int]);
        }
        let n = chars_of(ms[k].name.as_str());
        if has_suffix(&n, &xml) || has_suffix(&n, &rels) {
            count = count + 1;
            let more = xml_member_errors_of(&ms[k]);
            push_all(&mut errors, more);
        } else {
            assert(strings_view(errors@) =~= xml_errors(ms@.take(k + 1)));
        }
        k = k + 1;
    }
    proof {
        assert(ms@.take(ms@.len() as int) =~= ms@);
    }
    let mut details = u64_to_string(count);
    push_str(&mut details, " XML files checked, ");
    let n = u64_to_string(errors.len() as u64);
    push_str(&mut details, n.as_str());
    push_str(&mut details, " issues");
    make_check("xml_well_formed", errors, details)
}

fn check_zip_structure(ms: &Vec<ZipMember>) -> (c: IntegrityCheck)
    ensures
        check_is(c, "zip_structure"@, structure_issues(ms@), structure_details(ms@)),
{
    let mut errors: Vec<String> = Vec::new();
    let mut k: usize = 0;
    while k < ms.len()
        invariant
            k <= ms@.len(),
            strings_view(errors@) == structure_issues(ms@.take(k as int)),
        decreases ms@.len() - k,
    {
        proof {
            assert(ms@.take(k + 1).drop_last() =~= ms@.take(k as int));
            assert(ms@.take(k + 1).last() == ms@[k as int]);
        }
        let more = issues_of(&ms[k]);
        push_all(&mut errors, more);
        k = k + 1;
    }
    proof {
        assert(ms@.take(ms@.len() as int) =~= ms@);
    }
    let mut details = u64_to_string(ms.len() as u64);
    push_str(&mut details, " entries, ");
    let n = u64_to_string(errors.len() as u64);
    push_str(&mut details, n.as_str());
    push_str(&mut details, " issues");
    make_check("zip_structure", errors, details)
}

// ---------------------------------------------------------------------------
// The report
// ---------------------------------------------------------------------------

/// The report on a package: the four checks in order, passed when all of
/// them pass; an error when the content types cannot be read.  The time
/// taken is left at 0 for the caller, who measures it.
pub open spec fn report_of(ms: Seq<ZipMember>, r: Result<IntegrityReport, String>) -> bool {
    match first_member(ms, "[Content_Types].xml"@) {
        Some(i) if ms[i].content is Err => r is Err && r.get_Err_0()@ == ms[i].content.get_Err_0()@,
        _ => r is Ok && {
            let rep = r.unwrap();
            &&& rep.checks@.len() == 4
            &&& check_is(rep.checks@[0], "zip_structure"@, structure_issues(ms), structure_details(ms))
            &&& content_types_check(ms, Ok(rep.checks@[1]))
            &&& check_is(rep.checks@[2], "relationships"@, rels_errors(ms, member_names(ms)),
                relationships_details(ms))
            &&& check_is(rep.checks@[3], "xml_well_formed"@, xml_errors(ms), xml_details(ms))
            &&& rep.passed == (rep.checks@[0].passed && rep.checks@[1].passed && rep.checks@[2].passed
                && rep.checks@[3].passed)
            &&& rep.duration_ms == 0
        },
    }
}

impl IntegrityValidator {
    /// Checks the members of an archive.
    pub fn verify_members(members: &Vec<ZipMember>) -> (r: Result<IntegrityReport, String>)
        ensures
            report_of(members@, r),
    {
        let zip = check_zip_structure(members);
        let ct = match check_content_types(members) {
            Ok(c) => c,
            Err(e) => {
                return Err(e);
            },
        };
        let rel = check_relationships(members);
        let xml = check_xml_well_formed(members);
        let passed = zip.passed && ct.passed && rel.passed && xml.passed;
        let mut checks: Vec<IntegrityCheck> = Vec::new();
        checks.push(zip);
        checks.push(ct);
        checks.push(rel);
        checks.push(xml);
        Ok(IntegrityReport { passed, checks, duration_ms: 0 })
    }

    /// The report on a file that is not a ZIP archive: one failed
    /// structure check carrying the error.
    pub fn unreadable_archive(err: &str) -> (r: IntegrityReport)
        ensures
            !r.passed,
            r.duration_ms == 0,
            r.checks@.len() == 1,
            check_is(r.checks@[0], "zip_structure"@, seq![err@], "Not a valid ZIP archive: "@ + err@),
    {
        let mut details = String::new();
        push_str(&mut details, "Not a valid ZIP archive: ");
        push_str(&mut details, err);
        let mut errors: Vec<String> = Vec::new();
        errors.push(err.to_owned());
        assert(strings_view(errors@) =~= seq![err@]);
        let c = make_check("zip_structure", errors, details);
        let mut checks: Vec<IntegrityCheck> = Vec::new();
        checks.push(c);
        IntegrityReport { passed: false, checks, duration_ms: 0 }
    }
}

} // verus!
