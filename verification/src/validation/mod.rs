use vstd::prelude::*;
use vstd::utf8::{valid_utf8, decode_utf8};
use crate::json::JsonValue;
use crate::text::{chars_of, push_str, str_eq, strings_view};

pub mod rules;
pub mod engine;

verus! {

/// The outcome of one validation rule on a file.
pub struct ValidationCheck {
    pub rule: String,
    pub passed: bool,
    pub details: Option<String>,
    pub fix_tool: Option<String>,
    pub fix_args: Option<JsonValue>,
}

/// The outcome of all the rules that ran on a file.
pub struct ValidationReport {
    pub passed: bool,
    pub summary: String,
    pub checks: Vec<ValidationCheck>,
    pub duration_ms: u64,
}

/// One entry of an archive as it was read: its name, the uncompressed size
/// its header gives, and its bytes where reading them succeeded.
pub struct ArchiveEntry {
    pub name: String,
    pub size: u64,
    pub data: Option<Vec<u8>>,
}

/// What opening a file as a ZIP archive gave.
pub enum ArchiveRead {
    /// The file could not be opened: the error's text.
    FileError(String),
    /// The file is not a readable archive: the error's text.
    ZipError(String),
    /// The entries that could be read, in order, and how many the archive lists.
    Opened { entries: Vec<ArchiveEntry>, total: usize },
}

/// What the rules read of a file: whether it exists, its first four bytes
/// where it has them, its entries as an archive, and its whole text where
/// it reads as UTF-8 text.
pub struct FileFacts {
    pub exists: bool,
    pub magic: Option<Vec<u8>>,
    pub archive: ArchiveRead,
    pub text: Option<String>,
}

// ---------------------------------------------------------------------------
// Reading entries
// ---------------------------------------------------------------------------

/// The text of an entry: its bytes decoded, where they were read and are UTF-8.
pub open spec fn entry_text(e: ArchiveEntry) -> Option<Seq<char>> {
    match e.data {
        Some(d) => if valid_utf8(d@) {
            Some(decode_utf8(d@))
        } else {
            None
        },
        None => None,
    }
}

/// Index of the first entry named `name`.
pub open spec fn entry_index(es: Seq<ArchiveEntry>, name: Seq<char>) -> Option<int>
    decreases es.len(),
{
    if es.len() == 0 {
        None
    } else if es.last().name@ == name {
        match entry_index(es.drop_last(), name) {
            Some(i) => Some(i),
            None => Some(es.len() - 1),
        }
    } else {
        entry_index(es.drop_last(), name)
    }
}

pub open spec fn has_entry(es: Seq<ArchiveEntry>, name: Seq<char>) -> bool {
    entry_index(es, name) is Some
}

/// The text of the entry named `name`, where there is one and it reads.
pub open spec fn named_text(es: Seq<ArchiveEntry>, name: Seq<char>) -> Option<Seq<char>> {
    match entry_index(es, name) {
        Some(i) => entry_text(es[i]),
        None => None,
    }
}

pub proof fn lemma_entry_index(es: Seq<ArchiveEntry>, name: Seq<char>)
    ensures
        match entry_index(es, name) {
            Some(i) => 0 <= i < es.len() && es[i].name@ == name && forall|j: int| 0 <= j < i ==> es[j].name@ != name,
            None => forall|j: int| 0 <= j < es.len() ==> es[j].name@ != name,
        },
    decreases es.len(),
{
    if es.len() > 0 {
        let d = es.drop_last();
        lemma_entry_index(d, name);
        assert forall|j: int| 0 <= j < d.len() implies d[j] == es[j] by {}
        match entry_index(d, name) {
            Some(i) => {
                assert(entry_index(es, name) == Some(i));
            },
            None => {
                if es.last().name@ == name {
                    assert(entry_index(es, name) == Some(es.len() - 1));
                } else {
                    assert(entry_index(es, name) is None);
                    assert forall|j: int| 0 <= j < es.len() implies es[j].name@ != name by {
                        if j < d.len() {
                            assert(d[j] == es[j]);
                        }
                    }
                }
            },
        }
    }
}

/// The text of an entry.
pub fn text_of(e: &ArchiveEntry) -> (r: Option<String>)
    ensures
        match entry_text(*e) {
            Some(t) => r matches Some(s) && s@ == t,
            None => r is None,
        },
{
    match &e.data {
        Some(d) => crate::patchers::utf8_decode(d.as_slice()),
        None => None,
    }
}

/// Index of the first entry named `name`.
pub fn find_entry(es: &Vec<ArchiveEntry>, name: &str) -> (r: Option<usize>)
    ensures
        r matches Some(i) ==> entry_index(es@, name@) == Some(i as int) && i < es@.len(),
        r is None <==> entry_index(es@, name@) is None,
{
    let mut i: usize = 0;
    proof {
        lemma_entry_index(es@, name@);
    }
    while i < es.len()
        invariant
            i <= es@.len(),
            forall|j: int| 0 <= j < i ==> es@[j].name@ != name@,
            match entry_index(es@, name@) {
                Some(k) => 0 <= k < es@.len() && es@[k].name@ == name@ && forall|j: int| 0 <= j < k ==> es@[j].name@ != name@,
                None => forall|j: int| 0 <= j < es@.len() ==> es@[j].name@ != name@,
            },
        decreases es@.len() - i,
    {
        if str_eq(es[i].name.as_str(), name) {
            return Some(i);
        }
        i = i + 1;
    }
    None
}

/// The text of the entry named `name`.
pub fn text_named(es: &Vec<ArchiveEntry>, name: &str) -> (r: Option<String>)
    ensures
        match named_text(es@, name@) {
            Some(t) => r matches Some(s) && s@ == t,
            None => r is None,
        },
{
    proof {
        lemma_entry_index(es@, name@);
    }
    match find_entry(es, name) {
        Some(i) => {
            proof {
                assert(entry_index(es@, name@) == Some(i as int));
            }
            text_of(&es[i])
        },
        None => None,
    }
}

// ---------------------------------------------------------------------------
// Building checks
// ---------------------------------------------------------------------------

pub open spec fn opt_view(o: Option<String>) -> Option<Seq<char>> {
    match o {
        Some(s) => Some(s@),
        None => None,
    }
}

/// A check of `rule` with the given outcome and details, and no fix.
pub open spec fn plain_check(c: ValidationCheck, rule: Seq<char>, passed: bool, details: Seq<char>) -> bool {
    &&& c.rule@ == rule
    &&& c.passed == passed
    &&& opt_view(c.details) == Some(details)
    &&& c.fix_tool is None
    &&& c.fix_args is None
}

pub fn make_check(rule: &str, passed: bool, details: String) -> (c: ValidationCheck)
    ensures
        plain_check(c, rule@, passed, details@),
{
    ValidationCheck {
        rule: rule.to_owned(),
        passed,
        details: Some(details),
        fix_tool: None,
        fix_args: None,
    }
}

pub fn message(a: &str, b: &str) -> (r: String)
    ensures
        r@ == a@ + b@,
{
    let mut r = String::new();
    push_str(&mut r, a);
    push_str(&mut r, b);
    r
}

pub fn message3(a: &str, b: &str, c: &str) -> (r: String)
    ensures
        r@ == a@ + b@ + c@,
{
    let mut r = String::new();
    push_str(&mut r, a);
    push_str(&mut r, b);
    push_str(&mut r, c);
    r
}

} // verus!
