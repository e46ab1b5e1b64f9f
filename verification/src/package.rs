//! Reading OOXML packages: the entries of a ZIP archive held in memory, and
//! the parts a reader looks up among them.
use vstd::prelude::*;
use vstd::utf8::{decode_utf8, valid_utf8};
use crate::patchers::utf8_decode;
use crate::text::{push_str, str_eq};
use crate::validation::{ArchiveEntry, ArchiveRead};
use crate::integrity::ZipMember;

verus! {

/// The entries (name and bytes, in order) of a ZIP archive held in memory,
/// or where reading fails: whether it failed at opening the archive, and
/// the error's message.
pub uninterp spec fn zip_read(data: Seq<u8>) -> Result<Seq<(Seq<char>, Seq<u8>)>, (bool, Seq<char>)>;

pub open spec fn entries_view(es: Seq<(String, Vec<u8>)>) -> Seq<(Seq<char>, Seq<u8>)> {
    es.map_values(|e: (String, Vec<u8>)| (e.0@, e.1@))
}

/// Reads every entry of a ZIP archive in memory with `zip::ZipArchive`:
/// `by_index` and `read_to_end` in turn.  Trusted: the result is a
/// function of the bytes alone.
#[verifier::external_body]
pub(crate) fn read_zip(data: &[u8]) -> (r: Result<Vec<(String, Vec<u8>)>, (bool, String)>)
    ensures
        match r {
            Ok(es) => zip_read(data@) == Ok::<Seq<(Seq<char>, Seq<u8>)>, (bool, Seq<char>)>(entries_view(es@)),
            Err(e) => zip_read(data@) == Err::<Seq<(Seq<char>, Seq<u8>)>, (bool, Seq<char>)>((e.0, e.1@)),
        },
{
    let mut archive = zip::ZipArchive::new(std::io::Cursor::new(data)).map_err(|e| (true, e.to_string()))?;
    let mut out = Vec::new();
    for i in 0..archive.len() {
        let mut entry = archive.by_index(i).map_err(|e| (false, e.to_string()))?;
        let mut content = Vec::new();
        std::io::Read::read_to_end(&mut entry, &mut content).map_err(|e| (false, e.to_string()))?;
        out.push((entry.name().to_string(), content));
    }
    Ok(out)
}

/// The message a package read reports: for an archive that does not open,
/// the error prefixed with `Failed to open zip: `; otherwise the error of the
/// entry that could not be read.
pub open spec fn read_error(e: (bool, Seq<char>)) -> Seq<char> {
    if e.0 {
        "Failed to open zip: "@ + e.1
    } else {
        e.1
    }
}

/// Every entry of a ZIP archive held in memory, name and bytes, in the
/// archive's order; or why the archive could not be read: whether it failed
/// at opening the archive, and the error's message.
pub fn read_package(data: &[u8]) -> (r: Result<Vec<(String, Vec<u8>)>, (bool, String)>)
    ensures
        match zip_read(data@) {
            Ok(es) => r matches Ok(v) && entries_view(v@) == es,
            Err(e) => r matches Err(m) && m.0 == e.0 && m.1@ == e.1,
        },
{
    read_zip(data)
}

/// The index of the first entry named `name`, if any.
pub open spec fn part_index(es: Seq<(Seq<char>, Seq<u8>)>, name: Seq<char>) -> Option<int> {
    if exists|i: int| 0 <= i < es.len() && (#[trigger] es[i]).0 == name {
        Some(choose|i: int| 0 <= i < es.len() && (#[trigger] es[i]).0 == name
            && forall|j: int| 0 <= j < i ==> (#[trigger] es[j]).0 != name)
    } else {
        None
    }
}

/// The first entry named `name`, if the package has one.
pub fn find_part(entries: &Vec<(String, Vec<u8>)>, name: &str) -> (r: Option<usize>)
    ensures
        match r {
            Some(i) => i < entries@.len() && entries@[i as int].0@ == name@
                && forall|j: int| 0 <= j < i ==> (#[trigger] entries@[j]).0@ != name@,
            None => forall|j: int| 0 <= j < entries@.len() ==> (#[trigger] entries@[j]).0@ != name@,
        },
{
    let mut i: usize = 0;
    while i < entries.len()
        invariant
            i <= entries@.len(),
            forall|j: int| 0 <= j < i ==> (#[trigger] entries@[j]).0@ != name@,
        decreases entries@.len() - i,
    {
        if str_eq(entries[i].0.as_str(), name) {
            return Some(i);
        }
        i = i + 1;
    }
    None
}

/// The text of a package's first entry named `name`: its UTF-8 decoding;
/// `None` where there is no such entry or it is not UTF-8.
pub open spec fn part_text_of(es: Seq<(Seq<char>, Seq<u8>)>, name: Seq<char>) -> Option<Seq<char>> {
    match part_index(es, name) {
        None => None,
        Some(i) => if valid_utf8(es[i].1) {
            Some(decode_utf8(es[i].1))
        } else {
            None
        },
    }
}

/// The text of the first entry named `name`, where there is one and it is
/// UTF-8.
pub fn read_part_text(entries: &Vec<(String, Vec<u8>)>, name: &str) -> (r: Option<String>)
    ensures
        match part_text_of(entries_view(entries@), name@) {
            Some(t) => r matches Some(s) && s@ == t,
            None => r is None,
        },
{
    let ghost es = entries_view(entries@);
    match find_part(entries, name) {
        None => {
            proof {
                assert forall|j: int| 0 <= j < es.len() implies (#[trigger] es[j]).0 != name@ by {
                    assert(es[j].0 == entries@[j].0@);
                }
            }
            None
        },
        Some(i) => {
            proof {
                assert forall|j: int| 0 <= j < i implies (#[trigger] es[j]).0 != name@ by {
                    assert(es[j].0 == entries@[j].0@);
                }
                lemma_part_index(es, name@, i as int);
            }
            utf8_decode(entries[i].1.as_slice())
        },
    }
}

/// What the main part of a Word package reads as: its text where it is
/// UTF-8, the error otherwise; or why the package has no such part.
pub open spec fn docx_xml(data: Seq<u8>) -> Result<Seq<char>, Seq<char>> {
    match zip_read(data) {
        Err(e) => Err(read_error(e)),
        Ok(es) => match part_index(es, "word/document.xml"@) {
            None => Err("No word/document.xml found in docx"@),
            Some(i) => if valid_utf8(es[i].1) {
                Ok(decode_utf8(es[i].1))
            } else {
                Err("Failed to read document.xml: stream did not contain valid UTF-8"@)
            },
        },
    }
}

proof fn lemma_part_index(es: Seq<(Seq<char>, Seq<u8>)>, name: Seq<char>, i: int)
    requires
        0 <= i < es.len(),
        es[i].0 == name,
        forall|j: int| 0 <= j < i ==> (#[trigger] es[j]).0 != name,
    ensures
        part_index(es, name) == Some(i),
{
    let k = choose|k: int| 0 <= k < es.len() && (#[trigger] es[k]).0 == name
        && forall|j: int| 0 <= j < k ==> (#[trigger] es[j]).0 != name;
    assert(0 <= k < es.len() && es[k].0 == name && forall|j: int| 0 <= j < k ==> (#[trigger] es[j]).0 != name);
    if k < i {
        assert(es[k].0 != name);
    } else if i < k {
        assert(es[i].0 != name);
    }
}

/// The text of a Word package's main part, `word/document.xml`.  An entry
/// that cannot be read fails the whole package, whichever part it is.
pub fn read_docx_xml(data: &[u8]) -> (r: Result<String, String>)
    ensures
        match docx_xml(data@) {
            Ok(t) => r matches Ok(s) && s@ == t,
            Err(m) => r matches Err(s) && s@ == m,
        },
{
    let entries = match read_package(data) {
        Ok(es) => es,
        Err((at_open, msg)) => {
            let mut m = String::new();
            if at_open {
                push_str(&mut m, "Failed to open zip: ");
            }
            push_str(&mut m, msg.as_str());
            return Err(m);
        },
    };
    let ghost es = entries_view(entries@);
    match find_part(&entries, "word/document.xml") {
        None => {
            proof {
                assert forall|j: int| 0 <= j < es.len() implies (#[trigger] es[j]).0 != "word/document.xml"@ by {
                    assert(es[j].0 == entries@[j].0@);
                }
            }
            Err("No word/document.xml found in docx".to_owned())
        },
        Some(i) => {
            proof {
                assert forall|j: int| 0 <= j < i implies (#[trigger] es[j]).0 != "word/document.xml"@ by {
                    assert(es[j].0 == entries@[j].0@);
                }
                lemma_part_index(es, "word/document.xml"@, i as int);
            }
            match utf8_decode(entries[i].1.as_slice()) {
                Some(s) => Ok(s),
                None => Err("Failed to read document.xml: stream did not contain valid UTF-8".to_owned()),
            }
        },
    }
}


// ---------------------------------------------------------------------------
// Listing an archive's members
// ---------------------------------------------------------------------------

/// The members of a ZIP archive held in memory as `zip::ZipArchive` lists
/// them: how many it lists, and for each, in order, either the error of
/// opening it or its name, size, compressed size and its bytes (or the
/// error of reading them); or the error of opening the archive.
pub uninterp spec fn zip_listing(data: Seq<u8>) -> Result<
    (nat, Seq<Result<(Seq<char>, u64, u64, Result<Seq<u8>, Seq<char>>), Seq<char>>>),
    Seq<char>,
>;

pub open spec fn member_view(m: Result<(String, u64, u64, Result<Vec<u8>, String>), String>) -> Result<
    (Seq<char>, u64, u64, Result<Seq<u8>, Seq<char>>),
    Seq<char>,
> {
    match m {
        Ok(x) => Ok((x.0@, x.1, x.2, match x.3 {
            Ok(b) => Ok(b@),
            Err(e) => Err(e@),
        })),
        Err(e) => Err(e@),
    }
}

/// Lists the members of a ZIP archive in memory with `zip::ZipArchive`:
/// `by_index`, the entry's `name`, `size` and `compressed_size`, and
/// `read_to_end`.  Trusted: the result is a function of the bytes alone.
#[verifier::external_body]
fn list_zip(data: &[u8]) -> (r: Result<(usize, Vec<Result<(String, u64, u64, Result<Vec<u8>, String>), String>>), String>)
    ensures
        match r {
            Ok(v) => zip_listing(data@) matches Ok(c) && c.0 == v.0 && c.1 == v.1@.map_values(
                |m: Result<(String, u64, u64, Result<Vec<u8>, String>), String>| member_view(m),
            ),
            Err(e) => zip_listing(data@) matches Err(m) && m == e@,
        },
{
    let mut a = zip::ZipArchive::new(std::io::Cursor::new(data)).map_err(|e| e.to_string())?;
    let mut out = Vec::new();
    for i in 0..a.len() {
        out.push(a.by_index(i).map_err(|e| e.to_string()).map(|mut e| {
            let mut d = Vec::new();
            let read = std::io::Read::read_to_end(&mut e, &mut d).map(|_| d).map_err(|x| x.to_string());
            (e.name().to_string(), e.size(), e.compressed_size(), read)
        }));
    }
    Ok((a.len(), out))
}

pub open spec fn entry_view(e: ArchiveEntry) -> (Seq<char>, u64, Option<Seq<u8>>) {
    (e.name@, e.size, match e.data {
        Some(d) => Some(d@),
        None => None,
    })
}

/// The members that open, as the validation rules see them: name, size, and
/// bytes where they read.
pub open spec fn listed_entries(ms: Seq<Result<(Seq<char>, u64, u64, Result<Seq<u8>, Seq<char>>), Seq<char>>>) -> Seq<
    (Seq<char>, u64, Option<Seq<u8>>),
>
    decreases ms.len(),
{
    if ms.len() == 0 {
        Seq::empty()
    } else {
        listed_entries(ms.drop_last()) + match ms.last() {
            Ok(x) => seq![(x.0, x.1, match x.3 {
                Ok(b) => Some(b),
                Err(_) => None,
            })],
            Err(_) => Seq::empty(),
        }
    }
}

/// An archive held in memory as the validation rules read it: the members
/// that open, with their bytes where they read, and how many the archive
/// lists; or the error of opening it.
pub fn archive_facts(data: &[u8]) -> (r: ArchiveRead)
    ensures
        match zip_listing(data@) {
            Err(e) => r matches ArchiveRead::ZipError(m) && m@ == e,
            Ok(c) => r matches ArchiveRead::Opened { entries, total } && total == c.0
                && entries@.map_values(|e: ArchiveEntry| entry_view(e)) == listed_entries(c.1),
        },
{
    match list_zip(data) {
        Err(e) => ArchiveRead::ZipError(e),
        Ok((total, members)) => {
            let ghost ms = members@.map_values(|m: Result<(String, u64, u64, Result<Vec<u8>, String>), String>| member_view(m));
            let mut entries: Vec<ArchiveEntry> = Vec::new();
            let mut i: usize = 0;
            while i < members.len()
                invariant
                    i <= members@.len(),
                    ms == members@.map_values(|m: Result<(String, u64, u64, Result<Vec<u8>, String>), String>| member_view(m)),
                    entries@.map_values(|e: ArchiveEntry| entry_view(e)) == listed_entries(ms.take(i as int)),
                decreases members@.len() - i,
            {
                let ghost before = entries@.map_values(|e: ArchiveEntry| entry_view(e));
                proof {
                    assert(ms.take(i + 1).drop_last() =~= ms.take(i as int));
                    assert(ms.take(i + 1).last() == member_view(members@[i as int]));
                }
                match &members[i] {
                    Ok((name, size, _, read)) => {
                        let data = match read {
                            Ok(b) => Some(b.clone()),
                            Err(_) => None,
                        };
                        entries.push(ArchiveEntry { name: name.clone(), size: *size, data });
                        proof {
                            assert(entries@.map_values(|e: ArchiveEntry| entry_view(e)) =~= listed_entries(ms.take(i + 1)));
                        }
                    },
                    Err(_) => {
                        proof {
                            assert(listed_entries(ms.take(i + 1)) =~= listed_entries(ms.take(i as int)));
                        }
                    },
                }
                i = i + 1;
            }
            proof {
                assert(ms.take(members@.len() as int) =~= ms);
            }
            ArchiveRead::Opened { entries, total }
        },
    }
}

pub open spec fn zip_member_view(z: ZipMember) -> (Seq<char>, u64, u64, Result<Seq<char>, Seq<char>>) {
    (z.name@, z.size, z.compressed_size, match z.content {
        Ok(t) => Ok(t@),
        Err(e) => Err(e@),
    })
}

/// A member's text: its bytes decoded as UTF-8, or why they cannot be read
/// as text.
pub open spec fn member_text(read: Result<Seq<u8>, Seq<char>>) -> Result<Seq<char>, Seq<char>> {
    match read {
        Ok(b) => if valid_utf8(b) {
            Ok(decode_utf8(b))
        } else {
            Err("stream did not contain valid UTF-8"@)
        },
        Err(e) => Err(e),
    }
}

/// `z` is the member `m` read: its name, sizes and text.
pub open spec fn member_read_as(z: ZipMember, m: Result<(Seq<char>, u64, u64, Result<Seq<u8>, Seq<char>>), Seq<char>>) -> bool {
    match m {
        Ok(x) => zip_member_view(z) == (x.0, x.1, x.2, member_text(x.3)),
        Err(_) => false,
    }
}

/// The members of an archive held in memory as the integrity check reads
/// them: name, sizes, and text; or the error of opening the archive
/// (`true`) or of opening a member (`false`).
pub fn zip_members(data: &[u8]) -> (r: Result<Vec<ZipMember>, (bool, String)>)
    ensures
        match zip_listing(data@) {
            Err(e) => r matches Err(m) && m.0 && m.1@ == e,
            Ok(c) => if exists|k: int| 0 <= k < c.1.len() && (#[trigger] c.1[k]) is Err {
                r matches Err(m) && !m.0 && exists|k: int| 0 <= k < c.1.len() && (#[trigger] c.1[k]) == Err::<
                    (Seq<char>, u64, u64, Result<Seq<u8>, Seq<char>>),
                    Seq<char>,
                >(m.1@) && forall|j: int| 0 <= j < k ==> (#[trigger] c.1[j]) is Ok
            } else {
                r matches Ok(v) && v@.len() == c.1.len() && forall|k: int| 0 <= k < v@.len() ==> member_read_as(#[trigger] v@[k], c.1[k])
            },
        },
{
    let (_total, members) = match list_zip(data) {
        Ok(v) => v,
        Err(e) => {
            return Err((true, e));
        },
    };
    let ghost ms = members@.map_values(|m: Result<(String, u64, u64, Result<Vec<u8>, String>), String>| member_view(m));
    let mut out: Vec<ZipMember> = Vec::new();
    let mut i: usize = 0;
    while i < members.len()
        invariant
            i <= members@.len(),
            zip_listing(data@) matches Ok(c) && c.1 == ms,
            ms == members@.map_values(|m: Result<(String, u64, u64, Result<Vec<u8>, String>), String>| member_view(m)),
            out@.len() == i,
            forall|j: int| 0 <= j < i ==> (#[trigger] ms[j]) is Ok,
            forall|k: int| 0 <= k < i ==> member_read_as(#[trigger] out@[k], ms[k]),
        decreases members@.len() - i,
    {
        match &members[i] {
            Err(e) => {
                proof {
                    assert(ms[i as int] == member_view(members@[i as int]));
                    assert(ms[i as int] is Err);
                }
                return Err((false, e.clone()));
            },
            Ok((name, size, compressed, read)) => {
                let content = match read {
                    Ok(b) => match utf8_decode(b.as_slice()) {
                        Some(t) => Ok(t),
                        None => Err("stream did not contain valid UTF-8".to_owned()),
                    },
                    Err(e) => Err(e.clone()),
                };
                let z = ZipMember { name: name.clone(), size: *size, compressed_size: *compressed, content };
                proof {
                    assert(ms[i as int] == member_view(members@[i as int]));
                }
                out.push(z);
            },
        }
        i = i + 1;
    }
    Ok(out)
}

} // verus!
