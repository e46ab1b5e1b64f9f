use vstd::prelude::*;
use crate::paths::{file_name, last_name, lower_ext, lower_extension, name_extension, path_extension};
use crate::text::{chars_of, is_last, lower_char, lower_seq, occurs_at, push_str, seq_eq, split_on};

verus! {

#[derive(Debug, Clone, Copy, PartialEq, Eq, Structural)]
pub enum DocumentFormat {
    Docx,
    Doc,
    Xlsx,
    Xls,
    Pptx,
    Ppt,
    Unknown,
}

/// The format an extension (already lower-cased) names.
pub open spec fn format_for_ext(ext: Seq<char>) -> DocumentFormat {
    if ext == "docx"@ {
        DocumentFormat::Docx
    } else if ext == "doc"@ {
        DocumentFormat::Doc
    } else if ext == "xlsx"@ {
        DocumentFormat::Xlsx
    } else if ext == "xls"@ {
        DocumentFormat::Xls
    } else if ext == "pptx"@ {
        DocumentFormat::Pptx
    } else if ext == "ppt"@ {
        DocumentFormat::Ppt
    } else {
        DocumentFormat::Unknown
    }
}

/// A ZIP local-file header or an OLE2 compound-document header.
pub open spec fn office_magic(h: Seq<u8>) -> bool {
    h.len() >= 4 && ((h[0] == 0x50u8 && h[1] == 0x4Bu8 && h[2] == 0x03u8 && h[3] == 0x04u8) || (h[0]
        == 0xD0u8 && h[1] == 0xCFu8 && h[2] == 0x11u8 && h[3] == 0xE0u8))
}

pub open spec fn mime_of(f: DocumentFormat) -> Seq<char> {
    match f {
        DocumentFormat::Docx => "application/vnd.openxmlformats-officedocument.wordprocessingml.document"@,
        DocumentFormat::Doc => "application/msword"@,
        DocumentFormat::Xlsx => "application/vnd.openxmlformats-officedocument.spreadsheetml.sheet"@,
        DocumentFormat::Xls => "application/vnd.ms-excel"@,
        DocumentFormat::Pptx => "application/vnd.openxmlformats-officedocument.presentationml.presentation"@,
        DocumentFormat::Ppt => "application/vnd.ms-powerpoint"@,
        DocumentFormat::Unknown => "application/octet-stream"@,
    }
}

pub open spec fn display_of(f: DocumentFormat) -> Seq<char> {
    match f {
        DocumentFormat::Docx => "Word Document"@,
        DocumentFormat::Doc => "Word 97-2003 Document"@,
        DocumentFormat::Xlsx => "Excel Workbook"@,
        DocumentFormat::Xls => "Excel 97-2003 Workbook"@,
        DocumentFormat::Pptx => "PowerPoint Presentation"@,
        DocumentFormat::Ppt => "PowerPoint 97-2003 Presentation"@,
        DocumentFormat::Unknown => "Unknown Format"@,
    }
}

pub open spec fn ext_of(f: DocumentFormat) -> Seq<char> {
    match f {
        DocumentFormat::Docx => "docx"@,
        DocumentFormat::Doc => "doc"@,
        DocumentFormat::Xlsx => "xlsx"@,
        DocumentFormat::Xls => "xls"@,
        DocumentFormat::Pptx => "pptx"@,
        DocumentFormat::Ppt => "ppt"@,
        DocumentFormat::Unknown => "unknown"@,
    }
}

/// The message of the I/O error that reading a too-short header gives.
pub open spec fn short_read_message() -> Seq<char> {
    "failed to fill whole buffer"@
}

proof fn lemma_split_without_sep(s: Seq<char>, c: char)
    requires
        forall|i: int| 0 <= i < s.len() ==> s[i] != c,
    ensures
        split_on(s, c) == seq![s],
    decreases s.len(),
{
    if s.len() > 0 {
        lemma_split_without_sep(s.drop_last(), c);
        assert(s.last() != c);
        let r = split_on(s.drop_last(), c);
        assert(r.len() == 1 && r.last() == s.drop_last());
        assert(s.drop_last().push(s.last()) =~= s);
        assert(r.update(0, s.drop_last().push(s.last())) =~= seq![s]);
    } else {
        assert(s =~= Seq::<char>::empty());
    }
}

/// A name `stem.ext` whose extension is non-empty and has no `.`, in a path
/// with no `/`: the path's extension is `ext`.
proof fn lemma_simple_extension(stem: Seq<char>, ext: Seq<char>)
    requires
        stem.len() > 0,
        ext.len() > 0,
        forall|i: int| 0 <= i < stem.len() ==> stem[i] != '/',
        forall|i: int| 0 <= i < ext.len() ==> ext[i] != '/' && ext[i] != '.',
    ensures
        path_extension(stem + seq!['.'] + ext) == Some(ext),
{
    let name = stem + seq!['.'] + ext;
    let dot = stem.len() as int;
    assert forall|i: int| 0 <= i < name.len() implies name[i] != '/' by {
        if i < dot {
            assert(name[i] == stem[i]);
        } else if i > dot {
            assert(name[i] == ext[i - dot - 1]);
        }
    }
    lemma_split_without_sep(name, '/');
    assert(name != Seq::<char>::empty());
    assert(name.len() >= 3);
    assert(name != seq!['.']);
    assert(name != seq!['.', '.']);
    assert(file_name(name) == Some(name));
    assert(name.subrange(dot, dot + 1) =~= seq!['.']);
    assert forall|j: int| dot < j implies !occurs_at(name, seq!['.'], j) by {
        if occurs_at(name, seq!['.'], j) {
            assert(name.subrange(j, j + 1)[0] == name[j]);
            assert(name[j] == ext[j - dot - 1]);
        }
    }
    assert(is_last(name, seq!['.'], dot));
    let k = choose|i: int| is_last(name, seq!['.'], i);
    if k < dot {
        assert(!occurs_at(name, seq!['.'], dot));
    } else if k > dot {
        assert(!occurs_at(name, seq!['.'], k));
    }
    assert(name.subrange(dot + 1, name.len() as int) =~= ext);
}

/// Every format is named again by its own extension: the path `f.<ext>`,
/// with `ext` what `extension` gives, is read by `from_extension` as the
/// same format; and the extension is already lower-case.
pub proof fn lemma_extension_round_trip(f: DocumentFormat)
    ensures
        format_for_ext(lower_ext("f."@ + ext_of(f))) == f,
        lower_seq(ext_of(f)) == ext_of(f),
{
    reveal_strlit("f.");
    reveal_strlit("docx");
    reveal_strlit("doc");
    reveal_strlit("xlsx");
    reveal_strlit("xls");
    reveal_strlit("pptx");
    reveal_strlit("ppt");
    reveal_strlit("unknown");
    let e = ext_of(f);
    assert("f."@ + e =~= seq!['f'] + seq!['.'] + e);
    lemma_simple_extension(seq!['f'], e);
    assert(lower_seq(e) =~= e);
    assert(lower_ext("f."@ + e) == e);
    match f {
        DocumentFormat::Docx => assert(format_for_ext(e) == f),
        DocumentFormat::Doc => assert(format_for_ext(e) == f),
        DocumentFormat::Xlsx => {
            assert(e[0] != "docx"@[0]);
            assert(format_for_ext(e) == f);
        },
        DocumentFormat::Xls => assert(format_for_ext(e) == f),
        DocumentFormat::Pptx => {
            assert(e[0] != "docx"@[0] && e[0] != "xlsx"@[0]);
            assert(format_for_ext(e) == f);
        },
        DocumentFormat::Ppt => assert(format_for_ext(e) == f),
        DocumentFormat::Unknown => assert(format_for_ext(e) == f),
    }
}

impl DocumentFormat {
    /// The format named by the extension of `path`, compared without
    /// regard to case.
    pub fn from_extension(path: &str) -> (f: DocumentFormat)
        ensures
            f == format_for_ext(lower_ext(path@)),
    {
        let e = lower_extension(path);
        if seq_eq(&e, &chars_of("docx")) {
            DocumentFormat::Docx
        } else if seq_eq(&e, &chars_of("doc")) {
            DocumentFormat::Doc
        } else if seq_eq(&e, &chars_of("xlsx")) {
            DocumentFormat::Xlsx
        } else if seq_eq(&e, &chars_of("xls")) {
            DocumentFormat::Xls
        } else if seq_eq(&e, &chars_of("pptx")) {
            DocumentFormat::Pptx
        } else if seq_eq(&e, &chars_of("ppt")) {
            DocumentFormat::Ppt
        } else {
            DocumentFormat::Unknown
        }
    }

    /// Classifies a file from the first bytes read from it: an office
    /// container (ZIP or OLE2) keeps the format of its extension, anything
    /// else is unknown.  Fewer than eight bytes is the read error.
    pub fn from_magic_bytes(path: &str, header: &[u8]) -> (r: Result<DocumentFormat, String>)
        ensures
            header@.len() < 8 ==> (r matches Err(e) && e@ == short_read_message()),
            header@.len() >= 8 ==> (r matches Ok(f) && f == (if office_magic(header@) {
                format_for_ext(lower_ext(path@))
            } else {
                DocumentFormat::Unknown
            })),
    {
        if header.len() < 8 {
            return Err("failed to fill whole buffer".to_owned());
        }
        let zip = header[0] == 0x50u8 && header[1] == 0x4Bu8 && header[2] == 0x03u8 && header[3] == 0x04u8;
        let ole = header[0] == 0xD0u8 && header[1] == 0xCFu8 && header[2] == 0x11u8 && header[3] == 0xE0u8;
        if zip || ole {
            Ok(Self::from_extension(path))
        } else {
            Ok(DocumentFormat::Unknown)
        }
    }

    /// The format of a file: by extension when it names one, otherwise by
    /// the file's first bytes.  `header` is `None` when the file does not
    /// exist, else the bytes read from its start (at most eight).
    pub fn detect(path: &str, header: Option<&[u8]>) -> (r: Result<DocumentFormat, String>)
        ensures
            format_for_ext(lower_ext(path@)) != DocumentFormat::Unknown ==> r == Ok::<DocumentFormat, String>(
                format_for_ext(lower_ext(path@)),
            ),
            format_for_ext(lower_ext(path@)) == DocumentFormat::Unknown ==> match header {
                None => (r matches Err(e) && e@ == "File not found: "@ + path@),
                Some(h) => if h@.len() < 8 {
                    (r matches Err(e) && e@ == short_read_message())
                } else {
                    r == Ok::<DocumentFormat, String>(DocumentFormat::Unknown)
                },
            },
    {
        let ext = Self::from_extension(path);
        if ext != DocumentFormat::Unknown {
            return Ok(ext);
        }
        match header {
            None => {
                let mut msg = String::new();
                push_str(&mut msg, "File not found: ");
                push_str(&mut msg, path);
                Err(msg)
            },
            Some(h) => Self::from_magic_bytes(path, h),
        }
    }

    pub fn mime_type(&self) -> (r: &'static str)
        ensures
            r@ == mime_of(*self),
    {
        match self {
            DocumentFormat::Docx => "application/vnd.openxmlformats-officedocument.wordprocessingml.document",
            DocumentFormat::Doc => "application/msword",
            DocumentFormat::Xlsx => "application/vnd.openxmlformats-officedocument.spreadsheetml.sheet",
            DocumentFormat::Xls => "application/vnd.ms-excel",
            DocumentFormat::Pptx => "application/vnd.openxmlformats-officedocument.presentationml.presentation",
            DocumentFormat::Ppt => "application/vnd.ms-powerpoint",
            DocumentFormat::Unknown => "application/octet-stream",
        }
    }

    pub fn display_name(&self) -> (r: &'static str)
        ensures
            r@ == display_of(*self),
    {
        match self {
            DocumentFormat::Docx => "Word Document",
            DocumentFormat::Doc => "Word 97-2003 Document",
            DocumentFormat::Xlsx => "Excel Workbook",
            DocumentFormat::Xls => "Excel 97-2003 Workbook",
            DocumentFormat::Pptx => "PowerPoint Presentation",
            DocumentFormat::Ppt => "PowerPoint 97-2003 Presentation",
            DocumentFormat::Unknown => "Unknown Format",
        }
    }

    pub fn extension(&self) -> (r: &'static str)
        ensures
            r@ == ext_of(*self),
    {
        match self {
            DocumentFormat::Docx => "docx",
            DocumentFormat::Doc => "doc",
            DocumentFormat::Xlsx => "xlsx",
            DocumentFormat::Xls => "xls",
            DocumentFormat::Pptx => "pptx",
            DocumentFormat::Ppt => "ppt",
            DocumentFormat::Unknown => "unknown",
        }
    }

    pub fn is_zip_based(&self) -> (b: bool)
        ensures
            b == (*self == DocumentFormat::Docx || *self == DocumentFormat::Xlsx || *self == DocumentFormat::Pptx),
    {
        match self {
            DocumentFormat::Docx | DocumentFormat::Xlsx | DocumentFormat::Pptx => true,
            _ => false,
        }
    }

    pub fn is_writable(&self) -> (b: bool)
        ensures
            b == (*self == DocumentFormat::Docx || *self == DocumentFormat::Xlsx || *self == DocumentFormat::Pptx),
    {
        match self {
            DocumentFormat::Docx | DocumentFormat::Xlsx | DocumentFormat::Pptx => true,
            _ => false,
        }
    }
}

} // verus!
