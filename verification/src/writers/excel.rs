use vstd::prelude::*;
use crate::diff::document_diff::{column_letter, column_name};
use crate::text::{chars_of, push_str, str_bytes, string_of, trim_leading, trim_leading_chars};

verus! {

/// What `str::to_uppercase` makes of a text.
pub uninterp spec fn uppercase(s: Seq<char>) -> Seq<char>;

/// Calls `str::to_uppercase`.  Trusted: the Unicode upper-case mapping, a
/// function of the text alone.
#[verifier::external_body]
pub(crate) fn to_uppercase(s: &str) -> (r: String)
    ensures
        r@ == uppercase(s@),
{
    s.to_uppercase()
}

/// A colour given as hex digits, with or without `#`: six or eight bytes
/// after the leading `#`s, upper-cased; anything else is an error.
pub open spec fn color_of(s: Seq<char>) -> Result<Seq<char>, Seq<char>> {
    let hex = trim_leading(s, '#');
    let n = vstd::utf8::encode_utf8(hex).len();
    if n == 6 || n == 8 {
        Ok(uppercase(hex))
    } else {
        Err("invalid color: "@ + s)
    }
}

pub fn parse_color(s: &str) -> (r: Result<String, String>)
    ensures
        match color_of(s@) {
            Ok(c) => r matches Ok(x) && x@ == c,
            Err(e) => r matches Err(x) && x@ == e,
        },
{
    let sv = chars_of(s);
    let hv = trim_leading_chars(&sv, '#');
    let hex = string_of(&hv);
    let n = str_bytes(hex.as_str()).len();
    if n == 6 || n == 8 {
        Ok(to_uppercase(hex.as_str()))
    } else {
        let mut m = String::new();
        push_str(&mut m, "invalid color: ");
        push_str(&mut m, s);
        Err(m)
    }
}

/// The spreadsheet column name of a column index from 0.
pub fn col_to_letter(col: u16) -> (r: String)
    ensures
        r@ == column_name(col as nat),
{
    column_letter(col as u32)
}

} // verus!
