use vstd::prelude::*;

verus! {

/// The message of the error `pattern` fails to compile with, if it does.
pub uninterp spec fn regex_error(pattern: Seq<char>) -> Option<Seq<char>>;

/// The texts of the successive non-overlapping matches of a compiling
/// `pattern` in `text`.
pub uninterp spec fn regex_found(pattern: Seq<char>, text: Seq<char>) -> Seq<Seq<char>>;

/// Whether a compiling `pattern` matches somewhere in `text`.
pub uninterp spec fn regex_matches(pattern: Seq<char>, text: Seq<char>) -> bool;

/// Calls `regex::Regex::new` and gives the `Display` text of its error.
/// Trusted: whether and how compiling fails depends on the pattern alone.
#[verifier::external_body]
pub(crate) fn regex_compile_error(pattern: &str) -> (r: Option<String>)
    ensures
        match regex_error(pattern@) {
            Some(e) => r matches Some(m) && m@ == e,
            None => r is None,
        },
{
    regex::Regex::new(pattern).err().map(|e| e.to_string())
}

/// Calls `regex::Regex::find_iter` on a compiled `pattern`.  Trusted: the
/// matched texts, in order, are a function of the two arguments alone.
#[verifier::external_body]
pub(crate) fn regex_find_all(pattern: &str, text: &str) -> (r: Vec<String>)
    requires
        regex_error(pattern@) is None,
    ensures
        r@.map_values(|m: String| m@) == regex_found(pattern@, text@),
{
    let mut found = Vec::new();
    if let Ok(re) = regex::Regex::new(pattern) {
        for m in re.find_iter(text) {
            found.push(m.as_str().to_string());
        }
    }
    found
}

/// Calls `regex::Regex::is_match` on a compiled `pattern`.  Trusted: the
/// result is a function of the two arguments alone.
#[verifier::external_body]
pub(crate) fn regex_is_match(pattern: &str, text: &str) -> (r: bool)
    requires
        regex_error(pattern@) is None,
    ensures
        r == regex_matches(pattern@, text@),
{
    match regex::Regex::new(pattern) {
        Ok(re) => re.is_match(text),
        Err(_) => false,
    }
}

/// The first capture group of each successive match of a compiling
/// `pattern` in `text` (`None` where the group took no part in a match).
pub uninterp spec fn regex_groups(pattern: Seq<char>, text: Seq<char>) -> Seq<Option<Seq<char>>>;

/// Calls `regex::Regex::captures_iter` on a compiled `pattern` and takes the
/// first group of each match.  Trusted: the groups, in order, are a function
/// of the two arguments alone.
#[verifier::external_body]
pub(crate) fn regex_first_groups(pattern: &str, text: &str) -> (r: Vec<Option<String>>)
    requires
        regex_error(pattern@) is None,
    ensures
        r@.map_values(|g: Option<String>| crate::xml::opt_chars(g)) == regex_groups(pattern@, text@),
{
    let mut groups = Vec::new();
    if let Ok(re) = regex::Regex::new(pattern) {
        for cap in re.captures_iter(text) {
            groups.push(cap.get(1).map(|m| m.as_str().to_string()));
        }
    }
    groups
}

} // verus!
