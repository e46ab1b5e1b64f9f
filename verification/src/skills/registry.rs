use vstd::prelude::*;
use crate::text::{chars_of, contains, split_chars, split_on, parse_u32, parse_u32_chars, push_str, contains_seq};

verus! {

/// The names a skill may not have: empty, holding `..`, `/`, `\` or a NUL,
/// or longer than 128 bytes.
pub open spec fn name_has_forbidden(name: Seq<char>) -> bool {
    contains_seq(name, seq!['.', '.']) || name.contains('/') || name.contains('\\') || name.contains('\0')
}

/// Accepts a skill name or says why it is refused.
pub fn validate_skill_name(name: &str) -> (r: Result<(), String>)
    ensures
        name@.len() == 0 ==> (r matches Err(e) && e@ == "Skill name cannot be empty"@),
        name@.len() > 0 && name_has_forbidden(name@) ==> (r matches Err(e) && e@ == "Invalid skill name '"@ + name@
            + "': must not contain '..', '/', '\\', or null bytes"@),
        name@.len() > 0 && !name_has_forbidden(name@) && name.len() > 128 ==> (r matches Err(e)
            && e@ == "Skill name too long (max 128 characters)"@),
        r is Ok <==> (name@.len() > 0 && !name_has_forbidden(name@) && name.len() <= 128),
{
    let cs = chars_of(name);
    if cs.len() == 0 {
        return Err("Skill name cannot be empty".to_owned());
    }
    let dots: Vec<char> = vec!['.', '.'];
    let slash: Vec<char> = vec!['/'];
    let back: Vec<char> = vec!['\\'];
    let nul: Vec<char> = vec!['\0'];
    proof {
        assert(dots@ =~= seq!['.', '.']);
        assert(slash@ =~= seq!['/']);
        assert(back@ =~= seq!['\\']);
        assert(nul@ =~= seq!['\0']);
    }
    let has_slash = contains(&cs, &slash);
    let has_back = contains(&cs, &back);
    let has_nul = contains(&cs, &nul);
    proof {
        lemma_single_char_contains(cs@, '/', slash@);
        lemma_single_char_contains(cs@, '\\', back@);
        lemma_single_char_contains(cs@, '\0', nul@);
    }
    if contains(&cs, &dots) || has_slash || has_back || has_nul {
        let mut msg = String::new();
        push_str(&mut msg, "Invalid skill name '");
        push_str(&mut msg, name);
        push_str(&mut msg, "': must not contain '..', '/', '\\', or null bytes");
        proof {
            assert(msg@ =~= "Invalid skill name '"@ + name@ + "': must not contain '..', '/', '\\', or null bytes"@);
        }
        return Err(msg);
    }
    if name.len() > 128 {
        return Err("Skill name too long (max 128 characters)".to_owned());
    }
    Ok(())
}

pub proof fn lemma_single_char_contains(s: Seq<char>, c: char, p: Seq<char>)
    requires
        p == seq![c],
    ensures
        contains_seq(s, p) == s.contains(c),
{
    if contains_seq(s, p) {
        let i = choose|i: int| crate::text::occurs_at(s, p, i);
        assert(s.subrange(i, i + 1)[0] == s[i]);
    }
    if s.contains(c) {
        let i = choose|i: int| 0 <= i < s.len() && s[i] == c;
        assert(s.subrange(i, i + 1) =~= p);
        assert(crate::text::occurs_at(s, p, i));
    }
}

/// The number in the `i`-th dot-separated part of a version, 0 when the
/// part is missing or is not a 32-bit number.
pub open spec fn version_part(v: Seq<char>, i: int) -> nat {
    let parts = split_on(v, '.');
    if 0 <= i < parts.len() {
        match parse_u32(parts[i]) {
            Some(n) => n,
            None => 0,
        }
    } else {
        0
    }
}

pub open spec fn version_order(a: Seq<char>, b: Seq<char>) -> core::cmp::Ordering {
    if version_part(a, 0) != version_part(b, 0) {
        if version_part(a, 0) < version_part(b, 0) { core::cmp::Ordering::Less } else { core::cmp::Ordering::Greater }
    } else if version_part(a, 1) != version_part(b, 1) {
        if version_part(a, 1) < version_part(b, 1) { core::cmp::Ordering::Less } else { core::cmp::Ordering::Greater }
    } else if version_part(a, 2) != version_part(b, 2) {
        if version_part(a, 2) < version_part(b, 2) { core::cmp::Ordering::Less } else { core::cmp::Ordering::Greater }
    } else {
        core::cmp::Ordering::Equal
    }
}

fn version_parts(v: &str) -> (r: (u32, u32, u32))
    ensures
        r.0 == version_part(v@, 0),
        r.1 == version_part(v@, 1),
        r.2 == version_part(v@, 2),
{
    let cs = chars_of(v);
    let parts = split_chars(&cs, '.');
    let ghost pv = parts@.map_values(|x: Vec<char>| x@);
    let mut out: [u32; 3] = [0, 0, 0];
    let mut i: usize = 0;
    while i < 3
        invariant
            i <= 3,
            pv == parts@.map_values(|x: Vec<char>| x@),
            pv == split_on(v@, '.'),
            forall|k: int| 0 <= k < i ==> out[k] == version_part(v@, k),
        decreases 3 - i,
    {
        let n: u32 = if i < parts.len() {
            match parse_u32_chars(&parts[i]) {
                Some(x) => x,
                None => 0,
            }
        } else {
            0
        };
        out[i] = n;
        i = i + 1;
    }
    (out[0], out[1], out[2])
}

/// Compares two dotted versions by their first three numeric parts.
pub fn semver_compare(a: &str, b: &str) -> (r: core::cmp::Ordering)
    ensures
        r == version_order(a@, b@),
{
    let (a0, a1, a2) = version_parts(a);
    let (b0, b1, b2) = version_parts(b);
    if a0 != b0 {
        if a0 < b0 { core::cmp::Ordering::Less } else { core::cmp::Ordering::Greater }
    } else if a1 != b1 {
        if a1 < b1 { core::cmp::Ordering::Less } else { core::cmp::Ordering::Greater }
    } else if a2 != b2 {
        if a2 < b2 { core::cmp::Ordering::Less } else { core::cmp::Ordering::Greater }
    } else {
        core::cmp::Ordering::Equal
    }
}

} // verus!
