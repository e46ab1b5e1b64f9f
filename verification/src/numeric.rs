use vstd::prelude::*;
use crate::text::{is_digit, lower_seq, to_lower, seq_eq, chars_of};

verus! {

/// End of the run of decimal digits that starts at `i`.
pub open spec fn digit_run(b: Seq<char>, i: int) -> int
    decreases b.len() - i,
{
    if 0 <= i < b.len() && is_digit(b[i]) {
        digit_run(b, i + 1)
    } else {
        i
    }
}

/// An optional exponent (`e` or `E`, an optional sign, one or more digits)
/// from `i` to the end of `b`.
pub open spec fn exponent_to_end(b: Seq<char>, i: int) -> bool {
    i == b.len() || (0 <= i < b.len() && (b[i] == 'e' || b[i] == 'E') && {
        let j = if i + 1 < b.len() && (b[i + 1] == '+' || b[i + 1] == '-') { i + 2 } else { i + 1 };
        let k = digit_run(b, j);
        k > j && k == b.len()
    })
}

/// `Digit+ | Digit+ '.' Digit* | Digit* '.' Digit+`, then an optional
/// exponent, spanning all of `b`.
pub open spec fn decimal_number(b: Seq<char>) -> bool {
    let k1 = digit_run(b, 0);
    if k1 < b.len() && b[k1] == '.' {
        let k2 = digit_run(b, k1 + 1);
        (k1 > 0 || k2 > k1 + 1) && exponent_to_end(b, k2)
    } else {
        k1 > 0 && exponent_to_end(b, k1)
    }
}

pub open spec fn unsigned_part(s: Seq<char>) -> Seq<char> {
    if s.len() > 0 && (s[0] == '+' || s[0] == '-') {
        s.drop_first()
    } else {
        s
    }
}

/// The strings that `str::parse::<f64>` accepts, following the grammar in
/// its documentation: an optional sign, then `inf`, `infinity` or `nan`
/// (any case) or a decimal number with an optional exponent.
pub open spec fn float_literal(s: Seq<char>) -> bool {
    let b = unsigned_part(s);
    lower_seq(b) == "inf"@ || lower_seq(b) == "infinity"@ || lower_seq(b) == "nan"@ || decimal_number(b)
}

fn digit_run_exec(b: &Vec<char>, i: usize) -> (k: usize)
    requires
        i <= b@.len(),
    ensures
        k as int == digit_run(b@, i as int),
        i <= k <= b@.len(),
{
    let mut k = i;
    while k < b.len() && '0' <= b[k] && b[k] <= '9'
        invariant
            i <= k <= b@.len(),
            digit_run(b@, k as int) == digit_run(b@, i as int),
        decreases b@.len() - k,
    {
        k = k + 1;
    }
    k
}

fn exponent_to_end_exec(b: &Vec<char>, i: usize) -> (r: bool)
    requires
        i <= b@.len(),
    ensures
        r == exponent_to_end(b@, i as int),
{
    if i == b.len() {
        return true;
    }
    if !(b[i] == 'e' || b[i] == 'E') {
        return false;
    }
    let j = if i + 1 < b.len() && (b[i + 1] == '+' || b[i + 1] == '-') { i + 2 } else { i + 1 };
    let k = digit_run_exec(b, j);
    k > j && k == b.len()
}

/// Whether `str::parse::<f64>` accepts `s`.
pub fn is_float_literal(s: &str) -> (r: bool)
    ensures
        r == float_literal(s@),
{
    let all = chars_of(s);
    let mut b: Vec<char> = Vec::new();
    let start: usize = if all.len() > 0 && (all[0] == '+' || all[0] == '-') { 1 } else { 0 };
    let mut i = start;
    while i < all.len()
        invariant
            start <= i <= all@.len(),
            start <= 1,
            b@ == all@.subrange(start as int, i as int),
        decreases all@.len() - i,
    {
        b.push(all[i]);
        i = i + 1;
        assert(b@ =~= all@.subrange(start as int, i as int));
    }
    proof {
        assert(b@ =~= unsigned_part(s@));
    }
    let lb = to_lower(&b);
    if seq_eq(&lb, &chars_of("inf")) || seq_eq(&lb, &chars_of("infinity")) || seq_eq(&lb, &chars_of("nan")) {
        return true;
    }
    let k1 = digit_run_exec(&b, 0);
    if k1 < b.len() && b[k1] == '.' {
        let k2 = digit_run_exec(&b, k1 + 1);
        (k1 > 0 || k2 > k1 + 1) && exponent_to_end_exec(&b, k2)
    } else {
        k1 > 0 && exponent_to_end_exec(&b, k1)
    }
}

} // verus!
