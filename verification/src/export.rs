//! Laying out text for PDF pages.
use vstd::prelude::*;
use crate::text::{
    byte_cut, char_width, chars_of, cut_bytes, find_last, last_of, lines, lines_of, slice_chars,
    string_of, strings_view, trim_end, trim_end_chars,
};

verus! {

/// Exports office documents to PDF.
pub struct PdfExport;

/// Bytes in the UTF-8 encoding of a text.
pub open spec fn utf8_width(s: Seq<char>) -> nat
    decreases s.len(),
{
    if s.len() == 0 {
        0
    } else {
        utf8_width(s.drop_last()) + char_width(s.last()) as nat
    }
}

/// The pieces of a line too wide for `max` bytes: each piece ends at the
/// last space within the next `max` bytes (trailing white space dropped),
/// or, with no space there, after exactly `max` bytes; the rest, once it
/// fits, is the last piece.
pub open spec fn wrap_from(l: Seq<char>, max: nat) -> Seq<Seq<char>>
    decreases l.len(),
{
    if l.len() == 0 {
        Seq::empty()
    } else if utf8_width(l) <= max {
        seq![l]
    } else {
        match byte_cut(l, max as int) {
            None => Seq::empty(),
            Some(k) => if k <= 0 || k > l.len() {
                Seq::empty()
            } else {
                match last_of(l.take(k), seq![' ']) {
                    Some(sp) => if 0 <= sp < k {
                        seq![trim_end(l.take(sp + 1))] + wrap_from(l.skip(sp + 1), max)
                    } else {
                        Seq::empty()
                    },
                    None => seq![l.take(k)] + wrap_from(l.skip(k), max),
                }
            },
        }
    }
}

/// Whether every cut the wrapping makes falls between characters.
pub open spec fn wrap_ok(l: Seq<char>, max: nat) -> bool
    decreases l.len(),
{
    if l.len() == 0 || utf8_width(l) <= max {
        true
    } else {
        match byte_cut(l, max as int) {
            None => false,
            Some(k) => 0 < k <= l.len() && match last_of(l.take(k), seq![' ']) {
                Some(sp) => 0 <= sp < k && wrap_ok(l.skip(sp + 1), max),
                None => wrap_ok(l.skip(k), max),
            },
        }
    }
}

/// A line's pieces: the line itself when it fits, else its wrapping.
pub open spec fn line_pieces(l: Seq<char>, max: nat) -> Seq<Seq<char>> {
    if utf8_width(l) <= max {
        seq![l]
    } else {
        wrap_from(l, max)
    }
}

pub open spec fn all_pieces(ls: Seq<Seq<char>>, max: nat) -> Seq<Seq<char>>
    decreases ls.len(),
{
    if ls.len() == 0 {
        Seq::empty()
    } else {
        all_pieces(ls.drop_last(), max) + line_pieces(ls.last(), max)
    }
}

/// The lines of a wrapped text; one empty line for a text without lines.
pub open spec fn wrapped(text: Seq<char>, max: nat) -> Seq<Seq<char>> {
    let p = all_pieces(lines(text), max);
    if p.len() == 0 {
        seq![Seq::empty()]
    } else {
        p
    }
}

/// The texts that wrapping can handle: every line fits, or is wrapped at a
/// positive width with every cut between characters.
pub open spec fn wrappable(text: Seq<char>, max: nat) -> bool {
    forall|i: int| 0 <= i < lines(text).len() ==> {
        let l = #[trigger] lines(text)[i];
        utf8_width(l) <= max || (max > 0 && wrap_ok(l, max))
    }
}

fn fits(s: &Vec<char>, max: usize) -> (b: bool)
    ensures
        b == (utf8_width(s@) <= max),
{
    let mut total: u128 = 0;
    let mut i: usize = 0;
    proof {
        assert(s@.take(0) =~= Seq::<char>::empty());
    }
    while i < s.len()
        invariant
            i <= s@.len(),
            total == utf8_width(s@.take(i as int)),
            total <= 4 * i,
        decreases s@.len() - i,
    {
        proof {
            assert(s@.take(i + 1).drop_last() =~= s@.take(i as int));
        }
        let cv: u32 = s[i] as u32;
        let w: u128 = if cv < 0x80 {
            1
        } else if cv < 0x800 {
            2
        } else if cv < 0x10000 {
            3
        } else {
            4
        };
        total = total + w;
        i = i + 1;
    }
    proof {
        assert(s@.take(s@.len() as int) =~= s@);
    }
    total <= max as u128
}

fn wrap_line(line: &Vec<char>, max: usize, out: &mut Vec<String>)
    requires
        max > 0,
        wrap_ok(line@, max as nat),
    ensures
        strings_view(final(out)@) == strings_view(old(out)@) + wrap_from(line@, max as nat),
{
    let ghost start = strings_view(out@);
    let mut rest = slice_chars(line, 0, line.len());
    let space = vec![' '];
    proof {
        assert(rest@ =~= line@);
        assert(space@ =~= seq![' ']);
    }
    loop
        invariant_except_break
            max > 0,
            space@ == seq![' '],
            wrap_ok(rest@, max as nat),
            strings_view(out@) + wrap_from(rest@, max as nat) == start + wrap_from(line@, max as nat),
        ensures
            strings_view(out@) == start + wrap_from(line@, max as nat),
        decreases rest@.len(),
    {
        let ghost before = strings_view(out@);
        if rest.len() == 0 {
            proof {
                assert(strings_view(out@) + Seq::<Seq<char>>::empty() =~= strings_view(out@));
            }
            break;
        }
        if fits(&rest, max) {
            let s = string_of(&rest);
            out.push(s);
            proof {
                assert(strings_view(out@) =~= before.push(s@));
                assert(before + seq![rest@] =~= before.push(s@));
            }
            break;
        }
        let k = match cut_bytes(&rest, max) {
            Some(k) => k,
            None => {
                return;
            },
        };
        let seg = slice_chars(&rest, 0, k);
        proof {
            assert(seg@ =~= rest@.take(k as int));
        }
        match find_last(&seg, &space) {
            Some(sp) => {
                let head = slice_chars(&rest, 0, sp + 1);
                let piece = trim_end_chars(&head);
                let s = string_of(&piece);
                out.push(s);
                let tail = slice_chars(&rest, sp + 1, rest.len());
                proof {
                    assert(head@ =~= rest@.take(sp + 1));
                    assert(tail@ =~= rest@.skip(sp + 1));
                    assert(strings_view(out@) =~= before.push(s@));
                    assert(before + wrap_from(rest@, max as nat) =~= before.push(s@) + wrap_from(tail@, max as nat));
                }
                rest = tail;
            },
            None => {
                let s = string_of(&seg);
                out.push(s);
                let tail = slice_chars(&rest, k, rest.len());
                proof {
                    assert(tail@ =~= rest@.skip(k as int));
                    assert(strings_view(out@) =~= before.push(s@));
                    assert(before + wrap_from(rest@, max as nat) =~= before.push(s@) + wrap_from(tail@, max as nat));
                }
                rest = tail;
            },
        }
    }
}

impl PdfExport {
    /// Wraps text into lines of at most `max_chars` bytes, breaking at the
    /// last space that keeps a line within the width where there is one.
    pub fn word_wrap(text: &str, max_chars: usize) -> (r: Vec<String>)
        requires
            wrappable(text@, max_chars as nat),
        ensures
            strings_view(r@) == wrapped(text@, max_chars as nat),
    {
        let tv = chars_of(text);
        let ls = lines_of(&tv);
        let ghost lv = lines(text@);
        let mut out: Vec<String> = Vec::new();
        let mut i: usize = 0;
        proof {
            assert(lv.take(0) =~= Seq::<Seq<char>>::empty());
        }
        while i < ls.len()
            invariant
                i <= ls@.len(),
                ls@.map_values(|l: Vec<char>| l@) == lv,
                lv == lines(text@),
                wrappable(text@, max_chars as nat),
                strings_view(out@) == all_pieces(lv.take(i as int), max_chars as nat),
            decreases ls@.len() - i,
        {
            proof {
                assert(lv.take(i + 1).drop_last() =~= lv.take(i as int));
                assert(lv.take(i + 1).last() == ls@[i as int]@);
                assert(lv[i as int] == ls@[i as int]@);
            }
            let line = &ls[i];
            if fits(line, max_chars) {
                let ghost before = strings_view(out@);
                let s = string_of(line);
                out.push(s);
                proof {
                    assert(strings_view(out@) =~= before.push(s@));
                    assert(before + seq![line@] =~= before.push(s@));
                }
            } else {
                wrap_line(line, max_chars, &mut out);
            }
            i = i + 1;
        }
        proof {
            assert(lv.take(ls@.len() as int) =~= lv);
        }
        if out.len() == 0 {
            out.push(String::new());
            proof {
                assert(strings_view(out@) =~= seq![Seq::<char>::empty()]);
            }
        }
        out
    }
}

} // verus!
