use vstd::prelude::*;
use crate::text::{chars_of, lower_seq, seq_eq, split_chars, split_on, to_lower, rfind};
use crate::text::{is_last, occurs_at};

verus! {

/// The last path component that names a file or directory, as
/// `Path::file_name` finds it: empty pieces and `.` pieces are skipped, and
/// a final `..` has no name.
pub open spec fn last_name(segs: Seq<Seq<char>>) -> Option<Seq<char>>
    decreases segs.len(),
{
    if segs.len() == 0 {
        None
    } else if segs.last() == Seq::<char>::empty() || segs.last() == seq!['.'] {
        last_name(segs.drop_last())
    } else if segs.last() == seq!['.', '.'] {
        None
    } else {
        Some(segs.last())
    }
}

pub open spec fn file_name(path: Seq<char>) -> Option<Seq<char>> {
    last_name(split_on(path, '/'))
}

/// The extension of a file name as `Path::extension` gives it: the part
/// after the last `.`, unless that `.` opens the name.
pub open spec fn name_extension(name: Seq<char>) -> Option<Seq<char>> {
    if exists|i: int| is_last(name, seq!['.'], i) {
        let i = choose|i: int| is_last(name, seq!['.'], i);
        if i == 0 {
            None
        } else {
            Some(name.subrange(i + 1, name.len() as int))
        }
    } else {
        None
    }
}

pub open spec fn path_extension(path: Seq<char>) -> Option<Seq<char>> {
    match file_name(path) {
        Some(n) => name_extension(n),
        None => None,
    }
}

/// The extension of `path`, lower-cased (ASCII), or empty when it has none.
pub open spec fn lower_ext(path: Seq<char>) -> Seq<char> {
    match path_extension(path) {
        Some(e) => lower_seq(e),
        None => Seq::empty(),
    }
}

proof fn lemma_last_unique(s: Seq<char>, p: Seq<char>, i: int)
    requires
        is_last(s, p, i),
    ensures
        forall|j: int| #[trigger] is_last(s, p, j) ==> j == i,
{
    assert forall|j: int| #[trigger] is_last(s, p, j) implies j == i by {
        if j < i {
            assert(!occurs_at(s, p, i));
        } else if i < j {
            assert(!occurs_at(s, p, j));
        }
    }
}

/// The file name of `path`.
pub fn file_name_of(path: &Vec<char>) -> (r: Option<Vec<char>>)
    ensures
        match r {
            Some(v) => file_name(path@) == Some(v@),
            None => file_name(path@) is None,
        },
{
    let segs = split_chars(path, '/');
    let ghost sv = segs@.map_values(|v: Vec<char>| v@);
    let empty: Vec<char> = Vec::new();
    let dot: Vec<char> = vec!['.'];
    let dotdot: Vec<char> = vec!['.', '.'];
    proof {
        assert(empty@ =~= Seq::<char>::empty());
        assert(dot@ =~= seq!['.']);
        assert(dotdot@ =~= seq!['.', '.']);
    }
    let mut k = segs.len();
    proof {
        assert(sv.take(k as int) =~= sv);
    }
    while k > 0
        invariant
            k <= segs@.len(),
            sv == segs@.map_values(|v: Vec<char>| v@),
            sv == split_on(path@, '/'),
            empty@ == Seq::<char>::empty(),
            dot@ == seq!['.'],
            dotdot@ == seq!['.', '.'],
            last_name(sv) == last_name(sv.take(k as int)),
        decreases k,
    {
        let seg = &segs[k - 1];
        let ghost t = sv.take(k as int);
        proof {
            assert(t.last() == seg@);
            assert(t.drop_last() =~= sv.take(k - 1));
        }
        if seq_eq(seg, &empty) || seq_eq(seg, &dot) {
            k = k - 1;
        } else if seq_eq(seg, &dotdot) {
            return None;
        } else {
            let mut out: Vec<char> = Vec::new();
            let mut q: usize = 0;
            while q < seg.len()
                invariant
                    q <= seg@.len(),
                    out@ == seg@.take(q as int),
                decreases seg@.len() - q,
            {
                out.push(seg[q]);
                q = q + 1;
                assert(out@ =~= seg@.take(q as int));
            }
            assert(seg@.take(seg@.len() as int) =~= seg@);
            return Some(out);
        }
    }
    proof {
        assert(sv.take(0) =~= Seq::<Seq<char>>::empty());
    }
    None
}

/// The extension of a file name.
pub fn name_extension_of(name: &Vec<char>) -> (r: Option<Vec<char>>)
    ensures
        match r {
            Some(v) => name_extension(name@) == Some(v@),
            None => name_extension(name@) is None,
        },
{
    let dot: Vec<char> = vec!['.'];
    assert(dot@ =~= seq!['.']);
    match rfind(name, &dot) {
        None => None,
        Some(i) => {
            proof {
                lemma_last_unique(name@, seq!['.'], i as int);
                assert(i < name.len());
            }
            if i == 0 {
                None
            } else {
                let mut out: Vec<char> = Vec::new();
                let mut q: usize = i + 1;
                while q < name.len()
                    invariant
                        i + 1 <= q <= name@.len(),
                        out@ == name@.subrange(i + 1, q as int),
                    decreases name@.len() - q,
                {
                    out.push(name[q]);
                    q = q + 1;
                    assert(out@ =~= name@.subrange(i + 1, q as int));
                }
                Some(out)
            }
        },
    }
}

/// The extension of `path`, lower-cased, or empty when there is none.
pub fn lower_extension(path: &str) -> (r: Vec<char>)
    ensures
        r@ == lower_ext(path@),
{
    let p = chars_of(path);
    match file_name_of(&p) {
        None => Vec::new(),
        Some(n) => match name_extension_of(&n) {
            None => Vec::new(),
            Some(e) => to_lower(&e),
        },
    }
}

} // verus!
