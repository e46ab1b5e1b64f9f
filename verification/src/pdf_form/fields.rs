//! The AcroForm field tree of a PDF: each field reported with its
//! dot-joined full name, its type and its value, walking the trees under
//! the form's `/Fields` depth first.
use vstd::prelude::*;
use crate::pdf_form::{decode_pdf_string, pdf_text, FieldInfo, PdfFormFiller};
use crate::text::{lossy_text, push_str, utf8_lossy};

verus! {

/// An object of the field tree as the walk reads it: its id, its `/T`
/// string, its `/FT` name, its `/V` string or name, and the references of
/// its `/Kids`.
pub struct FieldNode {
    pub id: (u32, u16),
    pub name: Option<Vec<u8>>,
    pub field_type: Option<Vec<u8>>,
    pub value: Option<Vec<u8>>,
    pub kids: Vec<(u32, u16)>,
}

/// The first object with id `id` from index `from` on.
pub open spec fn node_at(nodes: Seq<FieldNode>, id: (u32, u16), from: int) -> Option<int>
    decreases nodes.len() - from,
{
    if from < 0 || from >= nodes.len() {
        None
    } else if nodes[from].id == id {
        Some(from)
    } else {
        node_at(nodes, id, from + 1)
    }
}

/// `own` under `parent`: joined with a dot, or alone at the top.
pub open spec fn full_name(parent: Seq<char>, own: Seq<char>) -> Seq<char> {
    if parent.len() == 0 {
        own
    } else {
        parent + "."@ + own
    }
}

pub open spec fn type_text(ft: Option<Vec<u8>>) -> Seq<char> {
    match ft {
        Some(n) => lossy_text(n@),
        None => "Unknown"@,
    }
}

pub open spec fn value_text(v: Option<Vec<u8>>) -> Option<Seq<char>> {
    match v {
        Some(b) => Some(lossy_text(b@)),
        None => None,
    }
}

/// The fields of the tree under `id`, reached within `fuel` levels: a node
/// with a name is a field, named under its parent, and its kids are named
/// under it; a node without one passes its parent's name to its kids.
pub open spec fn tree_fields(nodes: Seq<FieldNode>, id: (u32, u16), parent: Seq<char>, fuel: nat) -> Seq<
    (Seq<char>, Seq<char>, Option<Seq<char>>),
>
    decreases fuel, 0nat,
{
    if fuel == 0 {
        Seq::empty()
    } else {
        match node_at(nodes, id, 0) {
            None => Seq::empty(),
            Some(i) => {
                let n = nodes[i];
                match n.name {
                    None => kids_fields(nodes, n.kids@, parent, (fuel - 1) as nat),
                    Some(raw) => {
                        let name = full_name(parent, pdf_text(raw@));
                        seq![(name, type_text(n.field_type), value_text(n.value))] + kids_fields(
                            nodes,
                            n.kids@,
                            name,
                            (fuel - 1) as nat,
                        )
                    },
                }
            },
        }
    }
}

/// The fields of the trees under each of `kids`, in order.
pub open spec fn kids_fields(nodes: Seq<FieldNode>, kids: Seq<(u32, u16)>, parent: Seq<char>, fuel: nat) -> Seq<
    (Seq<char>, Seq<char>, Option<Seq<char>>),
>
    decreases fuel, kids.len() + 1,
{
    if kids.len() == 0 {
        Seq::empty()
    } else {
        kids_fields(nodes, kids.drop_last(), parent, fuel) + tree_fields(nodes, kids.last(), parent, fuel)
    }
}

/// The walk from `id` ends within `fuel` levels.
pub open spec fn walk_ends(nodes: Seq<FieldNode>, id: (u32, u16), fuel: nat) -> bool
    decreases fuel, 0nat,
{
    fuel > 0 && match node_at(nodes, id, 0) {
        None => true,
        Some(i) => kids_end(nodes, nodes[i].kids@, (fuel - 1) as nat),
    }
}

pub open spec fn kids_end(nodes: Seq<FieldNode>, kids: Seq<(u32, u16)>, fuel: nat) -> bool
    decreases fuel, kids.len() + 1,
{
    kids.len() == 0 || (kids_end(nodes, kids.drop_last(), fuel) && walk_ends(nodes, kids.last(), fuel))
}

pub open spec fn field_view(f: FieldInfo) -> (Seq<char>, Seq<char>, Option<Seq<char>>) {
    (f.name@, f.field_type@, match f.current_value {
        Some(v) => Some(v@),
        None => None,
    })
}

pub open spec fn fields_view(fs: Seq<FieldInfo>) -> Seq<(Seq<char>, Seq<char>, Option<Seq<char>>)> {
    fs.map_values(|f: FieldInfo| field_view(f))
}

fn find_node(nodes: &Vec<FieldNode>, id: (u32, u16)) -> (r: Option<usize>)
    ensures
        match node_at(nodes@, id, 0) {
            Some(i) => r matches Some(j) && j as int == i,
            None => r is None,
        },
        r matches Some(i) ==> i < nodes@.len(),
{
    let mut i: usize = 0;
    while i < nodes.len()
        invariant
            i <= nodes@.len(),
            node_at(nodes@, id, 0) == node_at(nodes@, id, i as int),
        decreases nodes@.len() - i,
    {
        if nodes[i].id.0 == id.0 && nodes[i].id.1 == id.1 {
            return Some(i);
        }
        i = i + 1;
    }
    None
}

fn opt_lossy(v: &Option<Vec<u8>>) -> (r: Option<String>)
    ensures
        match r {
            Some(s) => value_text(*v) == Some(s@),
            None => value_text(*v) is None,
        },
{
    match v {
        Some(b) => Some(utf8_lossy(b.as_slice())),
        None => None,
    }
}

fn collect_tree(nodes: &Vec<FieldNode>, id: (u32, u16), parent: &str, fuel: usize, out: &mut Vec<FieldInfo>)
    requires
        walk_ends(nodes@, id, fuel as nat),
    ensures
        fields_view(final(out)@) == fields_view(old(out)@) + tree_fields(nodes@, id, parent@, fuel as nat),
    decreases fuel, 0nat,
{
    let i = match find_node(nodes, id) {
        Some(i) => i,
        None => {
            proof {
                assert(fields_view(old(out)@) + tree_fields(nodes@, id, parent@, fuel as nat) =~= fields_view(old(out)@));
            }
            return;
        },
    };
    let n = &nodes[i];
    match &n.name {
        None => {
            collect_kids(nodes, &n.kids, parent, fuel - 1, out);
        },
        Some(raw) => {
            let own = decode_pdf_string(raw.as_slice());
            let mut name = String::new();
            if parent.unicode_len() > 0 {
                push_str(&mut name, parent);
                push_str(&mut name, ".");
            }
            push_str(&mut name, own.as_str());
            proof {
                assert(name@ =~= full_name(parent@, pdf_text(raw@)));
            }
            let field_type = match &n.field_type {
                Some(ft) => utf8_lossy(ft.as_slice()),
                None => "Unknown".to_owned(),
            };
            let current_value = opt_lossy(&n.value);
            let ghost before = fields_view(out@);
            out.push(FieldInfo { name: name.clone(), field_type, current_value });
            proof {
                assert(fields_view(out@) =~= before + seq![(name@, type_text(n.field_type), value_text(n.value))]);
            }
            collect_kids(nodes, &n.kids, name.as_str(), fuel - 1, out);
            proof {
                assert(fields_view(final(out)@) =~= fields_view(old(out)@) + tree_fields(nodes@, id, parent@, fuel as nat));
            }
        },
    }
}

fn collect_kids(nodes: &Vec<FieldNode>, kids: &Vec<(u32, u16)>, parent: &str, fuel: usize, out: &mut Vec<FieldInfo>)
    requires
        kids_end(nodes@, kids@, fuel as nat),
    ensures
        fields_view(final(out)@) == fields_view(old(out)@) + kids_fields(nodes@, kids@, parent@, fuel as nat),
    decreases fuel, 1nat,
{
    let ghost start = fields_view(out@);
    let mut k: usize = 0;
    while k < kids.len()
        invariant
            k <= kids@.len(),
            kids_end(nodes@, kids@, fuel as nat),
            fields_view(out@) == start + kids_fields(nodes@, kids@.take(k as int), parent@, fuel as nat),
        decreases kids@.len() - k,
    {
        proof {
            lemma_kids_end_prefix(nodes@, kids@, fuel as nat, k as int + 1);
            assert(kids@.take(k + 1).drop_last() =~= kids@.take(k as int));
            assert(kids@.take(k + 1).last() == kids@[k as int]);
        }
        let ghost mid = fields_view(out@);
        collect_tree(nodes, kids[k], parent, fuel, out);
        proof {
            assert(fields_view(out@) =~= start + kids_fields(nodes@, kids@.take(k + 1), parent@, fuel as nat));
        }
        k = k + 1;
    }
    proof {
        assert(kids@.take(kids@.len() as int) =~= kids@);
    }
}

proof fn lemma_kids_end_prefix(nodes: Seq<FieldNode>, kids: Seq<(u32, u16)>, fuel: nat, k: int)
    requires
        kids_end(nodes, kids, fuel),
        0 <= k <= kids.len(),
    ensures
        kids_end(nodes, kids.take(k), fuel),
        k > 0 ==> walk_ends(nodes, kids[k - 1], fuel),
    decreases kids.len() - k,
{
    if k < kids.len() {
        lemma_kids_end_prefix(nodes, kids, fuel, k + 1);
        assert(kids.take(k + 1).drop_last() =~= kids.take(k));
    } else {
        assert(kids.take(k) =~= kids);
    }
    if k > 0 {
        assert(kids.take(k).last() == kids[k - 1]);
        assert(kids.take(k).drop_last() =~= kids.take(k - 1));
    }
}

fn check_walk(nodes: &Vec<FieldNode>, id: (u32, u16), fuel: usize) -> (b: bool)
    ensures
        b == walk_ends(nodes@, id, fuel as nat),
    decreases fuel, 0nat,
{
    if fuel == 0 {
        return false;
    }
    match find_node(nodes, id) {
        None => true,
        Some(i) => check_kids(nodes, &nodes[i].kids, fuel - 1),
    }
}

fn check_kids(nodes: &Vec<FieldNode>, kids: &Vec<(u32, u16)>, fuel: usize) -> (b: bool)
    ensures
        b == kids_end(nodes@, kids@, fuel as nat),
    decreases fuel, 1nat,
{
    let mut k: usize = 0;
    while k < kids.len()
        invariant
            k <= kids@.len(),
            kids_end(nodes@, kids@.take(k as int), fuel as nat),
        decreases kids@.len() - k,
    {
        proof {
            assert(kids@.take(k + 1).drop_last() =~= kids@.take(k as int));
            assert(kids@.take(k + 1).last() == kids@[k as int]);
        }
        if !check_walk(nodes, kids[k], fuel) {
            proof {
                lemma_kids_end_prefix_fails(nodes@, kids@, fuel as nat, k as int + 1);
            }
            return false;
        }
        k = k + 1;
    }
    proof {
        assert(kids@.take(kids@.len() as int) =~= kids@);
    }
    true
}

proof fn lemma_kids_end_prefix_fails(nodes: Seq<FieldNode>, kids: Seq<(u32, u16)>, fuel: nat, k: int)
    requires
        0 < k <= kids.len(),
        !walk_ends(nodes, kids[k - 1], fuel),
    ensures
        !kids_end(nodes, kids, fuel),
{
    if kids_end(nodes, kids, fuel) {
        lemma_kids_end_prefix(nodes, kids, fuel, k);
    }
}

/// Whether the walk of the field trees under `roots` ends: no tree holds a
/// cycle of kids.  Where one does, `list_fields` cannot take the trees.
pub fn field_trees_end(nodes: &Vec<FieldNode>, roots: &Vec<(u32, u16)>) -> (b: bool)
    ensures
        b == (nodes@.len() < usize::MAX && kids_end(nodes@, roots@, (nodes@.len() + 1) as nat)),
{
    if nodes.len() == usize::MAX {
        return false;
    }
    check_kids(nodes, roots, nodes.len() + 1)
}

impl PdfFormFiller {
    /// The fields of the trees under `roots` (the form's `/Fields`), depth
    /// first: each named node with its full name (its ancestors' names and its
    /// own, joined with dots), its type (`Unknown` without one) and its value.
    pub fn list_fields(&self, nodes: &Vec<FieldNode>, roots: &Vec<(u32, u16)>) -> (r: Vec<FieldInfo>)
        requires
            nodes@.len() < usize::MAX,
            kids_end(nodes@, roots@, (nodes@.len() + 1) as nat),
        ensures
            fields_view(r@) == kids_fields(nodes@, roots@, Seq::empty(), (nodes@.len() + 1) as nat),
    {
        let mut out: Vec<FieldInfo> = Vec::new();
        collect_kids(nodes, roots, "", nodes.len() + 1, &mut out);
        proof {
            assert(fields_view(out@) =~= Seq::empty() + kids_fields(nodes@, roots@, ""@, (nodes@.len() + 1) as nat));
            reveal_strlit("");
            assert(""@ =~= Seq::<char>::empty());
        }
        out
    }
}

} // verus!
