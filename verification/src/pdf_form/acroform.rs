//! Filling AcroForm fields: which entries of which form objects get which
//! values.  The caller reads the form objects out of the document and
//! applies the edits in order.
use vstd::prelude::*;
use crate::diff::document_diff::{lowercase, to_lowercase};
use crate::pdf_form::{decode_pdf_string, pdf_text, PdfFormFiller};
use crate::pdf_form::xfa::value_for;
use crate::text::{chars_of, contains, contains_seq, has_prefix, lossy_text, starts_with, str_bytes, str_eq, utf8_lossy};

verus! {

/// A PDF object's number and generation.
pub type ObjId = (u32, u16);

/// What filling reads of a form object (a field or a widget): its name
/// (`/T`, when a string), its type (`/FT`, when a name), its flags (`/Ff`,
/// when an integer, else 0), whether it has `/Kids` and the references
/// in them, its `/Parent` reference, the keys of its normal appearances
/// (`/AP` `/N`, in order, when both are dictionaries), its default
/// appearance (`/DA`, when a string) and the length of its `/Rect` array.
#[derive(Debug)]
pub struct FormObject {
    pub id: (u32, u16),
    pub name: Option<Vec<u8>>,
    pub field_type: Option<Vec<u8>>,
    pub flags: i64,
    pub has_kids: bool,
    pub kids: Vec<(u32, u16)>,
    pub parent: Option<(u32, u16)>,
    pub states: Vec<Vec<u8>>,
    pub appearance: Option<Vec<u8>>,
    pub rect_len: usize,
}

/// One change to a form object: an entry set to a name, an entry set to a
/// string, or a text appearance drawn for a value with a default
/// appearance.
#[derive(Debug, PartialEq, Eq)]
pub enum FormEdit {
    Name { id: (u32, u16), key: String, value: Vec<u8> },
    Text { id: (u32, u16), key: String, value: Vec<u8> },
    Appearance { id: (u32, u16), value: String, da: String },
}

pub enum EditV {
    Name(ObjId, Seq<char>, Seq<u8>),
    Text(ObjId, Seq<char>, Seq<u8>),
    Appearance(ObjId, Seq<char>, Seq<char>),
}

impl View for FormEdit {
    type V = EditV;

    open spec fn view(&self) -> EditV {
        match self {
            FormEdit::Name { id, key, value } => EditV::Name(*id, key@, value@),
            FormEdit::Text { id, key, value } => EditV::Text(*id, key@, value@),
            FormEdit::Appearance { id, value, da } => EditV::Appearance(*id, value@, da@),
        }
    }
}

pub open spec fn edits_view(v: Seq<FormEdit>) -> Seq<EditV> {
    v.map_values(|e: FormEdit| e@)
}

pub open spec fn bytes_of(o: Option<Vec<u8>>) -> Option<Seq<u8>> {
    match o {
        Some(v) => Some(v@),
        None => None,
    }
}

/// The first form object with a given id.
pub open spec fn object_of(objs: Seq<FormObject>, id: ObjId) -> Option<FormObject>
    decreases objs.len(),
{
    if objs.len() == 0 {
        None
    } else if objs[0].id == id {
        Some(objs[0])
    } else {
        object_of(objs.drop_first(), id)
    }
}

/// The bytes of the name `Off`.
pub open spec fn off_name() -> Seq<u8> {
    seq![79u8, 102u8, 102u8]
}

/// The bytes of the name `Btn`.
pub open spec fn btn_name() -> Seq<u8> {
    seq![66u8, 116u8, 110u8]
}

/// The appearance states of an object as filling finds them: none for an
/// object that is not there or whose appearance was redrawn.
pub open spec fn states_of(objs: Seq<FormObject>, drawn: Seq<ObjId>, id: ObjId) -> Seq<Seq<u8>> {
    if drawn.contains(id) {
        Seq::empty()
    } else {
        match object_of(objs, id) {
            Some(o) => o.states@.map_values(|k: Vec<u8>| k@),
            None => Seq::empty(),
        }
    }
}

/// The states other than `Off`, in order.
pub open spec fn on_states(keys: Seq<Seq<u8>>) -> Seq<Seq<u8>>
    decreases keys.len(),
{
    if keys.len() == 0 {
        Seq::empty()
    } else {
        on_states(keys.drop_last()) + if keys.last() == off_name() { Seq::<Seq<u8>>::empty() } else { seq![keys.last()] }
    }
}

/// The first state whose text starts with the value's text.
pub open spec fn first_prefixed(keys: Seq<Seq<u8>>, v: Seq<u8>) -> Option<Seq<u8>>
    decreases keys.len(),
{
    if keys.len() == 0 {
        None
    } else if starts_with(lossy_text(keys[0]), lossy_text(v)) {
        Some(keys[0])
    } else {
        first_prefixed(keys.drop_first(), v)
    }
}

pub open spec fn is_truthy(t: Seq<char>) -> bool {
    t == "yes"@ || t == "true"@ || t == "1"@ || t == "x"@ || t == "on"@ || t == "checked"@
}

/// The state a check box or radio button is set to for a value: the value
/// itself when the object has no other state than `Off` or has that very
/// state; else the first state that starts with the value; else, for a
/// value that means "checked", the first state; else the value.
pub open spec fn checked_state(keys: Seq<Seq<u8>>, v: Seq<u8>) -> Seq<u8> {
    let on = on_states(keys);
    if on.len() == 0 || on.contains(v) {
        v
    } else {
        match first_prefixed(on, v) {
            Some(k) => k,
            None => if is_truthy(lowercase(lossy_text(v))) { on[0] } else { v },
        }
    }
}

proof fn lemma_on_states_first(keys: Seq<Seq<u8>>, i: int, n: int)
    requires
        0 <= i < n <= keys.len(),
        keys[i] != off_name(),
        forall|j: int| 0 <= j < i ==> keys[j] == off_name(),
    ensures
        on_states(keys.take(n)).len() > 0,
        on_states(keys.take(n))[0] == keys[i],
    decreases n,
{
    let t = keys.take(n);
    assert(t.drop_last() =~= keys.take(n - 1));
    if n - 1 == i {
        lemma_on_states_all_off(keys, i);
        assert(t.last() == keys[i]);
    } else {
        lemma_on_states_first(keys, i, n - 1);
    }
}

proof fn lemma_on_states_all_off(keys: Seq<Seq<u8>>, n: int)
    requires
        0 <= n <= keys.len(),
        forall|j: int| 0 <= j < n ==> keys[j] == off_name(),
    ensures
        on_states(keys.take(n)).len() == 0,
    decreases n,
{
    if n > 0 {
        assert(keys.take(n).drop_last() =~= keys.take(n - 1));
        assert(keys.take(n).last() == keys[n - 1]);
        lemma_on_states_all_off(keys, n - 1);
    }
}

proof fn lemma_on_states_from(keys: Seq<Seq<u8>>, k: int)
    requires
        0 <= k < on_states(keys).len(),
    ensures
        exists|j: int| 0 <= j < keys.len() && keys[j] == on_states(keys)[k] && keys[j] != off_name(),
    decreases keys.len(),
{
    if keys.len() > 0 {
        let prev = on_states(keys.drop_last());
        if k < prev.len() {
            lemma_on_states_from(keys.drop_last(), k);
            let j = choose|j: int| 0 <= j < keys.drop_last().len() && keys.drop_last()[j] == prev[k] && keys.drop_last()[j] != off_name();
            assert(keys[j] == keys.drop_last()[j]);
        } else {
            assert(keys[keys.len() - 1] == keys.last());
        }
    }
}

proof fn lemma_no_prefixed(on: Seq<Seq<u8>>, v: Seq<u8>)
    requires
        forall|k: int| 0 <= k < on.len() ==> !starts_with(lossy_text(#[trigger] on[k]), lossy_text(v)),
    ensures
        first_prefixed(on, v) is None,
    decreases on.len(),
{
    if on.len() > 0 {
        assert(!starts_with(lossy_text(on[0]), lossy_text(v)));
        assert forall|k: int| 0 <= k < on.drop_first().len() implies !starts_with(lossy_text(#[trigger] on.drop_first()[k]), lossy_text(v)) by {
            assert(on.drop_first()[k] == on[k + 1]);
        }
        lemma_no_prefixed(on.drop_first(), v);
    }
}

/// Law: a check box or radio button is turned on by a value that means
/// "checked".  When the object has a state other than `Off` and the value
/// is none of those states and no prefix of one, a value that lower-cases
/// to `yes`, `true`, `1`, `x`, `on` or `checked` selects the first state
/// other than `Off`, and any other value is kept as it is.
pub proof fn lemma_checked_value_selects_first_on_state(keys: Seq<Seq<u8>>, v: Seq<u8>, i: int)
    requires
        0 <= i < keys.len(),
        keys[i] != off_name(),
        forall|j: int| 0 <= j < i ==> keys[j] == off_name(),
        forall|j: int| 0 <= j < keys.len() && keys[j] != off_name() ==> keys[j] != v && !starts_with(
            lossy_text(#[trigger] keys[j]),
            lossy_text(v),
        ),
    ensures
        ({
            let t = lowercase(lossy_text(v));
            t == "true"@ || t == "yes"@ || t == "1"@ || t == "x"@ || t == "on"@ || t == "checked"@
        }) ==> checked_state(keys, v) == keys[i],
        !({
            let t = lowercase(lossy_text(v));
            t == "true"@ || t == "yes"@ || t == "1"@ || t == "x"@ || t == "on"@ || t == "checked"@
        }) ==> checked_state(keys, v) == v,
{
    lemma_on_states_first(keys, i, keys.len() as int);
    assert(keys.take(keys.len() as int) =~= keys);
    let on = on_states(keys);
    assert forall|k: int| 0 <= k < on.len() implies !starts_with(lossy_text(#[trigger] on[k]), lossy_text(v)) && on[k] != v by {
        lemma_on_states_from(keys, k);
        let j = choose|j: int| 0 <= j < keys.len() && keys[j] == on[k] && keys[j] != off_name();
        assert(keys[j] != v && !starts_with(lossy_text(keys[j]), lossy_text(v)));
    }
    lemma_no_prefixed(on, v);
    if on.contains(v) {
        let k = choose|k: int| 0 <= k < on.len() && on[k] == v;
        assert(on[k] != v);
    }
}

/// The value given for a field: the one given under its name, else the
/// first whose name contains the field's name or is contained in it.
pub open spec fn fuzzy_value(values: Seq<(String, String)>, name: Seq<char>) -> Option<Seq<char>>
    decreases values.len(),
{
    if values.len() == 0 {
        None
    } else if contains_seq(name, values[0].0@) || contains_seq(values[0].0@, name) {
        Some(values[0].1@)
    } else {
        fuzzy_value(values.drop_first(), name)
    }
}

pub open spec fn matched_value(values: Seq<(String, String)>, name: Seq<char>) -> Option<Seq<char>> {
    match value_for(values, name) {
        Some(v) => Some(v),
        None => fuzzy_value(values, name),
    }
}

/// The edits filling makes, how many fields it filled, and which objects'
/// appearances it redrew.
pub struct FillPlan {
    pub edits: Seq<EditV>,
    pub count: nat,
    pub drawn: Seq<ObjId>,
}

/// `AS` set on each kid that is there: the checked state where the kid has
/// it, else `Off`.
pub open spec fn group_kid_edits(objs: Seq<FormObject>, drawn: Seq<ObjId>, kids: Seq<ObjId>, checked: Seq<u8>) -> Seq<EditV>
    decreases kids.len(),
{
    if kids.len() == 0 {
        Seq::empty()
    } else {
        let k = kids.last();
        group_kid_edits(objs, drawn, kids.drop_last(), checked) + if object_of(objs, k) is Some {
            seq![EditV::Name(k, "AS"@, if states_of(objs, drawn, k).contains(checked) { checked } else { off_name() })]
        } else {
            Seq::<EditV>::empty()
        }
    }
}

/// `AS` set on each kid that is there to its own state for `Off`.
pub open spec fn sibling_edits(objs: Seq<FormObject>, drawn: Seq<ObjId>, kids: Seq<ObjId>) -> Seq<EditV>
    decreases kids.len(),
{
    if kids.len() == 0 {
        Seq::empty()
    } else {
        let k = kids.last();
        sibling_edits(objs, drawn, kids.drop_last()) + if object_of(objs, k) is Some {
            seq![EditV::Name(k, "AS"@, checked_state(states_of(objs, drawn, k), off_name()))]
        } else {
            Seq::<EditV>::empty()
        }
    }
}

/// The parent of a radio button, when that parent is a button field.
pub open spec fn radio_parent(objs: Seq<FormObject>, o: FormObject) -> Option<FormObject> {
    match o.parent {
        Some(p) => match object_of(objs, p) {
            Some(po) => if bytes_of(po.field_type) == Some(btn_name()) { Some(po) } else { None },
            None => None,
        },
        None => None,
    }
}

/// Filling a button field: a radio group sets its value and every kid's
/// state; a radio button sets its group's value and its siblings' states;
/// a check box sets its own state and value.
pub open spec fn button_fill(objs: Seq<FormObject>, st: FillPlan, o: FormObject, v: Seq<u8>) -> FillPlan {
    let fid = o.id;
    if o.has_kids && (o.flags & 0x8000) != 0 {
        let kids = o.kids@;
        let first = if kids.len() > 0 { kids[0] } else { fid };
        let checked = checked_state(states_of(objs, st.drawn, first), v);
        FillPlan {
            edits: st.edits + seq![EditV::Name(fid, "V"@, checked), EditV::Name(fid, "DV"@, checked)]
                + group_kid_edits(objs, st.drawn, kids, checked),
            count: st.count + 1,
            ..st
        }
    } else {
        match radio_parent(objs, o) {
            Some(po) => {
                let checked = checked_state(states_of(objs, st.drawn, fid), v);
                FillPlan {
                    edits: st.edits + seq![EditV::Name(po.id, "V"@, checked), EditV::Name(po.id, "DV"@, checked)]
                        + sibling_edits(objs, st.drawn, po.kids@),
                    count: st.count + 1,
                    ..st
                }
            },
            None => {
                let checked = checked_state(states_of(objs, st.drawn, fid), v);
                FillPlan {
                    edits: st.edits + seq![EditV::Name(fid, "AS"@, checked), EditV::Name(fid, "V"@, checked), EditV::Name(fid, "DV"@, checked)],
                    count: st.count + 1,
                    ..st
                }
            },
        }
    }
}

/// The type of a field, its name read leniently as UTF-8.
pub open spec fn type_of(o: FormObject) -> Option<Seq<char>> {
    match o.field_type {
        Some(b) => Some(lossy_text(b@)),
        None => None,
    }
}

/// Filling one field with a value: buttons by their states, choices and
/// text (and any other type) by their value as a string, text also with a
/// new appearance where it has a default appearance; signatures are left.
pub open spec fn field_fill(objs: Seq<FormObject>, st: FillPlan, o: FormObject, v: Seq<char>) -> FillPlan {
    let vb = vstd::utf8::encode_utf8(v);
    let t = type_of(o);
    if t == Some("Btn"@) {
        button_fill(objs, st, o, vb)
    } else if t == Some("Sig"@) {
        st
    } else {
        let text = seq![EditV::Text(o.id, "V"@, vb), EditV::Text(o.id, "DV"@, vb)];
        if t == Some("Ch"@) {
            FillPlan { edits: st.edits + text, count: st.count + 1, ..st }
        } else {
            match o.appearance {
                Some(da) => FillPlan {
                    edits: st.edits + text + seq![EditV::Appearance(o.id, v, lossy_text(da@))],
                    count: st.count + 1,
                    drawn: if t == Some("Tx"@) && o.rect_len >= 4 { st.drawn.push(o.id) } else { st.drawn },
                },
                None => FillPlan { edits: st.edits + text, count: st.count + 1, ..st },
            }
        }
    }
}

/// Filling the field with a given id: nothing unless the object is there,
/// has a name, and a value is given for that name.
pub open spec fn fill_field(objs: Seq<FormObject>, values: Seq<(String, String)>, st: FillPlan, id: ObjId) -> FillPlan {
    match object_of(objs, id) {
        Some(o) => match o.name {
            Some(nb) => match matched_value(values, pdf_text(nb@)) {
                Some(v) => field_fill(objs, st, o, v),
                None => st,
            },
            None => st,
        },
        None => st,
    }
}

/// Filling the fields with the given ids, in order.
pub open spec fn fill_plan(objs: Seq<FormObject>, values: Seq<(String, String)>, ids: Seq<ObjId>) -> FillPlan
    decreases ids.len(),
{
    if ids.len() == 0 {
        FillPlan { edits: Seq::empty(), count: 0, drawn: Seq::empty() }
    } else {
        fill_field(objs, values, fill_plan(objs, values, ids.drop_last()), ids.last())
    }
}

// ---------------------------------------------------------------------------
// Executable form
// ---------------------------------------------------------------------------

fn bytes_eq(a: &Vec<u8>, b: &Vec<u8>) -> (r: bool)
    ensures
        r == (a@ == b@),
{
    if a.len() != b.len() {
        return false;
    }
    let mut i: usize = 0;
    while i < a.len()
        invariant
            i <= a@.len(),
            a@.len() == b@.len(),
            forall|j: int| 0 <= j < i ==> a@[j] == b@[j],
        decreases a@.len() - i,
    {
        if a[i] != b[i] {
            return false;
        }
        i = i + 1;
    }
    proof {
        assert(a@ =~= b@);
    }
    true
}

fn copy_bytes(a: &Vec<u8>) -> (r: Vec<u8>)
    ensures
        r@ == a@,
{
    let mut r: Vec<u8> = Vec::new();
    let mut i: usize = 0;
    while i < a.len()
        invariant
            i <= a@.len(),
            r@ == a@.take(i as int),
        decreases a@.len() - i,
    {
        r.push(a[i]);
        i = i + 1;
        proof {
            assert(r@ =~= a@.take(i as int));
        }
    }
    proof {
        assert(a@.take(a@.len() as int) =~= a@);
    }
    r
}

fn off_bytes() -> (r: Vec<u8>)
    ensures
        r@ == off_name(),
{
    let mut r: Vec<u8> = Vec::new();
    r.push(79u8);
    r.push(102u8);
    r.push(102u8);
    proof {
        assert(r@ =~= off_name());
    }
    r
}

fn object_index(objs: &Vec<FormObject>, id: ObjId) -> (r: Option<usize>)
    ensures
        match r {
            Some(i) => i < objs@.len() && object_of(objs@, id) == Some(objs@[i as int]),
            None => object_of(objs@, id) is None,
        },
{
    let mut i: usize = 0;
    proof {
        assert(objs@.skip(0) =~= objs@);
    }
    while i < objs.len()
        invariant
            i <= objs@.len(),
            object_of(objs@.skip(i as int), id) == object_of(objs@, id),
        decreases objs@.len() - i,
    {
        proof {
            assert(objs@.skip(i as int).drop_first() =~= objs@.skip(i + 1));
            assert(objs@.skip(i as int)[0] == objs@[i as int]);
        }
        if objs[i].id.0 == id.0 && objs[i].id.1 == id.1 {
            return Some(i);
        }
        i = i + 1;
    }
    None
}

fn drawn_has(drawn: &Vec<ObjId>, id: ObjId) -> (r: bool)
    ensures
        r == drawn@.contains(id),
{
    let mut i: usize = 0;
    while i < drawn.len()
        invariant
            i <= drawn@.len(),
            forall|j: int| 0 <= j < i ==> drawn@[j] != id,
        decreases drawn@.len() - i,
    {
        if drawn[i].0 == id.0 && drawn[i].1 == id.1 {
            proof {
                assert(drawn@[i as int] == id);
            }
            return true;
        }
        i = i + 1;
    }
    false
}

pub open spec fn keys_view(v: Seq<Vec<u8>>) -> Seq<Seq<u8>> {
    v.map_values(|k: Vec<u8>| k@)
}

fn states_exec(objs: &Vec<FormObject>, drawn: &Vec<ObjId>, id: ObjId) -> (r: Vec<Vec<u8>>)
    ensures
        keys_view(r@) == states_of(objs@, drawn@, id),
{
    let mut r: Vec<Vec<u8>> = Vec::new();
    if drawn_has(drawn, id) {
        proof {
            assert(keys_view(r@) =~= Seq::<Seq<u8>>::empty());
        }
        return r;
    }
    match object_index(objs, id) {
        Some(oi) => {
            let ks = &objs[oi].states;
            let mut i: usize = 0;
            while i < ks.len()
                invariant
                    i <= ks@.len(),
                    keys_view(r@) == keys_view(ks@.take(i as int)),
                decreases ks@.len() - i,
            {
                let c = copy_bytes(&ks[i]);
                let ghost before = keys_view(r@);
                r.push(c);
                proof {
                    assert(keys_view(r@) =~= before.push(ks@[i as int]@));
                    assert(keys_view(ks@.take(i + 1)) =~= keys_view(ks@.take(i as int)).push(ks@[i as int]@));
                }
                i = i + 1;
            }
            proof {
                assert(ks@.take(ks@.len() as int) =~= ks@);
            }
        },
        None => {
            proof {
                assert(keys_view(r@) =~= Seq::<Seq<u8>>::empty());
            }
        },
    }
    r
}

fn on_states_exec(keys: &Vec<Vec<u8>>) -> (r: Vec<Vec<u8>>)
    ensures
        keys_view(r@) == on_states(keys_view(keys@)),
{
    let ghost kv = keys_view(keys@);
    let off = off_bytes();
    let mut r: Vec<Vec<u8>> = Vec::new();
    let mut i: usize = 0;
    proof {
        assert(kv.take(0) =~= Seq::<Seq<u8>>::empty());
        assert(keys_view(r@) =~= Seq::<Seq<u8>>::empty());
    }
    while i < keys.len()
        invariant
            i <= keys@.len(),
            kv == keys_view(keys@),
            off@ == off_name(),
            keys_view(r@) == on_states(kv.take(i as int)),
        decreases keys@.len() - i,
    {
        proof {
            assert(kv.take(i + 1).drop_last() =~= kv.take(i as int));
            assert(kv.take(i + 1).last() == keys@[i as int]@);
        }
        let ghost before = keys_view(r@);
        if !bytes_eq(&keys[i], &off) {
            r.push(copy_bytes(&keys[i]));
            proof {
                assert(keys_view(r@) =~= before + seq![keys@[i as int]@]);
            }
        } else {
            proof {
                assert(keys_view(r@) =~= before + Seq::<Seq<u8>>::empty());
            }
        }
        i = i + 1;
    }
    proof {
        assert(kv.take(keys@.len() as int) =~= kv);
    }
    r
}

fn contains_bytes(keys: &Vec<Vec<u8>>, v: &Vec<u8>) -> (r: bool)
    ensures
        r == keys_view(keys@).contains(v@),
{
    let mut i: usize = 0;
    while i < keys.len()
        invariant
            i <= keys@.len(),
            forall|j: int| 0 <= j < i ==> keys@[j]@ != v@,
        decreases keys@.len() - i,
    {
        if bytes_eq(&keys[i], v) {
            proof {
                assert(keys_view(keys@)[i as int] == v@);
            }
            return true;
        }
        i = i + 1;
    }
    proof {
        if keys_view(keys@).contains(v@) {
            let j = choose|j: int| 0 <= j < keys_view(keys@).len() && keys_view(keys@)[j] == v@;
            assert(keys@[j]@ == v@);
        }
    }
    false
}

fn checked_state_exec(keys: &Vec<Vec<u8>>, v: &Vec<u8>) -> (r: Vec<u8>)
    ensures
        r@ == checked_state(keys_view(keys@), v@),
{
    let on = on_states_exec(keys);
    let ghost onv = keys_view(on@);
    if on.len() == 0 || contains_bytes(&on, v) {
        return copy_bytes(v);
    }
    let vt = chars_of(utf8_lossy(v.as_slice()).as_str());
    let mut i: usize = 0;
    proof {
        assert(onv.skip(0) =~= onv);
    }
    while i < on.len()
        invariant
            i <= on@.len(),
            onv == keys_view(on@),
            vt@ == lossy_text(v@),
            onv.len() > 0,
            !onv.contains(v@),
            onv == on_states(keys_view(keys@)),
            first_prefixed(onv.skip(i as int), v@) == first_prefixed(onv, v@),
        decreases on@.len() - i,
    {
        proof {
            assert(onv.skip(i as int).drop_first() =~= onv.skip(i + 1));
            assert(onv.skip(i as int)[0] == on@[i as int]@);
        }
        let kt = chars_of(utf8_lossy(on[i].as_slice()).as_str());
        if has_prefix(&kt, &vt) {
            proof {
                assert(first_prefixed(onv.skip(i as int), v@) == Some(on@[i as int]@));
                assert(!onv.contains(v@));
            }
            return copy_bytes(&on[i]);
        }
        i = i + 1;
    }
    proof {
        assert(onv.skip(on@.len() as int) =~= Seq::<Seq<u8>>::empty());
    }
    let l = to_lowercase(utf8_lossy(v.as_slice()).as_str());
    let t = l.as_str();
    if str_eq(t, "yes") || str_eq(t, "true") || str_eq(t, "1") || str_eq(t, "x") || str_eq(t, "on") || str_eq(t, "checked") {
        copy_bytes(&on[0])
    } else {
        copy_bytes(v)
    }
}

fn matched_value_exec<'a>(values: &'a Vec<(String, String)>, name: &str) -> (r: Option<&'a String>)
    ensures
        match matched_value(values@, name@) {
            Some(v) => r matches Some(s) && s@ == v,
            None => r is None,
        },
{
    let n = chars_of(name);
    let mut i: usize = 0;
    proof {
        assert(values@.skip(0) =~= values@);
    }
    while i < values.len()
        invariant
            i <= values@.len(),
            n@ == name@,
            crate::pdf_form::xfa::value_for(values@.skip(i as int), name@) == value_for(values@, name@),
        decreases values@.len() - i,
    {
        proof {
            assert(values@.skip(i as int).drop_first() =~= values@.skip(i + 1));
            assert(values@.skip(i as int)[0] == values@[i as int]);
        }
        if str_eq(values[i].0.as_str(), name) {
            return Some(&values[i].1);
        }
        i = i + 1;
    }
    let mut k: usize = 0;
    proof {
        assert(values@.skip(0) =~= values@);
    }
    while k < values.len()
        invariant
            k <= values@.len(),
            n@ == name@,
            value_for(values@, name@) is None,
            fuzzy_value(values@.skip(k as int), name@) == fuzzy_value(values@, name@),
        decreases values@.len() - k,
    {
        proof {
            assert(values@.skip(k as int).drop_first() =~= values@.skip(k + 1));
            assert(values@.skip(k as int)[0] == values@[k as int]);
        }
        let key = chars_of(values[k].0.as_str());
        if contains(&n, &key) || contains(&key, &n) {
            return Some(&values[k].1);
        }
        k = k + 1;
    }
    None
}

fn name_edit(id: ObjId, key: &str, value: &Vec<u8>) -> (e: FormEdit)
    ensures
        e@ == EditV::Name(id, key@, value@),
{
    FormEdit::Name { id, key: key.to_owned(), value: copy_bytes(value) }
}

/// The executable state of a fill.
struct Planner {
    edits: Vec<FormEdit>,
    count: usize,
    drawn: Vec<ObjId>,
}

impl View for Planner {
    type V = FillPlan;

    closed spec fn view(&self) -> FillPlan {
        FillPlan { edits: edits_view(self.edits@), count: self.count as nat, drawn: self.drawn@ }
    }
}

impl Planner {
    fn push(&mut self, e: FormEdit)
        ensures
            final(self)@ == (FillPlan { edits: old(self)@.edits.push(e@), ..old(self)@ }),
    {
        self.edits.push(e);
        proof {
            assert(edits_view(self.edits@) =~= edits_view(old(self).edits@).push(e@));
        }
    }

    fn group_kids(&mut self, objs: &Vec<FormObject>, kids: &Vec<ObjId>, checked: &Vec<u8>)
        ensures
            final(self)@ == (FillPlan { edits: old(self)@.edits + group_kid_edits(objs@, old(self)@.drawn, kids@, checked@), ..old(self)@ }),
    {
        let ghost base = self@;
        let mut i: usize = 0;
        proof {
            assert(kids@.take(0) =~= Seq::<ObjId>::empty());
            assert(base.edits + group_kid_edits(objs@, base.drawn, kids@.take(0), checked@) =~= base.edits);
        }
        while i < kids.len()
            invariant
                i <= kids@.len(),
                self@ == (FillPlan { edits: base.edits + group_kid_edits(objs@, base.drawn, kids@.take(i as int), checked@), ..base }),
            decreases kids@.len() - i,
        {
            proof {
                assert(kids@.take(i + 1).drop_last() =~= kids@.take(i as int));
                assert(kids@.take(i + 1).last() == kids@[i as int]);
            }
            let k = kids[i];
            let ghost before = self@;
            match object_index(objs, k) {
                Some(_) => {
                    let states = states_exec(objs, &self.drawn, k);
                    let e = if contains_bytes(&states, checked) { name_edit(k, "AS", checked) } else { name_edit(k, "AS", &off_bytes()) };
                    self.push(e);
                    proof {
                        assert(self@.edits =~= base.edits + group_kid_edits(objs@, base.drawn, kids@.take(i + 1), checked@));
                    }
                },
                None => {
                    proof {
                        assert(base.edits + group_kid_edits(objs@, base.drawn, kids@.take(i + 1), checked@)
                            =~= base.edits + group_kid_edits(objs@, base.drawn, kids@.take(i as int), checked@));
                    }
                },
            }
            i = i + 1;
        }
        proof {
            assert(kids@.take(kids@.len() as int) =~= kids@);
        }
    }

    fn siblings(&mut self, objs: &Vec<FormObject>, kids: &Vec<ObjId>)
        ensures
            final(self)@ == (FillPlan { edits: old(self)@.edits + sibling_edits(objs@, old(self)@.drawn, kids@), ..old(self)@ }),
    {
        let ghost base = self@;
        let off = off_bytes();
        let mut i: usize = 0;
        proof {
            assert(kids@.take(0) =~= Seq::<ObjId>::empty());
            assert(base.edits + sibling_edits(objs@, base.drawn, kids@.take(0)) =~= base.edits);
        }
        while i < kids.len()
            invariant
                i <= kids@.len(),
                off@ == off_name(),
                self@ == (FillPlan { edits: base.edits + sibling_edits(objs@, base.drawn, kids@.take(i as int)), ..base }),
            decreases kids@.len() - i,
        {
            proof {
                assert(kids@.take(i + 1).drop_last() =~= kids@.take(i as int));
                assert(kids@.take(i + 1).last() == kids@[i as int]);
            }
            let k = kids[i];
            match object_index(objs, k) {
                Some(_) => {
                    let states = states_exec(objs, &self.drawn, k);
                    let state = checked_state_exec(&states, &off);
                    self.push(name_edit(k, "AS", &state));
                    proof {
                        assert(self@.edits =~= base.edits + sibling_edits(objs@, base.drawn, kids@.take(i + 1)));
                    }
                },
                None => {
                    proof {
                        assert(base.edits + sibling_edits(objs@, base.drawn, kids@.take(i + 1))
                            =~= base.edits + sibling_edits(objs@, base.drawn, kids@.take(i as int)));
                    }
                },
            }
            i = i + 1;
        }
        proof {
            assert(kids@.take(kids@.len() as int) =~= kids@);
        }
    }

    fn button(&mut self, objs: &Vec<FormObject>, oi: usize, v: &Vec<u8>)
        requires
            oi < objs@.len(),
            old(self).count < usize::MAX,
        ensures
            final(self)@ == button_fill(objs@, old(self)@, objs@[oi as int], v@),
    {
        let o = &objs[oi];
        let fid = o.id;
        let ghost st = self@;
        if o.has_kids && (o.flags & 0x8000) != 0 {
            let first = if o.kids.len() > 0 { o.kids[0] } else { fid };
            let states = states_exec(objs, &self.drawn, first);
            let checked = checked_state_exec(&states, v);
            self.push(name_edit(fid, "V", &checked));
            self.push(name_edit(fid, "DV", &checked));
            self.group_kids(objs, &o.kids, &checked);
            self.count = self.count + 1;
            proof {
                assert(self@.edits =~= st.edits + seq![EditV::Name(fid, "V"@, checked@), EditV::Name(fid, "DV"@, checked@)]
                    + group_kid_edits(objs@, st.drawn, o.kids@, checked@));
            }
            return;
        }
        let parent: Option<usize> = match o.parent {
            Some(p) => match object_index(objs, p) {
                Some(pi) => match &objs[pi].field_type {
                    Some(ft) => {
                        let mut btn: Vec<u8> = Vec::new();
                        btn.push(66u8);
                        btn.push(116u8);
                        btn.push(110u8);
                        proof {
                            assert(btn@ =~= btn_name());
                        }
                        if bytes_eq(ft, &btn) { Some(pi) } else { None }
                    },
                    None => None,
                },
                None => None,
            },
            None => None,
        };
        let states = states_exec(objs, &self.drawn, fid);
        let checked = checked_state_exec(&states, v);
        match parent {
            Some(pi) => {
                let pid = objs[pi].id;
                self.push(name_edit(pid, "V", &checked));
                self.push(name_edit(pid, "DV", &checked));
                self.siblings(objs, &objs[pi].kids);
                self.count = self.count + 1;
                proof {
                    assert(radio_parent(objs@, objs@[oi as int]) == Some(objs@[pi as int]));
                    assert(self@.edits =~= st.edits + seq![EditV::Name(pid, "V"@, checked@), EditV::Name(pid, "DV"@, checked@)]
                        + sibling_edits(objs@, st.drawn, objs@[pi as int].kids@));
                }
            },
            None => {
                self.push(name_edit(fid, "AS", &checked));
                self.push(name_edit(fid, "V", &checked));
                self.push(name_edit(fid, "DV", &checked));
                self.count = self.count + 1;
                proof {
                    assert(radio_parent(objs@, objs@[oi as int]) is None);
                    assert(self@.edits =~= st.edits + seq![EditV::Name(fid, "AS"@, checked@), EditV::Name(fid, "V"@, checked@), EditV::Name(fid, "DV"@, checked@)]);
                }
            },
        }
    }

    fn field(&mut self, objs: &Vec<FormObject>, oi: usize, v: &String)
        requires
            oi < objs@.len(),
            old(self).count < usize::MAX,
        ensures
            final(self)@ == field_fill(objs@, old(self)@, objs@[oi as int], v@),
    {
        let o = &objs[oi];
        let ghost st = self@;
        let vb = str_bytes(v.as_str());
        let t: Option<String> = match &o.field_type {
            Some(b) => Some(utf8_lossy(b.as_slice())),
            None => None,
        };
        let (is_btn, is_sig, is_ch, is_tx) = match &t {
            Some(s) => (str_eq(s.as_str(), "Btn"), str_eq(s.as_str(), "Sig"), str_eq(s.as_str(), "Ch"), str_eq(s.as_str(), "Tx")),
            None => (false, false, false, false),
        };
        let ghost tv = type_of(objs@[oi as int]);
        proof {
            assert(is_btn == (tv == Some("Btn"@)));
            assert(is_sig == (tv == Some("Sig"@)));
            assert(is_ch == (tv == Some("Ch"@)));
            assert(is_tx == (tv == Some("Tx"@)));
        }
        if is_btn {
            self.button(objs, oi, &vb);
            return;
        }
        if is_sig {
            return;
        }
        self.push(FormEdit::Text { id: o.id, key: "V".to_owned(), value: copy_bytes(&vb) });
        self.push(FormEdit::Text { id: o.id, key: "DV".to_owned(), value: copy_bytes(&vb) });
        self.count = self.count + 1;
        let ghost text = seq![EditV::Text(o.id, "V"@, vb@), EditV::Text(o.id, "DV"@, vb@)];
        proof {
            assert(self@.edits =~= st.edits + text);
        }
        if !is_ch {
            match &o.appearance {
                Some(da) => {
                    let e = FormEdit::Appearance { id: o.id, value: v.as_str().to_owned(), da: utf8_lossy(da.as_slice()) };
                    self.push(e);
                    proof {
                        assert(self@.edits =~= st.edits + text + seq![EditV::Appearance(o.id, v@, lossy_text(da@))]);
                    }
                    if is_tx && o.rect_len >= 4 {
                        self.drawn.push(o.id);
                    }
                },
                None => {},
            }
        }
    }
}

impl PdfFormFiller {
    /// The edits that fill AcroForm fields with values, field by field in
    /// the order of `field_ids`, and how many fields were filled.  A field
    /// takes the value given under its name (a PDF text string), else the
    /// first whose name contains its name or is contained in it.
    pub fn plan_acroform_fill(&self, objects: &Vec<FormObject>, field_ids: &Vec<(u32, u16)>, values: &Vec<(String, String)>) -> (r: (Vec<FormEdit>, usize))
        ensures
            edits_view(r.0@) == fill_plan(objects@, values@, field_ids@).edits,
            r.1 as nat == fill_plan(objects@, values@, field_ids@).count,
    {
        let mut pl = Planner { edits: Vec::new(), count: 0, drawn: Vec::new() };
        proof {
            assert(edits_view(pl.edits@) =~= Seq::<EditV>::empty());
            assert(pl.drawn@ =~= Seq::<ObjId>::empty());
        }
        let mut i: usize = 0;
        while i < field_ids.len()
            invariant
                i <= field_ids@.len(),
                pl@ == fill_plan(objects@, values@, field_ids@.take(i as int)),
                pl.count <= i,
            decreases field_ids@.len() - i,
        {
            proof {
                assert(field_ids@.take(i + 1).drop_last() =~= field_ids@.take(i as int));
                assert(field_ids@.take(i + 1).last() == field_ids@[i as int]);
            }
            let id = field_ids[i];
            match object_index(objects, id) {
                Some(oi) => match &objects[oi].name {
                    Some(nb) => {
                        let name = decode_pdf_string(nb.as_slice());
                        match matched_value_exec(values, name.as_str()) {
                            Some(v) => pl.field(objects, oi, v),
                            None => {},
                        }
                    },
                    None => {},
                },
                None => {},
            }
            i = i + 1;
        }
        proof {
            assert(field_ids@.take(field_ids@.len() as int) =~= field_ids@);
        }
        (pl.edits, pl.count)
    }
}

} // verus!
