use vstd::prelude::*;
use crate::hashing::{compute_hash, content_hash};
use crate::text::{str_eq, chars_of};

verus! {

// ---------------------------------------------------------------------------
// Entity types
// ---------------------------------------------------------------------------

#[derive(Debug)]
pub enum EntityType {
    Cell,
    Header,
    Section,
    Slide,
    Image,
    Chart,
    Table,
    Custom(String),
}

/// The name under which an entity type is reported.
pub open spec fn kind_name(t: EntityType) -> Seq<char> {
    match t {
        EntityType::Cell => "cell"@,
        EntityType::Header => "header"@,
        EntityType::Section => "section"@,
        EntityType::Slide => "slide"@,
        EntityType::Image => "image"@,
        EntityType::Chart => "chart"@,
        EntityType::Table => "table"@,
        EntityType::Custom(s) => s@,
    }
}

impl EntityType {
    pub fn as_str(&self) -> (r: &str)
        ensures
            r@ == kind_name(*self),
    {
        match self {
            EntityType::Cell => "cell",
            EntityType::Header => "header",
            EntityType::Section => "section",
            EntityType::Slide => "slide",
            EntityType::Image => "image",
            EntityType::Chart => "chart",
            EntityType::Table => "table",
            EntityType::Custom(s) => s.as_str(),
        }
    }

    pub fn duplicate(&self) -> (r: EntityType)
        ensures
            r == *self,
    {
        match self {
            EntityType::Cell => EntityType::Cell,
            EntityType::Header => EntityType::Header,
            EntityType::Section => EntityType::Section,
            EntityType::Slide => EntityType::Slide,
            EntityType::Image => EntityType::Image,
            EntityType::Chart => EntityType::Chart,
            EntityType::Table => EntityType::Table,
            EntityType::Custom(s) => EntityType::Custom(s.clone()),
        }
    }
}

// ---------------------------------------------------------------------------
// Small views
// ---------------------------------------------------------------------------

pub open spec fn strs(v: Seq<String>) -> Seq<Seq<char>> {
    v.map_values(|s: String| s@)
}

pub open spec fn opt_view(o: Option<String>) -> Option<Seq<char>> {
    match o {
        Some(s) => Some(s@),
        None => None,
    }
}

pub open spec fn opt_str_view(o: Option<&str>) -> Option<Seq<char>> {
    match o {
        Some(s) => Some(s@),
        None => None,
    }
}

pub fn clone_opt(o: &Option<String>) -> (r: Option<String>)
    ensures
        r == *o,
{
    match o {
        Some(s) => Some(s.clone()),
        None => None,
    }
}

pub fn clone_strings(v: &Vec<String>) -> (r: Vec<String>)
    ensures
        r@ == v@,
{
    let mut r: Vec<String> = Vec::new();
    let mut i: usize = 0;
    while i < v.len()
        invariant
            i <= v@.len(),
            r@ == v@.subrange(0, i as int),
        decreases v@.len() - i,
    {
        r.push(v[i].clone());
        i = i + 1;
        assert(r@ =~= v@.subrange(0, i as int));
    }
    assert(v@.subrange(0, v@.len() as int) =~= v@);
    r
}

/// Whether the list holds a string equal to `s`.
pub fn contains_string(v: &Vec<String>, s: &str) -> (b: bool)
    ensures
        b == strs(v@).contains(s@),
{
    let mut i: usize = 0;
    while i < v.len()
        invariant
            i <= v@.len(),
            forall|j: int| 0 <= j < i ==> v@[j]@ != s@,
        decreases v@.len() - i,
    {
        if str_eq(v[i].as_str(), s) {
            assert(strs(v@)[i as int] == s@);
            return true;
        }
        i = i + 1;
    }
    proof {
        if strs(v@).contains(s@) {
            let k = choose|k: int| 0 <= k < strs(v@).len() && strs(v@)[k] == s@;
            assert(v@[k]@ == s@);
        }
    }
    false
}

// ---------------------------------------------------------------------------
// Clock
// ---------------------------------------------------------------------------

/// Milliseconds since the Unix epoch from `std::time::SystemTime::now`, or 0
/// when the clock is before the epoch.  Nothing is promised of the value: it
/// depends on the machine's clock.
#[verifier::external_body]
pub(crate) fn now_millis() -> u64 {
    std::time::SystemTime::now().duration_since(std::time::UNIX_EPOCH).map(|d| d.as_millis() as u64).unwrap_or(0)
}

// ---------------------------------------------------------------------------
// Nodes and graph
// ---------------------------------------------------------------------------

#[derive(Debug)]
pub struct EntityNode {
    pub id: String,
    pub value: Option<String>,
    pub hash: Option<String>,
    pub entity_type: EntityType,
    pub dependents: Vec<String>,
    pub dependencies: Vec<String>,
    pub updated_at: Option<u64>,
}

#[derive(Debug)]
pub struct PropagatedUpdate {
    pub entity_id: String,
    pub old_value: Option<String>,
    pub new_value: Option<String>,
    pub old_hash: Option<String>,
    pub new_hash: Option<String>,
    pub depth: usize,
}

#[derive(Debug)]
pub struct EntityNodeJson {
    pub id: String,
    pub value: Option<String>,
    pub hash: Option<String>,
    pub entity_type: String,
    pub dependents: Vec<String>,
    pub dependencies: Vec<String>,
    pub updated_at: Option<u64>,
}

/// A graph of entities; `nodes` holds at most one node per id (see `wf`).
#[derive(Debug)]
pub struct EntityGraph {
    pub nodes: Vec<EntityNode>,
    pub max_depth: usize,
}

pub open spec fn update_ids(ups: Seq<PropagatedUpdate>) -> Seq<Seq<char>> {
    ups.map_values(|u: PropagatedUpdate| u.entity_id@)
}

/// The successor relation "`x` is listed as a dependent of `y`".
pub type Edges = spec_fn(Seq<char>, Seq<char>) -> bool;

/// Everything reached from a set by one edge.
pub open spec fn image(e: Edges, s: Set<Seq<char>>) -> Set<Seq<char>> {
    Set::new(|x: Seq<char>| exists|y: Seq<char>| #[trigger] s.contains(y) && e(y, x))
}

/// Ids reachable from `root` along at most `k` edges.
pub open spec fn reach(e: Edges, root: Seq<char>, k: nat) -> Set<Seq<char>>
    decreases k,
{
    if k == 0 {
        set![root]
    } else {
        reach(e, root, (k - 1) as nat).union(image(e, reach(e, root, (k - 1) as nat)))
    }
}

/// Ids whose shortest distance from `root` is exactly `k`.
pub open spec fn layer(e: Edges, root: Seq<char>, k: nat) -> Set<Seq<char>> {
    if k == 0 {
        set![root]
    } else {
        reach(e, root, k).difference(reach(e, root, (k - 1) as nat))
    }
}

pub proof fn lemma_reach_mono(e: Edges, root: Seq<char>, a: nat, b: nat)
    requires
        a <= b,
    ensures
        reach(e, root, a).subset_of(reach(e, root, b)),
    decreases b - a,
{
    if a < b {
        lemma_reach_mono(e, root, a, (b - 1) as nat);
    }
}

pub proof fn lemma_reach_stable(e: Edges, root: Seq<char>, l: nat, k: nat)
    requires
        reach(e, root, l + 1) == reach(e, root, l),
        l <= k,
    ensures
        reach(e, root, k) == reach(e, root, l),
    decreases k - l,
{
    if l < k {
        lemma_reach_stable(e, root, l, (k - 1) as nat);
        assert(reach(e, root, k) == reach(e, root, (k - 1) as nat).union(
            image(e, reach(e, root, (k - 1) as nat))));
    }
}

impl EntityGraph {
    pub open spec fn ids(self) -> Seq<Seq<char>> {
        self.nodes@.map_values(|n: EntityNode| n.id@)
    }

    /// No two nodes share an id.
    pub open spec fn wf(self) -> bool {
        self.ids().no_duplicates()
    }

    pub open spec fn has(self, id: Seq<char>) -> bool {
        exists|i: int| 0 <= i < self.nodes@.len() && #[trigger] self.nodes@[i].id@ == id
    }

    pub open spec fn pos(self, id: Seq<char>) -> int {
        choose|i: int| 0 <= i < self.nodes@.len() && #[trigger] self.nodes@[i].id@ == id
    }

    /// The dependents recorded for `id`; none when there is no such node.
    pub open spec fn deps_of(self, id: Seq<char>) -> Seq<Seq<char>> {
        if self.has(id) {
            strs(self.nodes@[self.pos(id)].dependents@)
        } else {
            Seq::empty()
        }
    }

    pub open spec fn value_of(self, id: Seq<char>) -> Option<Seq<char>> {
        if self.has(id) {
            opt_view(self.nodes@[self.pos(id)].value)
        } else {
            None
        }
    }

    pub open spec fn hash_of(self, id: Seq<char>) -> Option<Seq<char>> {
        if self.has(id) {
            opt_view(self.nodes@[self.pos(id)].hash)
        } else {
            None
        }
    }

    pub open spec fn edges(self) -> Edges {
        |y: Seq<char>, x: Seq<char>| self.deps_of(y).contains(x)
    }

    pub proof fn lemma_pos(self, i: int)
        requires
            self.wf(),
            0 <= i < self.nodes@.len(),
        ensures
            self.has(self.nodes@[i].id@),
            self.pos(self.nodes@[i].id@) == i,
    {
        let id = self.nodes@[i].id@;
        assert(self.nodes@[i].id@ == id);
        let p = self.pos(id);
        assert(self.ids()[p] == self.ids()[i]);
    }

    pub fn new() -> (g: EntityGraph)
        ensures
            g.wf(),
            g.nodes@.len() == 0,
            g.max_depth == 3,
    {
        EntityGraph { nodes: Vec::new(), max_depth: 3 }
    }

    /// Index of the node with the given id.
    pub fn find_node(&self, id: &str) -> (r: Option<usize>)
        requires
            self.wf(),
        ensures
            match r {
                Some(i) => i < self.nodes@.len() && self.nodes@[i as int].id@ == id@ && self.has(id@)
                    && self.pos(id@) == i,
                None => !self.has(id@),
            },
    {
        let mut i: usize = 0;
        while i < self.nodes.len()
            invariant
                self.wf(),
                i <= self.nodes@.len(),
                forall|j: int| 0 <= j < i ==> self.nodes@[j].id@ != id@,
            decreases self.nodes@.len() - i,
        {
            if str_eq(self.nodes[i].id.as_str(), id) {
                proof {
                    self.lemma_pos(i as int);
                }
                return Some(i);
            }
            i = i + 1;
        }
        None
    }

    /// Adds a node unless one with this id exists; an existing node is kept
    /// as it is.
    pub fn add_entity(&mut self, id: &str, value: Option<&str>, entity_type: EntityType)
        requires
            old(self).wf(),
        ensures
            final(self).wf(),
            final(self).max_depth == old(self).max_depth,
            old(self).has(id@) ==> final(self).nodes@ == old(self).nodes@,
            !old(self).has(id@) ==> {
                &&& final(self).nodes@.len() == old(self).nodes@.len() + 1
                &&& final(self).nodes@.subrange(0, old(self).nodes@.len() as int) == old(self).nodes@
                &&& {
                    let n = final(self).nodes@[old(self).nodes@.len() as int];
                    &&& n.id@ == id@
                    &&& opt_view(n.value) == opt_str_view(value)
                    &&& opt_view(n.hash) == (match value {
                        Some(v) => Some(content_hash(v@)),
                        None => None,
                    })
                    &&& n.entity_type == entity_type
                    &&& n.dependents@.len() == 0
                    &&& n.dependencies@.len() == 0
                    &&& n.updated_at is Some
                }
            },
            forall|x: Seq<char>| #[trigger] final(self).has(x) == (old(self).has(x) || x == id@),
            forall|y: Seq<char>, x: Seq<char>|
                #[trigger] final(self).deps_of(y).contains(x) == old(self).deps_of(y).contains(x),
            forall|x: Seq<char>|
                x != id@ ==> #[trigger] final(self).value_of(x) == old(self).value_of(x),
            forall|x: Seq<char>|
                x != id@ ==> #[trigger] final(self).hash_of(x) == old(self).hash_of(x),
            final(self).value_of(id@) == (if old(self).has(id@) {
                old(self).value_of(id@)
            } else {
                opt_str_view(value)
            }),
            final(self).hash_of(id@) == (if old(self).has(id@) {
                old(self).hash_of(id@)
            } else {
                match value {
                    Some(v) => Some(content_hash(v@)),
                    None => None,
                }
            }),
    {
        match self.find_node(id) {
            Some(_) => {},
            None => {
                let hash = match value {
                    Some(v) => Some(compute_hash(v)),
                    None => None,
                };
                let val = match value {
                    Some(v) => Some(v.to_owned()),
                    None => None,
                };
                let now = now_millis();
                let node = EntityNode {
                    id: id.to_owned(),
                    value: val,
                    hash,
                    entity_type,
                    dependents: Vec::new(),
                    dependencies: Vec::new(),
                    updated_at: Some(now),
                };
                let ghost old_nodes = self.nodes@;
                self.nodes.push(node);
                proof {
                    assert(self.nodes@.subrange(0, old_nodes.len() as int) =~= old_nodes);
                    assert forall|i: int, j: int|
                        0 <= i < self.ids().len() && 0 <= j < self.ids().len() && i != j
                        implies self.ids()[i] != self.ids()[j] by {
                        if i < old_nodes.len() && j < old_nodes.len() {
                            assert(self.ids()[i] == old(self).ids()[i]);
                            assert(self.ids()[j] == old(self).ids()[j]);
                        } else if i < old_nodes.len() {
                            assert(old_nodes[i].id@ != id@);
                        } else {
                            assert(old_nodes[j].id@ != id@);
                        }
                    }
                    let n = old_nodes.len() as int;
                    self.lemma_pos(n);
                    assert forall|x: Seq<char>| #[trigger] self.has(x) == (old(self).has(x) || x == id@) by {
                        if self.has(x) && x != id@ {
                            let k = choose|k: int| 0 <= k < self.nodes@.len() && #[trigger] self.nodes@[k].id@ == x;
                            assert(old_nodes[k].id@ == x);
                        }
                        if old(self).has(x) {
                            let k = choose|k: int| 0 <= k < old_nodes.len() && #[trigger] old_nodes[k].id@ == x;
                            assert(self.nodes@[k].id@ == x);
                        }
                    }
                    assert forall|x: Seq<char>| old(self).has(x) implies #[trigger] self.pos(x) == old(self).pos(x) by {
                        let k = old(self).pos(x);
                        old(self).lemma_pos(k);
                        assert(self.nodes@[k] == old_nodes[k]);
                        self.lemma_pos(k);
                    }
                    assert forall|y: Seq<char>, x: Seq<char>|
                        #[trigger] self.deps_of(y).contains(x) == old(self).deps_of(y).contains(x) by {
                        if y == id@ {
                            assert(self.pos(y) == n);
                        }
                    }
                }
            },
        }
    }
}


/// `list` with `x` appended unless it is already there.
pub open spec fn with_added(list: Seq<Seq<char>>, x: Seq<char>) -> Seq<Seq<char>> {
    if list.contains(x) {
        list
    } else {
        list.push(x)
    }
}

/// The nodes of `g` that the ids in `ids` name, in order; ids without a
/// node are skipped.
pub open spec fn existing_nodes(g: EntityGraph, ids: Seq<Seq<char>>) -> Seq<EntityNode>
    decreases ids.len(),
{
    if ids.len() == 0 {
        Seq::empty()
    } else {
        let rest = existing_nodes(g, ids.drop_last());
        if g.has(ids.last()) {
            rest.push(g.nodes@[g.pos(ids.last())])
        } else {
            rest
        }
    }
}

/// What an edit propagation reports for graph `g`, edited entity `root`
/// and new value `new_value`: the edited entity first, then every entity
/// reachable within `g.max_depth` dependent links, once each, in order of
/// distance, each with the distance at which it was first reached.
pub open spec fn propagation_ok(
    g: EntityGraph,
    root: Seq<char>,
    new_value: Seq<char>,
    ups: Seq<PropagatedUpdate>,
) -> bool {
    &&& ups.len() >= 1
    &&& ups[0].entity_id@ == root
    &&& opt_view(ups[0].new_value) == Some(new_value)
    &&& opt_view(ups[0].new_hash) == Some(content_hash(new_value))
    &&& opt_view(ups[0].old_value) == g.value_of(root)
    &&& opt_view(ups[0].old_hash) == g.hash_of(root)
    &&& ups[0].depth == 0
    &&& forall|i: int|
        1 <= i < ups.len() ==> {
            &&& (#[trigger] ups[i]).new_value is None
            &&& ups[i].new_hash is None
            &&& 1 <= ups[i].depth <= g.max_depth
            &&& opt_view(ups[i].old_value) == g.value_of(ups[i].entity_id@)
            &&& opt_view(ups[i].old_hash) == g.hash_of(ups[i].entity_id@)
        }
    &&& forall|i: int|
        0 <= i < ups.len() ==> layer(g.edges(), root, (#[trigger] ups[i]).depth as nat).contains(
            ups[i].entity_id@,
        )
    &&& forall|i: int, j: int| 0 <= i <= j < ups.len() ==> ups[i].depth <= ups[j].depth
    &&& update_ids(ups).no_duplicates()
    &&& update_ids(ups).to_set() == reach(g.edges(), root, g.max_depth as nat)
}

pub proof fn lemma_next_level(e: Edges, root: Seq<char>, level: nat)
    ensures
        reach(e, root, level + 1) == reach(e, root, level).union(image(e, layer(e, root, level))),
{
    let r0 = reach(e, root, level);
    let r1 = reach(e, root, level + 1);
    let rhs = r0.union(image(e, layer(e, root, level)));
    assert forall|x: Seq<char>| r1.contains(x) implies rhs.contains(x) by {
        if !r0.contains(x) {
            assert(image(e, r0).contains(x));
            let y = choose|y: Seq<char>| #[trigger] r0.contains(y) && e(y, x);
            if level == 0 {
                assert(layer(e, root, level).contains(y));
            } else {
                let rp = reach(e, root, (level - 1) as nat);
                if rp.contains(y) {
                    assert(image(e, rp).contains(x));
                    assert(r0.contains(x));
                } else {
                    assert(layer(e, root, level).contains(y));
                }
            }
            assert(image(e, layer(e, root, level)).contains(x));
        }
    }
    assert forall|x: Seq<char>| rhs.contains(x) implies r1.contains(x) by {
        if !r0.contains(x) {
            assert(image(e, layer(e, root, level)).contains(x));
            let y = choose|y: Seq<char>| #[trigger] layer(e, root, level).contains(y) && e(y, x);
            assert(r0.contains(y));
            assert(image(e, r0).contains(x));
        }
    }
    assert(r1 =~= rhs);
}

pub proof fn lemma_layer_in_reach(e: Edges, root: Seq<char>, level: nat)
    ensures
        layer(e, root, level).subset_of(reach(e, root, level)),
        reach(e, root, 0).subset_of(reach(e, root, level)),
        reach(e, root, level).contains(root),
{
    lemma_reach_mono(e, root, 0, level);
    assert(reach(e, root, 0).contains(root));
}

pub proof fn lemma_push_contains<A>(s: Seq<A>, x: A)
    ensures
        forall|a: A| #[trigger] s.push(x).contains(a) == (s.contains(a) || a == x),
        s.push(x).to_set() == s.to_set().insert(x),
{
    assert forall|a: A| #[trigger] s.push(x).contains(a) == (s.contains(a) || a == x) by {
        if s.push(x).contains(a) && a != x {
            let m = choose|m: int| 0 <= m < s.push(x).len() && s.push(x)[m] == a;
            assert(s[m] == a);
        }
        if s.contains(a) {
            let m = choose|m: int| 0 <= m < s.len() && s[m] == a;
            assert(s.push(x)[m] == a);
        }
        if a == x {
            assert(s.push(x)[s.len() as int] == x);
        }
    }
    assert(s.push(x).to_set() =~= s.to_set().insert(x));
}

pub proof fn lemma_single_set<A>(x: A)
    ensures
        seq![x].to_set() == set![x],
{
    assert(seq![x][0] == x);
    assert(seq![x].to_set() =~= set![x]);
}

pub proof fn lemma_with_added_contains(l: Seq<Seq<char>>, a: Seq<char>, x: Seq<char>)
    ensures
        with_added(l, a).contains(x) == (l.contains(x) || x == a),
{
    if !l.contains(a) {
        assert(l.push(a)[l.len() as int] == a);
        if l.push(a).contains(x) && x != a {
            let m = choose|m: int| 0 <= m < l.push(a).len() && l.push(a)[m] == x;
            assert(l[m] == x);
        }
        if l.contains(x) {
            let m = choose|m: int| 0 <= m < l.len() && l[m] == x;
            assert(l.push(a)[m] == x);
        }
    }
}

/// Two graphs whose nodes carry the same ids, index for index.
pub proof fn lemma_same_ids(a: EntityGraph, b: EntityGraph)
    requires
        a.wf(),
        a.nodes@.len() == b.nodes@.len(),
        forall|k: int| 0 <= k < a.nodes@.len() ==> (#[trigger] a.nodes@[k]).id == b.nodes@[k].id,
    ensures
        b.wf(),
        b.ids() == a.ids(),
        forall|id: Seq<char>| #[trigger] b.has(id) == a.has(id),
        forall|id: Seq<char>| a.has(id) ==> #[trigger] b.pos(id) == a.pos(id),
{
    assert(b.ids() =~= a.ids());
    assert forall|id: Seq<char>| #[trigger] b.has(id) == a.has(id) by {
        if b.has(id) {
            let k = choose|k: int| 0 <= k < b.nodes@.len() && #[trigger] b.nodes@[k].id@ == id;
            assert(a.nodes@[k].id == b.nodes@[k].id);
            assert(a.nodes@[k].id@ == id);
        }
        if a.has(id) {
            let k = choose|k: int| 0 <= k < a.nodes@.len() && #[trigger] a.nodes@[k].id@ == id;
            assert(a.nodes@[k].id == b.nodes@[k].id);
            assert(b.nodes@[k].id@ == id);
        }
    }
    assert forall|id: Seq<char>| a.has(id) implies #[trigger] b.pos(id) == a.pos(id) by {
        let k = a.pos(id);
        a.lemma_pos(k);
        assert(a.nodes@[k].id == b.nodes@[k].id);
        b.lemma_pos(k);
    }
}

impl EntityGraph {
    /// Records that `from` depends on `to`: `from` joins the dependents of
    /// `to` and `to` joins the dependencies of `from`, each only once and
    /// only where the node exists.
    pub fn add_dependency(&mut self, from: &str, to: &str)
        requires
            old(self).wf(),
        ensures
            final(self).wf(),
            final(self).max_depth == old(self).max_depth,
            final(self).nodes@.len() == old(self).nodes@.len(),
            forall|i: int|
                0 <= i < old(self).nodes@.len() ==> {
                    let o = #[trigger] old(self).nodes@[i];
                    let n = final(self).nodes@[i];
                    &&& n.id == o.id
                    &&& n.value == o.value
                    &&& n.hash == o.hash
                    &&& n.entity_type == o.entity_type
                    &&& n.updated_at == o.updated_at
                    &&& strs(n.dependents@) == (if o.id@ == to@ {
                        with_added(strs(o.dependents@), from@)
                    } else {
                        strs(o.dependents@)
                    })
                    &&& strs(n.dependencies@) == (if o.id@ == from@ {
                        with_added(strs(o.dependencies@), to@)
                    } else {
                        strs(o.dependencies@)
                    })
                },
            forall|id: Seq<char>| #[trigger] final(self).has(id) == old(self).has(id),
            forall|id: Seq<char>| #[trigger] final(self).value_of(id) == old(self).value_of(id),
            forall|id: Seq<char>| #[trigger] final(self).hash_of(id) == old(self).hash_of(id),
            forall|y: Seq<char>, x: Seq<char>|
                #[trigger] final(self).deps_of(y).contains(x) == (old(self).deps_of(y).contains(x)
                    || (y == to@ && old(self).has(to@) && x == from@)),
    {
        let ghost g = *self;
        if let Some(i) = self.find_node(from) {
            if !contains_string(&self.nodes[i].dependencies, to) {
                self.nodes[i].dependencies.push(to.to_owned());
                assert(strs(self.nodes@[i as int].dependencies@) =~= strs(g.nodes@[i as int].dependencies@).push(to@));
            }
            proof {
                assert forall|k: int| 0 <= k < self.nodes@.len() && k != i implies self.nodes@[k] == g.nodes@[k] by {}
                lemma_same_ids(g, *self);
            }
        }
        let ghost g1 = *self;
        if let Some(j) = self.find_node(to) {
            if !contains_string(&self.nodes[j].dependents, from) {
                self.nodes[j].dependents.push(from.to_owned());
                assert(strs(self.nodes@[j as int].dependents@) =~= strs(g1.nodes@[j as int].dependents@).push(from@));
            }
            proof {
                assert forall|k: int| 0 <= k < self.nodes@.len() && k != j implies self.nodes@[k] == g1.nodes@[k] by {}
                lemma_same_ids(g1, *self);
            }
        }
        proof {
            lemma_same_ids(g, *self);
            assert forall|i: int| 0 <= i < g.nodes@.len() implies {
                let o = #[trigger] g.nodes@[i];
                let n = self.nodes@[i];
                &&& n.id == o.id
                &&& n.value == o.value
                &&& n.hash == o.hash
                &&& n.entity_type == o.entity_type
                &&& n.updated_at == o.updated_at
                &&& strs(n.dependents@) == (if o.id@ == to@ {
                    with_added(strs(o.dependents@), from@)
                } else {
                    strs(o.dependents@)
                })
                &&& strs(n.dependencies@) == (if o.id@ == from@ {
                    with_added(strs(o.dependencies@), to@)
                } else {
                    strs(o.dependencies@)
                })
            } by {
                g.lemma_pos(i);
            }
            assert forall|id: Seq<char>| #[trigger] self.value_of(id) == g.value_of(id)
                && self.hash_of(id) == g.hash_of(id) by {
                if g.has(id) {
                    g.lemma_pos(g.pos(id));
                }
            }
            assert forall|id: Seq<char>| #[trigger] self.hash_of(id) == g.hash_of(id) by {
                if g.has(id) {
                    g.lemma_pos(g.pos(id));
                }
            }
            assert forall|y: Seq<char>, x: Seq<char>|
                #[trigger] self.deps_of(y).contains(x) == (g.deps_of(y).contains(x)
                    || (y == to@ && g.has(to@) && x == from@)) by {
                if g.has(y) {
                    let k = g.pos(y);
                    g.lemma_pos(k);
                    self.lemma_pos(k);
                    if y == to@ {
                        lemma_with_added_contains(strs(g.nodes@[k].dependents@), from@, x);
                    }
                }
            }
        }
    }

    /// Dependents recorded for `id`, copied.
    pub fn dependents_of(&self, id: &str) -> (r: Vec<String>)
        requires
            self.wf(),
        ensures
            strs(r@) == self.deps_of(id@),
    {
        match self.find_node(id) {
            Some(i) => clone_strings(&self.nodes[i].dependents),
            None => {
                let r: Vec<String> = Vec::new();
                assert(strs(r@) =~= Seq::<Seq<char>>::empty());
                r
            },
        }
    }

    /// Current value and hash recorded for `id`.
    pub fn value_and_hash(&self, id: &str) -> (r: (Option<String>, Option<String>))
        requires
            self.wf(),
        ensures
            opt_view(r.0) == self.value_of(id@),
            opt_view(r.1) == self.hash_of(id@),
    {
        match self.find_node(id) {
            Some(i) => (clone_opt(&self.nodes[i].value), clone_opt(&self.nodes[i].hash)),
            None => (None, None),
        }
    }

    /// The nodes of the dependents of `entity_id` that exist in the graph.
    pub fn get_dependents(&self, entity_id: &str) -> (r: Vec<&EntityNode>)
        requires
            self.wf(),
        ensures
            r@.map_values(|n: &EntityNode| *n) == existing_nodes(*self, self.deps_of(entity_id@)),
    {
        let deps = self.dependents_of(entity_id);
        let mut r: Vec<&EntityNode> = Vec::new();
        let mut k: usize = 0;
        while k < deps.len()
            invariant
                self.wf(),
                k <= deps@.len(),
                strs(deps@) == self.deps_of(entity_id@),
                r@.map_values(|n: &EntityNode| *n) == existing_nodes(*self, strs(deps@).take(k as int)),
            decreases deps@.len() - k,
        {
            let ghost ids = strs(deps@).take(k as int + 1);
            assert(ids.drop_last() =~= strs(deps@).take(k as int));
            assert(ids.last() == deps@[k as int]@);
            match self.find_node(deps[k].as_str()) {
                Some(i) => {
                    r.push(&self.nodes[i]);
                    assert(r@.map_values(|n: &EntityNode| *n) =~= existing_nodes(*self, ids));
                },
                None => {},
            }
            k = k + 1;
        }
        assert(strs(deps@).take(deps@.len() as int) =~= strs(deps@));
        r
    }
}

impl EntityGraph {
    /// Sends an edit of `entity_id` through the graph.  The edited node (if
    /// present) takes the new value and its hash; then every entity reached
    /// through dependent links within `max_depth` steps is reported once, in
    /// breadth-first order, with the value it holds.  Cycles are cut by the
    /// visited set.
    pub fn propagate_edit(&mut self, entity_id: &str, new_value: &str) -> (r: Result<
        Vec<PropagatedUpdate>,
        String,
    >)
        requires
            old(self).wf(),
        ensures
            final(self).wf(),
            final(self).max_depth == old(self).max_depth,
            final(self).nodes@.len() == old(self).nodes@.len(),
            forall|i: int|
                0 <= i < old(self).nodes@.len() ==> {
                    let o = #[trigger] old(self).nodes@[i];
                    let n = final(self).nodes@[i];
                    &&& n.id == o.id
                    &&& n.entity_type == o.entity_type
                    &&& n.dependents == o.dependents
                    &&& n.dependencies == o.dependencies
                    &&& if o.id@ == entity_id@ {
                        &&& opt_view(n.value) == Some(new_value@)
                        &&& opt_view(n.hash) == Some(content_hash(new_value@))
                        &&& n.updated_at is Some
                    } else {
                        &&& n.value == o.value
                        &&& n.hash == o.hash
                        &&& n.updated_at == o.updated_at
                    }
                },
            r is Ok,
            propagation_ok(*old(self), entity_id@, new_value@, r->Ok_0@),
    {
        let ghost g = *self;
        let ghost e = g.edges();
        let ghost root = entity_id@;
        let new_hash = compute_hash(new_value);
        let now = now_millis();
        let (old_value, old_hash) = self.value_and_hash(entity_id);
        if let Some(i) = self.find_node(entity_id) {
            self.nodes[i].value = Some(new_value.to_owned());
            self.nodes[i].hash = Some(new_hash.clone());
            self.nodes[i].updated_at = Some(now);
            proof {
                assert forall|k: int| 0 <= k < self.nodes@.len() && k != i implies self.nodes@[k] == g.nodes@[k] by {}
                lemma_same_ids(g, *self);
            }
        }
        proof {
            lemma_same_ids(g, *self);
            assert forall|i: int| 0 <= i < g.nodes@.len() implies {
                let o = #[trigger] g.nodes@[i];
                let n = self.nodes@[i];
                &&& n.id == o.id
                &&& n.entity_type == o.entity_type
                &&& n.dependents == o.dependents
                &&& n.dependencies == o.dependencies
                &&& if o.id@ == entity_id@ {
                    &&& opt_view(n.value) == Some(new_value@)
                    &&& opt_view(n.hash) == Some(content_hash(new_value@))
                    &&& n.updated_at is Some
                } else {
                    &&& n.value == o.value
                    &&& n.hash == o.hash
                    &&& n.updated_at == o.updated_at
                }
            } by {
                g.lemma_pos(i);
            }
            assert forall|id: Seq<char>| #[trigger] self.deps_of(id) == g.deps_of(id) by {
                if g.has(id) {
                    g.lemma_pos(g.pos(id));
                }
            }
            assert forall|id: Seq<char>| id != root implies #[trigger] self.value_of(id) == g.value_of(id)
                && self.hash_of(id) == g.hash_of(id) by {
                if g.has(id) {
                    g.lemma_pos(g.pos(id));
                }
            }
        }

        let mut updates: Vec<PropagatedUpdate> = Vec::new();
        updates.push(PropagatedUpdate {
            entity_id: entity_id.to_owned(),
            old_value,
            new_value: Some(new_value.to_owned()),
            old_hash,
            new_hash: Some(new_hash),
            depth: 0,
        });
        let mut visited: Vec<String> = Vec::new();
        visited.push(entity_id.to_owned());
        let mut frontier: Vec<String> = Vec::new();
        frontier.push(entity_id.to_owned());
        let mut level: usize = 0;
        proof {
            assert(strs(visited@) =~= seq![root]);
            assert(update_ids(updates@) =~= seq![root]);
            lemma_single_set(root);
            assert(strs(frontier@) =~= seq![root]);
            assert(strs(visited@).to_set() =~= reach(e, root, 0));
            assert(strs(frontier@).to_set() =~= layer(e, root, 0));
        }
        while level < self.max_depth && frontier.len() > 0
            invariant
                self.wf(),
                self.max_depth == g.max_depth,
                forall|id: Seq<char>| #[trigger] self.deps_of(id) == g.deps_of(id),
                forall|id: Seq<char>| id != root ==> #[trigger] self.value_of(id) == g.value_of(id)
                    && self.hash_of(id) == g.hash_of(id),
                e == g.edges(),
                root == entity_id@,
                level <= g.max_depth,
                strs(visited@).no_duplicates(),
                update_ids(updates@) == strs(visited@),
                strs(visited@).to_set() == reach(e, root, level as nat),
                strs(frontier@).to_set() == layer(e, root, level as nat),
                frontier@.len() == 0 ==> level > 0 && reach(e, root, level as nat) == reach(
                    e,
                    root,
                    (level - 1) as nat,
                ),
                updates@.len() >= 1,
                updates@[0].entity_id@ == root,
                opt_view(updates@[0].new_value) == Some(new_value@),
                opt_view(updates@[0].new_hash) == Some(content_hash(new_value@)),
                opt_view(updates@[0].old_value) == g.value_of(root),
                opt_view(updates@[0].old_hash) == g.hash_of(root),
                updates@[0].depth == 0,
                forall|i: int|
                    1 <= i < updates@.len() ==> {
                        &&& (#[trigger] updates@[i]).new_value is None
                        &&& updates@[i].new_hash is None
                        &&& 1 <= updates@[i].depth <= level
                        &&& opt_view(updates@[i].old_value) == g.value_of(updates@[i].entity_id@)
                        &&& opt_view(updates@[i].old_hash) == g.hash_of(updates@[i].entity_id@)
                    },
                forall|i: int|
                    0 <= i < updates@.len() ==> layer(e, root, (#[trigger] updates@[i]).depth as nat).contains(
                        updates@[i].entity_id@,
                    ),
                forall|i: int, j: int|
                    0 <= i <= j < updates@.len() ==> updates@[i].depth <= updates@[j].depth,
            decreases g.max_depth - level,
        {
            let ghost vis0 = strs(visited@).to_set();
            let ghost fr = strs(frontier@);
            let mut next: Vec<String> = Vec::new();
            let mut fi: usize = 0;
            proof {
                lemma_layer_in_reach(e, root, level as nat);
                assert(fr.take(0).to_set() =~= Set::<Seq<char>>::empty());
                assert(image(e, fr.take(0).to_set()) =~= Set::<Seq<char>>::empty());
                assert(strs(visited@).to_set() =~= vis0.union(image(e, fr.take(0).to_set())));
                assert(strs(next@).to_set() =~= Set::<Seq<char>>::empty());
            }
            while fi < frontier.len()
                invariant
                    self.wf(),
                    self.max_depth == g.max_depth,
                    forall|id: Seq<char>| #[trigger] self.deps_of(id) == g.deps_of(id),
                    forall|id: Seq<char>| id != root ==> #[trigger] self.value_of(id) == g.value_of(id)
                        && self.hash_of(id) == g.hash_of(id),
                    e == g.edges(),
                    root == entity_id@,
                    level < g.max_depth,
                    fr == strs(frontier@),
                    fr.to_set() == layer(e, root, level as nat),
                    vis0 == reach(e, root, level as nat),
                    vis0.contains(root),
                    layer(e, root, level as nat).subset_of(vis0),
                    fi <= frontier@.len(),
                    strs(visited@).no_duplicates(),
                    update_ids(updates@) == strs(visited@),
                    strs(visited@).to_set() == vis0.union(image(e, fr.take(fi as int).to_set())),
                    strs(next@).to_set() == strs(visited@).to_set().difference(vis0),
                    updates@.len() >= 1,
                    updates@[0].entity_id@ == root,
                    opt_view(updates@[0].new_value) == Some(new_value@),
                    opt_view(updates@[0].new_hash) == Some(content_hash(new_value@)),
                    opt_view(updates@[0].old_value) == g.value_of(root),
                    opt_view(updates@[0].old_hash) == g.hash_of(root),
                    updates@[0].depth == 0,
                    forall|i: int|
                        1 <= i < updates@.len() ==> {
                            &&& (#[trigger] updates@[i]).new_value is None
                            &&& updates@[i].new_hash is None
                            &&& 1 <= updates@[i].depth <= level + 1
                            &&& opt_view(updates@[i].old_value) == g.value_of(updates@[i].entity_id@)
                            &&& opt_view(updates@[i].old_hash) == g.hash_of(updates@[i].entity_id@)
                        },
                    forall|i: int|
                        0 <= i < updates@.len() ==> layer(e, root, (#[trigger] updates@[i]).depth as nat).contains(
                            updates@[i].entity_id@,
                        ),
                    forall|i: int, j: int|
                        0 <= i <= j < updates@.len() ==> updates@[i].depth <= updates@[j].depth,
                    forall|i: int| 0 <= i < updates@.len() ==> (#[trigger] updates@[i]).depth <= level + 1,
                decreases frontier@.len() - fi,
            {
                let deps = self.dependents_of(frontier[fi].as_str());
                let ghost y = fr[fi as int];
                let ghost ds = strs(deps@);
                let ghost before = vis0.union(image(e, fr.take(fi as int).to_set()));
                let mut di: usize = 0;
                proof {
                    assert(ds == g.deps_of(y));
                    assert(fr.to_set().contains(y));
                    assert(ds.take(0).to_set() =~= Set::<Seq<char>>::empty());
                    assert(strs(visited@).to_set() =~= before.union(ds.take(0).to_set()));
                }
                while di < deps.len()
                    invariant
                        self.wf(),
                        forall|id: Seq<char>| id != root ==> #[trigger] self.value_of(id) == g.value_of(id)
                            && self.hash_of(id) == g.hash_of(id),
                        e == g.edges(),
                        root == entity_id@,
                        ds == strs(deps@),
                        ds == g.deps_of(y),
                        level < g.max_depth,
                        layer(e, root, level as nat).contains(y),
                        vis0 == reach(e, root, level as nat),
                        vis0.contains(root),
                        layer(e, root, level as nat).subset_of(vis0),
                        before.subset_of(strs(visited@).to_set()),
                        vis0.subset_of(before),
                        di <= deps@.len(),
                        strs(visited@).no_duplicates(),
                        update_ids(updates@) == strs(visited@),
                        strs(visited@).to_set() == before.union(ds.take(di as int).to_set()),
                        strs(next@).to_set() == strs(visited@).to_set().difference(vis0),
                        updates@.len() >= 1,
                        updates@[0].entity_id@ == root,
                        opt_view(updates@[0].new_value) == Some(new_value@),
                        opt_view(updates@[0].new_hash) == Some(content_hash(new_value@)),
                        opt_view(updates@[0].old_value) == g.value_of(root),
                        opt_view(updates@[0].old_hash) == g.hash_of(root),
                        updates@[0].depth == 0,
                        forall|i: int|
                            1 <= i < updates@.len() ==> {
                                &&& (#[trigger] updates@[i]).new_value is None
                                &&& updates@[i].new_hash is None
                                &&& 1 <= updates@[i].depth <= level + 1
                                &&& opt_view(updates@[i].old_value) == g.value_of(updates@[i].entity_id@)
                                &&& opt_view(updates@[i].old_hash) == g.hash_of(updates@[i].entity_id@)
                            },
                        forall|i: int|
                            0 <= i < updates@.len() ==> layer(e, root, (#[trigger] updates@[i]).depth as nat).contains(
                                updates@[i].entity_id@,
                            ),
                        forall|i: int, j: int|
                            0 <= i <= j < updates@.len() ==> updates@[i].depth <= updates@[j].depth,
                        forall|i: int| 0 <= i < updates@.len() ==> (#[trigger] updates@[i]).depth <= level + 1,
                    decreases deps@.len() - di,
                {
                    let d = deps[di].as_str();
                    let ghost x = ds[di as int];
                    let ghost vset = strs(visited@).to_set();
                    if !contains_string(&visited, d) {
                        let (ov, oh) = self.value_and_hash(d);
                        let ghost ups0 = updates@;
                        let ghost vis_seq = strs(visited@);
                        let ghost next_seq = strs(next@);
                        updates.push(PropagatedUpdate {
                            entity_id: d.to_owned(),
                            old_value: ov,
                            new_value: None,
                            old_hash: oh,
                            new_hash: None,
                            depth: level + 1,
                        });
                        visited.push(d.to_owned());
                        next.push(d.to_owned());
                        proof {
                            assert(x != root);
                            assert(e(y, x));
                            assert(image(e, vis0).contains(x));
                            assert(reach(e, root, (level + 1) as nat).contains(x));
                            assert(!vis0.contains(x));
                            assert(layer(e, root, (level + 1) as nat).contains(x));
                            assert(strs(visited@) =~= vis_seq.push(x));
                            assert(update_ids(updates@) =~= update_ids(ups0).push(x));
                            lemma_push_contains(vis_seq, x);
                            assert(strs(visited@).to_set() =~= vset.insert(x));
                            assert(ds.take(di as int + 1) =~= ds.take(di as int).push(x));
                            lemma_push_contains(ds.take(di as int), x);
                            assert(strs(visited@).to_set() =~= before.union(ds.take(di as int + 1).to_set()));
                            assert(strs(next@) =~= next_seq.push(x));
                            lemma_push_contains(next_seq, x);
                            assert(strs(next@).to_set() =~= strs(visited@).to_set().difference(vis0));
                            assert forall|i: int, j: int|
                                0 <= i < strs(visited@).len() && 0 <= j < strs(visited@).len() && i != j
                                implies strs(visited@)[i] != strs(visited@)[j] by {
                                if i < vis_seq.len() && j < vis_seq.len() {
                                    assert(strs(visited@)[i] == vis_seq[i]);
                                    assert(strs(visited@)[j] == vis_seq[j]);
                                } else if i < vis_seq.len() {
                                    assert(vis_seq.contains(vis_seq[i]));
                                } else {
                                    assert(vis_seq.contains(vis_seq[j]));
                                }
                            }
                        }
                    } else {
                        proof {
                            assert(ds.take(di as int + 1) =~= ds.take(di as int).push(x));
                            lemma_push_contains(ds.take(di as int), x);
                            assert(vset.contains(x));
                            assert(strs(visited@).to_set() =~= before.union(ds.take(di as int + 1).to_set()));
                        }
                    }
                    di = di + 1;
                }
                proof {
                    assert(ds.take(deps@.len() as int) =~= ds);
                    assert(fr.take(fi as int + 1) =~= fr.take(fi as int).push(y));
                    lemma_push_contains(fr.take(fi as int), y);
                    assert forall|x: Seq<char>| #[trigger] image(e, fr.take(fi as int + 1).to_set()).contains(x)
                        == (image(e, fr.take(fi as int).to_set()).contains(x) || ds.contains(x)) by {
                        if image(e, fr.take(fi as int + 1).to_set()).contains(x) {
                            let w = choose|w: Seq<char>| #[trigger] fr.take(fi as int + 1).to_set().contains(w) && e(w, x);
                            if w != y {
                                assert(fr.take(fi as int).to_set().contains(w));
                            }
                        }
                        if ds.contains(x) {
                            assert(fr.take(fi as int + 1).to_set().contains(y));
                            assert(e(y, x));
                        }
                        if image(e, fr.take(fi as int).to_set()).contains(x) {
                            let w = choose|w: Seq<char>| #[trigger] fr.take(fi as int).to_set().contains(w) && e(w, x);
                            assert(fr.take(fi as int + 1).to_set().contains(w));
                        }
                    }
                    assert(strs(visited@).to_set() =~= vis0.union(image(e, fr.take(fi as int + 1).to_set())));
                }
                fi = fi + 1;
            }
            proof {
                assert(fr.take(fr.len() as int) =~= fr);
                lemma_next_level(e, root, level as nat);
                assert(strs(visited@).to_set() =~= reach(e, root, (level + 1) as nat));
                assert(strs(next@).to_set() =~= layer(e, root, (level + 1) as nat));
                if next@.len() == 0 {
                    assert(strs(next@).to_set().len() == 0 || !strs(next@).to_set().contains(root));
                    assert forall|x: Seq<char>| reach(e, root, (level + 1) as nat).contains(x)
                        implies reach(e, root, level as nat).contains(x) by {
                        if !vis0.contains(x) {
                            assert(strs(next@).to_set().contains(x));
                        }
                    }
                    lemma_reach_mono(e, root, level as nat, (level + 1) as nat);
                    assert(reach(e, root, (level + 1) as nat) =~= reach(e, root, level as nat));
                }
            }
            frontier = next;
            level = level + 1;
        }
        proof {
            if level < g.max_depth {
                lemma_reach_stable(e, root, (level - 1) as nat, g.max_depth as nat);
            }
        }
        Ok(updates)
    }
}

/// The JSON form of a node.
pub open spec fn node_json_ok(n: EntityNode, j: EntityNodeJson) -> bool {
    &&& j.id == n.id
    &&& j.value == n.value
    &&& j.hash == n.hash
    &&& j.entity_type@ == kind_name(n.entity_type)
    &&& j.dependents@ == n.dependents@
    &&& j.dependencies@ == n.dependencies@
    &&& j.updated_at == n.updated_at
}

impl EntityNode {
    pub fn to_json(&self) -> (j: EntityNodeJson)
        ensures
            node_json_ok(*self, j),
    {
        EntityNodeJson {
            id: self.id.clone(),
            value: clone_opt(&self.value),
            hash: clone_opt(&self.hash),
            entity_type: self.entity_type.as_str().to_owned(),
            dependents: clone_strings(&self.dependents),
            dependencies: clone_strings(&self.dependencies),
            updated_at: self.updated_at,
        }
    }
}

impl EntityGraph {
    /// Every node in JSON form, keyed by its id, in node order.
    pub fn to_json_map(&self) -> (r: Vec<(String, EntityNodeJson)>)
        ensures
            r@.len() == self.nodes@.len(),
            forall|i: int|
                0 <= i < r@.len() ==> (#[trigger] r@[i]).0 == self.nodes@[i].id && node_json_ok(
                    self.nodes@[i],
                    r@[i].1,
                ),
    {
        let mut r: Vec<(String, EntityNodeJson)> = Vec::new();
        let mut i: usize = 0;
        while i < self.nodes.len()
            invariant
                i <= self.nodes@.len(),
                r@.len() == i,
                forall|k: int|
                    0 <= k < i ==> (#[trigger] r@[k]).0 == self.nodes@[k].id && node_json_ok(
                        self.nodes@[k],
                        r@[k].1,
                    ),
            decreases self.nodes@.len() - i,
        {
            r.push((self.nodes[i].id.clone(), self.nodes[i].to_json()));
            i = i + 1;
        }
        r
    }
}
} // verus!
