use vstd::prelude::*;
use crate::coherence::adapter::EntityAdapter;
use crate::coherence::graph::{EntityGraph, EntityNodeJson, Edges, image, strs, lemma_push_contains, opt_view, reach, layer, update_ids, propagation_ok, PropagatedUpdate, clone_opt};
use crate::coherence::manifest::{Manifest, ManifestEntry};
use crate::hashing::{compute_hash, content_hash};
use crate::text::str_eq;

verus! {

pub struct PropagateEditRequest {
    pub file_path: String,
    pub entity_id: String,
    pub new_value: String,
    pub dependents: Vec<String>,
}

pub struct ConsistencyCheckRequest {
    pub file_path: String,
}

pub struct EntityGraphRequest {
    pub file_path: String,
}

#[derive(Debug)]
pub struct PropagatedUpdateJson {
    pub entity_id: String,
    pub old_value: Option<String>,
    pub new_value: Option<String>,
    pub depth: usize,
}

#[derive(Debug)]
pub struct StaleEntityInfo {
    pub entity_id: String,
    pub manifest_hash: String,
    pub current_hash: String,
    pub manifest_value: String,
}

#[derive(Debug)]
pub struct PropagateEditResponse {
    pub status: String,
    pub updates: Vec<PropagatedUpdateJson>,
    pub entity_graph: Vec<(String, EntityNodeJson)>,
}

#[derive(Debug)]
pub struct ConsistencyCheckResponse {
    pub status: String,
    pub stale_entities: Vec<StaleEntityInfo>,
    pub total_entities: usize,
}

#[derive(Debug)]
pub struct EntityGraphResponse {
    pub file_path: String,
    pub has_manifest: bool,
    pub entities: Vec<EntityNodeJson>,
    pub total_dependents: usize,
}

/// The dependency links of the graph rebuilt from a manifest when
/// `root` is edited with the given new dependents: the links the manifest
/// records for its own entities, and links from `root` to each new
/// dependent.
pub open spec fn manifest_edges(m: Manifest, root: Seq<char>, deps: Seq<Seq<char>>) -> Edges {
    |y: Seq<char>, x: Seq<char>|
        (m.has_entity(y) && m.dep_list(y).contains(x)) || (y == root && deps.contains(x))
}

/// The value an entity holds in that rebuilt graph before the edit.
pub open spec fn rebuilt_value(m: Manifest, root: Seq<char>, new_value: Seq<char>, id: Seq<char>) -> Option<Seq<char>> {
    if m.has_entity(id) {
        Some(m.lookup(id).unwrap().value@)
    } else if id == root {
        Some(new_value)
    } else {
        None
    }
}

pub open spec fn opt_hash(v: Option<Seq<char>>) -> Option<Seq<char>> {
    match v {
        Some(s) => Some(content_hash(s)),
        None => None,
    }
}

/// What `build_graph` yields.
pub open spec fn rebuilt(g: EntityGraph, m: Manifest, root: Seq<char>, new_value: Seq<char>, deps: Seq<Seq<char>>) -> bool {
    &&& g.wf()
    &&& g.max_depth == 3
    &&& forall|id: Seq<char>| #[trigger] g.has(id) == (m.has_entity(id) || id == root || deps.contains(id))
    &&& forall|y: Seq<char>, x: Seq<char>|
        #[trigger] g.deps_of(y).contains(x) == (manifest_edges(m, root, deps))(y, x)
    &&& forall|id: Seq<char>| #[trigger] g.value_of(id) == rebuilt_value(m, root, new_value, id)
    &&& forall|id: Seq<char>| #[trigger] g.hash_of(id) == opt_hash(rebuilt_value(m, root, new_value, id))
}

pub struct CoherenceEngine;

impl CoherenceEngine {
    /// Rebuilds the entity graph from a manifest: every recorded entity
    /// with its value, the recorded dependency links, the edited entity,
    /// and the new dependents linked to it.
    pub fn build_graph(manifest: &Manifest, entity_id: &str, new_value: &str, dependents: &Vec<String>) -> (g: EntityGraph)
        requires
            manifest.wf(),
        ensures
            rebuilt(g, *manifest, entity_id@, new_value@, strs(dependents@)),
    {
        let ghost m = *manifest;
        let ghost root = entity_id@;
        let ghost ds = strs(dependents@);
        let mut graph = EntityGraph::new();
        let mut i: usize = 0;
        while i < manifest.entities.len()
            invariant
                m == *manifest,
                m.wf(),
                graph.wf(),
                graph.max_depth == 3,
                i <= m.entities@.len(),
                forall|id: Seq<char>| #[trigger] graph.has(id) == m.keys().take(i as int).contains(id),
                forall|y: Seq<char>, x: Seq<char>| !(#[trigger] graph.deps_of(y).contains(x)),
                forall|id: Seq<char>| graph.has(id) ==> #[trigger] graph.value_of(id) == Some(
                    m.lookup(id).unwrap().value@,
                ) && graph.hash_of(id) == Some(content_hash(m.lookup(id).unwrap().value@)),
                forall|id: Seq<char>| !graph.has(id) ==> #[trigger] graph.value_of(id) is None
                    && graph.hash_of(id) is None,
            decreases m.entities@.len() - i,
        {
            let key = &manifest.entities[i].0;
            let kind = EntityAdapter::entity_type_from_id(key.as_str());
            let ghost g0 = graph;
            proof {
                m.lemma_entity_pos(i as int);
                assert(m.keys().take(i as int + 1) =~= m.keys().take(i as int).push(key@));
                lemma_push_contains(m.keys().take(i as int), key@);
                if m.keys().take(i as int).contains(key@) {
                    let k = choose|k: int| 0 <= k < i && m.keys().take(i as int)[k] == key@;
                    assert(m.keys()[k] == m.keys()[i as int]);
                }
            }
            graph.add_entity(key.as_str(), Some(manifest.entities[i].1.value.as_str()), kind);
            i = i + 1;
        }
        proof {
            assert(m.keys().take(m.entities@.len() as int) =~= m.keys());
            assert forall|id: Seq<char>| #[trigger] graph.has(id) == m.has_entity(id) by {
                if m.has_entity(id) {
                    let k = choose|k: int| 0 <= k < m.entities@.len() && #[trigger] m.entities@[k].0@ == id;
                    assert(m.keys()[k] == id);
                }
                if m.keys().contains(id) {
                    let k = choose|k: int| 0 <= k < m.keys().len() && m.keys()[k] == id;
                    assert(m.entities@[k].0@ == id);
                }
            }
        }
        let mut k: usize = 0;
        while k < manifest.dependents.len()
            invariant
                m == *manifest,
                m.wf(),
                graph.wf(),
                graph.max_depth == 3,
                k <= m.dependents@.len(),
                forall|id: Seq<char>| #[trigger] graph.has(id) == m.has_entity(id),
                forall|y: Seq<char>, x: Seq<char>|
                    #[trigger] graph.deps_of(y).contains(x) == (exists|kk: int|
                        0 <= kk < k && #[trigger] m.dependents@[kk].0@ == y && m.has_entity(y) && strs(
                            m.dependents@[kk].1@,
                        ).contains(x)),
                forall|id: Seq<char>| graph.has(id) ==> #[trigger] graph.value_of(id) == Some(
                    m.lookup(id).unwrap().value@,
                ) && graph.hash_of(id) == Some(content_hash(m.lookup(id).unwrap().value@)),
                forall|id: Seq<char>| !graph.has(id) ==> #[trigger] graph.value_of(id) is None
                    && graph.hash_of(id) is None,
            decreases m.dependents@.len() - k,
        {
            let parent = &manifest.dependents[k].0;
            let list = &manifest.dependents[k].1;
            let ghost ks = k as int;
            let mut d: usize = 0;
            while d < list.len()
                invariant
                    m == *manifest,
                    m.wf(),
                    graph.wf(),
                    graph.max_depth == 3,
                    ks == k,
                    k < m.dependents@.len(),
                    parent == &m.dependents@[ks].0,
                    list == &m.dependents@[ks].1,
                    d <= list@.len(),
                    forall|id: Seq<char>| #[trigger] graph.has(id) == m.has_entity(id),
                    forall|y: Seq<char>, x: Seq<char>|
                        #[trigger] graph.deps_of(y).contains(x) == ((exists|kk: int|
                            0 <= kk < ks && #[trigger] m.dependents@[kk].0@ == y && m.has_entity(y)
                                && strs(m.dependents@[kk].1@).contains(x)) || (y == parent@
                            && m.has_entity(y) && strs(list@).take(d as int).contains(x))),
                    forall|id: Seq<char>| graph.has(id) ==> #[trigger] graph.value_of(id) == Some(
                        m.lookup(id).unwrap().value@,
                    ) && graph.hash_of(id) == Some(content_hash(m.lookup(id).unwrap().value@)),
                    forall|id: Seq<char>| !graph.has(id) ==> #[trigger] graph.value_of(id) is None
                        && graph.hash_of(id) is None,
                decreases list@.len() - d,
            {
                let ghost g0 = graph;
                graph.add_dependency(list[d].as_str(), parent.as_str());
                proof {
                    let x0 = list@[d as int]@;
                    assert(strs(list@).take(d as int + 1) =~= strs(list@).take(d as int).push(x0));
                    lemma_push_contains(strs(list@).take(d as int), x0);
                }
                d = d + 1;
            }
            proof {
                assert(strs(list@).take(list@.len() as int) =~= strs(list@));
                assert forall|y: Seq<char>, x: Seq<char>|
                    #[trigger] graph.deps_of(y).contains(x) == (exists|kk: int|
                        0 <= kk < k + 1 && #[trigger] m.dependents@[kk].0@ == y && m.has_entity(y) && strs(
                            m.dependents@[kk].1@,
                        ).contains(x)) by {
                    if y == parent@ && m.has_entity(y) && strs(list@).contains(x) {
                        assert(m.dependents@[ks].0@ == y);
                    }
                }
            }
            k = k + 1;
        }
        proof {
            assert forall|y: Seq<char>, x: Seq<char>|
                #[trigger] graph.deps_of(y).contains(x) == (m.has_entity(y) && m.dep_list(y).contains(x)) by {
                if graph.deps_of(y).contains(x) {
                    let kk = choose|kk: int|
                        0 <= kk < m.dependents@.len() && #[trigger] m.dependents@[kk].0@ == y && m.has_entity(y)
                            && strs(m.dependents@[kk].1@).contains(x);
                    m.lemma_deps_pos(kk);
                }
                if m.has_entity(y) && m.dep_list(y).contains(x) {
                    let kk = m.deps_pos(y);
                    assert(m.dependents@[kk].0@ == y);
                }
            }
        }
        let root_kind = EntityAdapter::entity_type_from_id(entity_id);
        let ghost gb = graph;
        graph.add_entity(entity_id, Some(new_value), root_kind);
        proof {
            assert forall|id: Seq<char>| #[trigger] graph.hash_of(id) == opt_hash(rebuilt_value(m, root, new_value@, id)) by {
                if gb.has(id) {
                    assert(gb.value_of(id) == Some(m.lookup(id).unwrap().value@));
                } else {
                    assert(gb.value_of(id) is None);
                }
            }
        }
        let mut j: usize = 0;
        while j < dependents.len()
            invariant
                m == *manifest,
                m.wf(),
                root == entity_id@,
                ds == strs(dependents@),
                graph.wf(),
                graph.max_depth == 3,
                j <= dependents@.len(),
                forall|id: Seq<char>| #[trigger] graph.has(id) == (m.has_entity(id) || id == root || ds.take(j as int).contains(id)),
                forall|y: Seq<char>, x: Seq<char>|
                    #[trigger] graph.deps_of(y).contains(x) == ((m.has_entity(y) && m.dep_list(y).contains(x))
                        || (y == root && ds.take(j as int).contains(x))),
                forall|id: Seq<char>| #[trigger] graph.value_of(id) == rebuilt_value(m, root, new_value@, id),
                forall|id: Seq<char>| #[trigger] graph.hash_of(id) == opt_hash(rebuilt_value(m, root, new_value@, id)),
            decreases dependents@.len() - j,
        {
            let dep = dependents[j].as_str();
            let kind = EntityAdapter::entity_type_from_id(dep);
            let ghost gb = graph;
            graph.add_entity(dep, None, kind);
            let ghost gm = graph;
            graph.add_dependency(dep, entity_id);
            proof {
                assert forall|id: Seq<char>| #[trigger] graph.hash_of(id) == opt_hash(rebuilt_value(m, root, new_value@, id)) by {
                    assert(gb.hash_of(id) == opt_hash(rebuilt_value(m, root, new_value@, id)));
                    assert(gm.hash_of(id) == graph.hash_of(id));
                    if id == dep@ && !gb.has(id) {
                        assert(gb.value_of(id) == rebuilt_value(m, root, new_value@, id));
                    }
                }
                assert(ds.take(j as int + 1) =~= ds.take(j as int).push(dep@));
                lemma_push_contains(ds.take(j as int), dep@);
            }
            j = j + 1;
        }
        proof {
            assert(ds.take(dependents@.len() as int) =~= ds);
        }
        graph
    }
}


pub open spec fn json_ids(js: Seq<PropagatedUpdateJson>) -> Seq<Seq<char>> {
    js.map_values(|u: PropagatedUpdateJson| u.entity_id@)
}

/// The updates that `propagate` reports for manifest `m`, edited entity
/// `root`, new value `nv` and new dependents `deps`: the edited entity
/// first, then each entity reachable within three links of the rebuilt
/// graph, once, in order of distance.
pub open spec fn engine_updates_ok(
    m: Manifest,
    root: Seq<char>,
    nv: Seq<char>,
    deps: Seq<Seq<char>>,
    js: Seq<PropagatedUpdateJson>,
) -> bool {
    let e = manifest_edges(m, root, deps);
    &&& js.len() >= 1
    &&& js[0].entity_id@ == root
    &&& opt_view(js[0].new_value) == Some(nv)
    &&& opt_view(js[0].old_value) == rebuilt_value(m, root, nv, root)
    &&& js[0].depth == 0
    &&& forall|i: int|
        1 <= i < js.len() ==> {
            &&& (#[trigger] js[i]).new_value is None
            &&& 1 <= js[i].depth <= 3
            &&& opt_view(js[i].old_value) == rebuilt_value(m, root, nv, js[i].entity_id@)
        }
    &&& forall|i: int|
        0 <= i < js.len() ==> layer(e, root, (#[trigger] js[i]).depth as nat).contains(js[i].entity_id@)
    &&& forall|i: int, j: int| 0 <= i <= j < js.len() ==> js[i].depth <= js[j].depth
    &&& json_ids(js).no_duplicates()
    &&& json_ids(js).to_set() == reach(e, root, 3)
}

/// The manifest `m2` that `propagate` leaves: the edited entity holds the
/// new value, entities recorded before keep their entries, reported
/// entities that were not recorded get the empty value, and the new
/// dependents are appended to the edited entity's dependents.
pub open spec fn propagated_manifest(
    m: Manifest,
    root: Seq<char>,
    nv: Seq<char>,
    deps: Seq<Seq<char>>,
    ids: Seq<Seq<char>>,
    m2: Manifest,
) -> bool {
    &&& m2.wf()
    &&& m2.version == m.version
    &&& m2.file == m.file
    &&& m2.lookup(root) matches Some(en) && en.value@ == nv && en.hash@ == content_hash(nv)
    &&& forall|x: Seq<char>| x != root && m.has_entity(x) ==> #[trigger] m2.lookup(x) == m.lookup(x)
    &&& forall|x: Seq<char>|
        x != root && !m.has_entity(x) && ids.contains(x) ==> (#[trigger] m2.lookup(x) matches Some(en)
            && en.value@ == Seq::<char>::empty() && en.hash@ == content_hash(Seq::<char>::empty()))
    &&& forall|x: Seq<char>| x != root && !m.has_entity(x) && !ids.contains(x) ==> #[trigger] m2.lookup(x) is None
    &&& m2.dep_list(root) == m.dep_list(root) + deps
    &&& forall|x: Seq<char>| x != root ==> #[trigger] m2.dep_list(x) == m.dep_list(x)
}

/// The JSON graph that `propagate` reports: one node per entity of the
/// rebuilt graph, holding its value after the edit.
pub open spec fn engine_graph_ok(
    m: Manifest,
    root: Seq<char>,
    nv: Seq<char>,
    deps: Seq<Seq<char>>,
    eg: Seq<(String, EntityNodeJson)>,
) -> bool {
    let keys = eg.map_values(|p: (String, EntityNodeJson)| p.0@);
    &&& keys.no_duplicates()
    &&& forall|id: Seq<char>| #[trigger] keys.contains(id) == (m.has_entity(id) || id == root || deps.contains(id))
    &&& forall|i: int|
        0 <= i < eg.len() ==> {
            &&& (#[trigger] eg[i]).1.id == eg[i].0
            &&& opt_view(eg[i].1.value) == (if eg[i].0@ == root {
                Some(nv)
            } else {
                rebuilt_value(m, root, nv, eg[i].0@)
            })
        }
}

/// Law: propagating an edit with no manifest recorded yet, to `k` distinct
/// new dependents other than the edited entity, reports `k + 1` updates (the
/// edited entity, then every dependent at distance one) and a graph of
/// `k + 1` entities.
pub proof fn lemma_fresh_cascade(
    m: Manifest,
    root: Seq<char>,
    nv: Seq<char>,
    deps: Seq<Seq<char>>,
    m2: Manifest,
    resp: PropagateEditResponse,
)
    requires
        m.wf(),
        m.entities@.len() == 0,
        m.dependents@.len() == 0,
        deps.no_duplicates(),
        !deps.contains(root),
        propagation_result(m, root, nv, deps, m2, resp),
    ensures
        resp.status@ == "propagated"@,
        resp.updates@.len() == deps.len() + 1,
        resp.entity_graph@.len() == deps.len() + 1,
        forall|i: int| 1 <= i < resp.updates@.len() ==> (#[trigger] resp.updates@[i]).depth == 1,
{
    let e = manifest_edges(m, root, deps);
    let s = deps.to_set().insert(root);
    assert forall|y: Seq<char>| !m.has_entity(y) by {}
    let r1 = reach(e, root, 1);
    assert(r1 =~= s) by {
        assert(reach(e, root, 0) =~= set![root]);
        assert forall|x: Seq<char>| image(e, set![root]).contains(x) == deps.contains(x) by {
            if deps.contains(x) {
                assert(set![root].contains(root) && e(root, x));
            }
        }
    }
    assert(image(e, s) =~= deps.to_set()) by {
        assert forall|x: Seq<char>| image(e, s).contains(x) == deps.contains(x) by {
            if deps.contains(x) {
                assert(s.contains(root) && e(root, x));
            }
        }
    }
    assert(reach(e, root, 2) =~= s);
    assert(reach(e, root, 3) =~= s);
    deps.unique_seq_to_set();
    assert(!deps.to_set().contains(root));
    assert(s.len() == deps.len() + 1);
    let js = resp.updates@;
    json_ids(js).unique_seq_to_set();
    assert(json_ids(js).len() == js.len());
    assert forall|i: int| 1 <= i < js.len() implies (#[trigger] js[i]).depth == 1 by {
        let d = js[i].depth as nat;
        assert(layer(e, root, d).contains(js[i].entity_id@));
        if d >= 2 {
            assert(reach(e, root, (d - 1) as nat) =~= s);
            assert(reach(e, root, d) =~= s);
        }
    }
    let eg = resp.entity_graph@;
    let keys = eg.map_values(|p: (String, EntityNodeJson)| p.0@);
    assert(keys.to_set() =~= s) by {
        assert forall|id: Seq<char>| keys.to_set().contains(id) == s.contains(id) by {
            assert(keys.contains(id) == (m.has_entity(id) || id == root || deps.contains(id)));
        }
    }
    keys.unique_seq_to_set();
}

/// Law: propagating an edit keeps a consistent manifest consistent (every
/// recorded hash remains the hash of its recorded value).
pub proof fn lemma_propagate_keeps_consistency(
    m: Manifest,
    root: Seq<char>,
    nv: Seq<char>,
    deps: Seq<Seq<char>>,
    ids: Seq<Seq<char>>,
    m2: Manifest,
)
    requires
        m.wf(),
        m.consistent(),
        propagated_manifest(m, root, nv, deps, ids, m2),
    ensures
        m2.consistent(),
{
    assert forall|k: int| 0 <= k < m2.entities@.len() implies (#[trigger] m2.entities@[k]).1.hash@
        == content_hash(m2.entities@[k].1.value@) by {
        let x = m2.entities@[k].0@;
        m2.lemma_entity_pos(k);
        assert(m2.lookup(x) == Some(m2.entities@[k].1));
        if x != root && m.has_entity(x) {
            let p = m.entity_pos(x);
            assert(m.entities@[p].0@ == x);
            assert(m.entities@[p].1.hash@ == content_hash(m.entities@[p].1.value@));
        }
    }
}

/// Everything `propagate` promises for a starting manifest `m`.
pub open spec fn propagation_result(
    m: Manifest,
    root: Seq<char>,
    nv: Seq<char>,
    deps: Seq<Seq<char>>,
    m2: Manifest,
    resp: PropagateEditResponse,
) -> bool {
    &&& resp.status@ == "propagated"@
    &&& engine_updates_ok(m, root, nv, deps, resp.updates@)
    &&& propagated_manifest(m, root, nv, deps, json_ids(resp.updates@), m2)
    &&& engine_graph_ok(m, root, nv, deps, resp.entity_graph@)
}

impl CoherenceEngine {
    /// Propagates an edit of `entity_id` through the entity graph rebuilt
    /// from `manifest`, records the result in the manifest and returns it
    /// with the report.
    pub fn propagate_in(
        manifest: Manifest,
        entity_id: &str,
        new_value: &str,
        dependents: &Vec<String>,
    ) -> (r: (Manifest, PropagateEditResponse))
        requires
            manifest.wf(),
        ensures
            propagation_result(manifest, entity_id@, new_value@, strs(dependents@), r.0, r.1),
    {
        let mut manifest = manifest;
        let ghost m0 = manifest;
        let ghost root = entity_id@;
        let ghost nv = new_value@;
        let ghost ds = strs(dependents@);
        let mut graph = CoherenceEngine::build_graph(&manifest, entity_id, new_value, dependents);
        let ghost g0 = graph;
        let updates = match graph.propagate_edit(entity_id, new_value) {
            Ok(u) => u,
            Err(_) => Vec::new(),
        };
        proof {
            assert(g0.edges() =~= manifest_edges(m0, root, ds));
        }
        manifest.update_entity(entity_id, new_value);
        let mut i: usize = 0;
        while i < updates.len()
            invariant
                m0.wf(),
                root == entity_id@,
                nv == new_value@,
                manifest.wf(),
                manifest.version == m0.version,
                manifest.file == m0.file,
                manifest.dependents == m0.dependents,
                i <= updates@.len(),
                propagation_ok(g0, root, nv, updates@),
                forall|id: Seq<char>| #[trigger] g0.value_of(id) == rebuilt_value(m0, root, nv, id),
                manifest.lookup(root) matches Some(en) && en.value@ == nv && en.hash@ == content_hash(nv),
                forall|x: Seq<char>| x != root && m0.has_entity(x) ==> #[trigger] manifest.lookup(x) == m0.lookup(x),
                forall|x: Seq<char>|
                    x != root && !m0.has_entity(x) && update_ids(updates@).take(i as int).contains(x) ==> (
                    #[trigger] manifest.lookup(x) matches Some(en) && en.value@ == Seq::<char>::empty()
                        && en.hash@ == content_hash(Seq::<char>::empty())),
                forall|x: Seq<char>|
                    x != root && !m0.has_entity(x) && !update_ids(updates@).take(i as int).contains(x)
                        ==> #[trigger] manifest.lookup(x) is None,
            decreases updates@.len() - i,
        {
            let uid = updates[i].entity_id.as_str();
            let ghost x0 = uid@;
            proof {
                assert(update_ids(updates@).take(i as int + 1) =~= update_ids(updates@).take(i as int).push(x0));
                lemma_push_contains(update_ids(updates@).take(i as int), x0);
            }
            if !str_eq(uid, entity_id) {
                proof {
                    if i == 0 {
                        assert(updates@[0].entity_id@ == root);
                    }
                    assert(updates@[i as int].new_value is None);
                }
                match &updates[i].new_value {
                    Some(v) => {
                        manifest.update_entity(uid, v.as_str());
                    },
                    None => {
                        let ghost mb = manifest;
                        manifest.ensure_entity(uid);
                        proof {
                            if m0.has_entity(x0) {
                                assert(mb.lookup(x0) == m0.lookup(x0));
                                assert(mb.has_entity(x0));
                            }
                            if !m0.has_entity(x0) && update_ids(updates@).take(i as int).contains(x0) {
                                assert(mb.lookup(x0) is Some);
                                assert(mb.has_entity(x0));
                            }
                        }
                    },
                }
            }
            i = i + 1;
        }
        proof {
            assert(update_ids(updates@).take(updates@.len() as int) =~= update_ids(updates@));
        }
        let ghost m1 = manifest;
        let mut j: usize = 0;
        proof {
            assert(ds.take(0) =~= Seq::<Seq<char>>::empty());
            assert(m0.dep_list(root) + ds.take(0) =~= m0.dep_list(root));
        }
        while j < dependents.len()
            invariant
                m0.wf(),
                root == entity_id@,
                ds == strs(dependents@),
                manifest.wf(),
                manifest.version == m0.version,
                manifest.file == m0.file,
                manifest.entities == m1.entities,
                j <= dependents@.len(),
                manifest.dep_list(root) == m0.dep_list(root) + ds.take(j as int),
                forall|x: Seq<char>| x != root ==> #[trigger] manifest.dep_list(x) == m0.dep_list(x),
            decreases dependents@.len() - j,
        {
            manifest.add_dependency(dependents[j].as_str(), entity_id);
            proof {
                assert(ds.take(j as int + 1) =~= ds.take(j as int).push(ds[j as int]));
                assert(m0.dep_list(root) + ds.take(j as int + 1) =~= (m0.dep_list(root) + ds.take(j as int)).push(ds[j as int]));
            }
            j = j + 1;
        }
        proof {
            assert(ds.take(dependents@.len() as int) =~= ds);
            assert forall|x: Seq<char>| #[trigger] manifest.lookup(x) == m1.lookup(x) by {}
        }
        let mut ups_json: Vec<PropagatedUpdateJson> = Vec::new();
        let mut k: usize = 0;
        while k < updates.len()
            invariant
                k <= updates@.len(),
                ups_json@.len() == k,
                forall|q: int|
                    0 <= q < k ==> {
                        &&& (#[trigger] ups_json@[q]).entity_id == updates@[q].entity_id
                        &&& ups_json@[q].old_value == updates@[q].old_value
                        &&& ups_json@[q].new_value == updates@[q].new_value
                        &&& ups_json@[q].depth == updates@[q].depth
                    },
            decreases updates@.len() - k,
        {
            ups_json.push(PropagatedUpdateJson {
                entity_id: updates[k].entity_id.clone(),
                old_value: clone_opt(&updates[k].old_value),
                new_value: clone_opt(&updates[k].new_value),
                depth: updates[k].depth,
            });
            k = k + 1;
        }
        let entity_graph = graph.to_json_map();
        proof {
            assert(json_ids(ups_json@) =~= update_ids(updates@));
            let keys = entity_graph@.map_values(|p: (String, EntityNodeJson)| p.0@);
            assert(keys =~= graph.ids());
            assert forall|id: Seq<char>| #[trigger] keys.contains(id) == (m0.has_entity(id) || id == root || ds.contains(id)) by {
                if keys.contains(id) {
                    let q = choose|q: int| 0 <= q < keys.len() && keys[q] == id;
                    assert(graph.nodes@[q].id@ == id);
                    assert(graph.has(id));
                    assert(g0.nodes@[q].id == graph.nodes@[q].id);
                    assert(g0.has(id));
                }
                if m0.has_entity(id) || id == root || ds.contains(id) {
                    assert(g0.has(id));
                    let q = g0.pos(id);
                    assert(g0.nodes@[q].id == graph.nodes@[q].id);
                    assert(keys[q] == id);
                }
            }
            assert forall|q: int| 0 <= q < entity_graph@.len() implies {
                &&& (#[trigger] entity_graph@[q]).1.id == entity_graph@[q].0
                &&& opt_view(entity_graph@[q].1.value) == (if entity_graph@[q].0@ == root {
                    Some(nv)
                } else {
                    rebuilt_value(m0, root, nv, entity_graph@[q].0@)
                })
            } by {
                let id = entity_graph@[q].0@;
                assert(g0.nodes@[q].id == graph.nodes@[q].id);
                g0.lemma_pos(q);
                assert(g0.value_of(id) == opt_view(g0.nodes@[q].value));
            }
        }
        let response = PropagateEditResponse {
            status: "propagated".to_owned(),
            updates: ups_json,
            entity_graph,
        };
        (manifest, response)
    }

    /// `propagate_in` on the manifest found beside the document, or on a
    /// fresh one for `file_path` when there is none.
    pub fn propagate(
        file_path: &str,
        existing: Option<Manifest>,
        entity_id: &str,
        new_value: &str,
        dependents: &Vec<String>,
    ) -> (r: (Manifest, PropagateEditResponse))
        requires
            existing matches Some(m) ==> m.wf(),
        ensures
            existing matches Some(m) ==> propagation_result(m, entity_id@, new_value@, strs(dependents@), r.0, r.1),
            existing is None ==> exists|m: Manifest|
                #![trigger m.wf()]
                m.wf() && m.entities@.len() == 0 && m.dependents@.len() == 0 && m.version@ == "1.0"@
                    && m.file@ == file_path@ && propagation_result(m, entity_id@, new_value@, strs(dependents@), r.0, r.1),
    {
        let manifest = match existing {
            Some(m) => m,
            None => Manifest::new(file_path),
        };
        let ghost m0 = manifest;
        let r = CoherenceEngine::propagate_in(manifest, entity_id, new_value, dependents);
        proof {
            if existing is None {
                assert(m0.wf());
            }
        }
        r
    }
}


/// Ids (in order) of the entries whose recorded hash is not the hash of
/// their recorded value.
pub open spec fn stale_ids(es: Seq<(String, ManifestEntry)>) -> Seq<Seq<char>>
    decreases es.len(),
{
    if es.len() == 0 {
        Seq::empty()
    } else {
        let rest = stale_ids(es.drop_last());
        if es.last().1.hash@ != content_hash(es.last().1.value@) {
            rest.push(es.last().0@)
        } else {
            rest
        }
    }
}

/// The stale entries, in order: id, recorded hash and recorded value.
pub open spec fn stale_entries(es: Seq<(String, ManifestEntry)>) -> Seq<(Seq<char>, Seq<char>, Seq<char>)>
    decreases es.len(),
{
    if es.len() == 0 {
        Seq::empty()
    } else {
        let rest = stale_entries(es.drop_last());
        if es.last().1.hash@ != content_hash(es.last().1.value@) {
            rest.push((es.last().0@, es.last().1.hash@, es.last().1.value@))
        } else {
            rest
        }
    }
}

/// A stale report as (id, recorded hash, recorded value).
pub open spec fn stale_info_view(v: Seq<StaleEntityInfo>) -> Seq<(Seq<char>, Seq<char>, Seq<char>)> {
    v.map_values(|s: StaleEntityInfo| (s.entity_id@, s.manifest_hash@, s.manifest_value@))
}

pub open spec fn stale_info_ids(v: Seq<StaleEntityInfo>) -> Seq<Seq<char>> {
    v.map_values(|s: StaleEntityInfo| s.entity_id@)
}

pub proof fn lemma_stale_ids_empty(es: Seq<(String, ManifestEntry)>)
    ensures
        (stale_ids(es).len() == 0) == (forall|i: int|
            0 <= i < es.len() ==> (#[trigger] es[i]).1.hash@ == content_hash(es[i].1.value@)),
    decreases es.len(),
{
    if es.len() > 0 {
        lemma_stale_ids_empty(es.drop_last());
        assert forall|i: int| 0 <= i < es.len() - 1 implies es.drop_last()[i] == es[i] by {}
        if stale_ids(es.drop_last()).len() != 0 {
            let i = choose|i: int| 0 <= i < es.drop_last().len() && !((#[trigger] es.drop_last()[i]).1.hash@
                == content_hash(es.drop_last()[i].1.value@));
            assert(es[i] == es.drop_last()[i]);
        }
    }
}

/// The ids recorded in the dependents lists as depending on `id` lead back
/// to the entity that lists them: each occurrence of `id` in the list of
/// `p` contributes `p`.
pub open spec fn parents_in_list(p: Seq<char>, list: Seq<Seq<char>>, id: Seq<char>) -> Seq<Seq<char>>
    decreases list.len(),
{
    if list.len() == 0 {
        Seq::empty()
    } else if list.last() == id {
        parents_in_list(p, list.drop_last(), id).push(p)
    } else {
        parents_in_list(p, list.drop_last(), id)
    }
}

pub open spec fn parents_of(ds: Seq<(String, Vec<String>)>, id: Seq<char>) -> Seq<Seq<char>>
    decreases ds.len(),
{
    if ds.len() == 0 {
        Seq::empty()
    } else {
        parents_of(ds.drop_last(), id) + parents_in_list(ds.last().0@, strs(ds.last().1@), id)
    }
}

/// Sum of the lengths of the dependents lists of the entities.
pub open spec fn dependents_total(m: Manifest, n: int) -> int
    decreases n,
{
    if n <= 0 {
        0
    } else {
        dependents_total(m, n - 1) + m.dep_list(m.entities@[n - 1].0@).len()
    }
}

impl CoherenceEngine {
    /// Compares every recorded hash with the hash of the recorded value and
    /// reports each mismatch, in order, with its recorded hash and value and
    /// the hash of that value.  Without a manifest the status is
    /// `no_manifest`.
    pub fn check_consistency(manifest: Option<&Manifest>) -> (r: ConsistencyCheckResponse)
        ensures
            manifest is None ==> r.status@ == "no_manifest"@ && r.stale_entities@.len() == 0
                && r.total_entities == 0,
            manifest matches Some(m) ==> {
                &&& stale_info_ids(r.stale_entities@) == stale_ids(m.entities@)
                &&& stale_info_view(r.stale_entities@) == stale_entries(m.entities@)
                &&& r.total_entities == m.entities@.len()
                &&& r.status@ == (if m.consistent() { "consistent"@ } else { "stale"@ })
                &&& forall|i: int|
                    0 <= i < r.stale_entities@.len() ==> (#[trigger] r.stale_entities@[i]).current_hash@
                        == content_hash(r.stale_entities@[i].manifest_value@)
                        && r.stale_entities@[i].manifest_hash@ != r.stale_entities@[i].current_hash@
            },
    {
        match manifest {
            None => ConsistencyCheckResponse {
                status: "no_manifest".to_owned(),
                stale_entities: Vec::new(),
                total_entities: 0,
            },
            Some(m) => {
                let mut stale: Vec<StaleEntityInfo> = Vec::new();
                let mut i: usize = 0;
                while i < m.entities.len()
                    invariant
                        i <= m.entities@.len(),
                        stale_info_ids(stale@) == stale_ids(m.entities@.take(i as int)),
                        stale_info_view(stale@) == stale_entries(m.entities@.take(i as int)),
                        forall|q: int|
                            0 <= q < stale@.len() ==> (#[trigger] stale@[q]).current_hash@ == content_hash(
                                stale@[q].manifest_value@,
                            ) && stale@[q].manifest_hash@ != stale@[q].current_hash@,
                    decreases m.entities@.len() - i,
                {
                    let entry = &m.entities[i].1;
                    let current = compute_hash(entry.value.as_str());
                    proof {
                        assert(m.entities@.take(i as int + 1).drop_last() =~= m.entities@.take(i as int));
                    }
                    if current != entry.hash {
                        stale.push(StaleEntityInfo {
                            entity_id: m.entities[i].0.clone(),
                            manifest_hash: entry.hash.clone(),
                            current_hash: current,
                            manifest_value: entry.value.clone(),
                        });
                        proof {
                            assert(stale_info_ids(stale@) =~= stale_ids(m.entities@.take(i as int)).push(m.entities@[i as int].0@));
                            assert(stale_info_view(stale@) =~= stale_entries(m.entities@.take(i as int)).push(
                                (m.entities@[i as int].0@, entry.hash@, entry.value@)));
                        }
                    }
                    i = i + 1;
                }
                proof {
                    assert(m.entities@.take(m.entities@.len() as int) =~= m.entities@);
                    lemma_stale_ids_empty(m.entities@);
                }
                let status = if stale.len() == 0 {
                    "consistent".to_owned()
                } else {
                    "stale".to_owned()
                };
                ConsistencyCheckResponse { status, stale_entities: stale, total_entities: m.entities.len() }
            },
        }
    }

    /// The entities recorded in the manifest with the links among them.
    fn parents_lookup(m: &Manifest, id: &str) -> (r: Vec<String>)
        ensures
            strs(r@) == parents_of(m.dependents@, id@),
    {
        let mut r: Vec<String> = Vec::new();
        let mut k: usize = 0;
        while k < m.dependents.len()
            invariant
                k <= m.dependents@.len(),
                strs(r@) == parents_of(m.dependents@.take(k as int), id@),
            decreases m.dependents@.len() - k,
        {
            let list = &m.dependents[k].1;
            let parent = &m.dependents[k].0;
            let ghost before = strs(r@);
            let mut d: usize = 0;
            proof {
                assert(strs(list@).take(0) =~= Seq::<Seq<char>>::empty());
                assert(before + parents_in_list(parent@, strs(list@).take(0), id@) =~= before);
            }
            while d < list.len()
                invariant
                    k < m.dependents@.len(),
                    d <= list@.len(),
                    list == &m.dependents@[k as int].1,
                    parent == &m.dependents@[k as int].0,
                    strs(r@) == before + parents_in_list(parent@, strs(list@).take(d as int), id@),
                decreases list@.len() - d,
            {
                let ghost t = strs(list@).take(d as int + 1);
                proof {
                    assert(t.drop_last() =~= strs(list@).take(d as int));
                    assert(t.last() == list@[d as int]@);
                }
                if str_eq(list[d].as_str(), id) {
                    let ghost r0 = strs(r@);
                    r.push(parent.clone());
                    proof {
                        assert(strs(r@) =~= r0.push(parent@));
                        assert(parents_in_list(parent@, t, id@) == parents_in_list(parent@, strs(list@).take(d as int), id@).push(parent@));
                        assert(strs(r@) =~= before + parents_in_list(parent@, t, id@));
                    }
                }
                d = d + 1;
            }
            proof {
                assert(strs(list@).take(list@.len() as int) =~= strs(list@));
                assert(m.dependents@.take(k as int + 1).drop_last() =~= m.dependents@.take(k as int));
                assert(m.dependents@.take(k as int + 1).last() == m.dependents@[k as int]);
            }
            k = k + 1;
        }
        proof {
            assert(m.dependents@.take(m.dependents@.len() as int) =~= m.dependents@);
        }
        r
    }

    /// Lists every recorded entity with its value, hash, type, dependents
    /// and dependencies; without a manifest the list is empty.
    pub fn get_entity_graph(file_path: &str, manifest: Option<&Manifest>) -> (r: EntityGraphResponse)
        requires
            manifest matches Some(m) ==> m.wf() && dependents_total(*m, m.entities@.len() as int) <= usize::MAX,
        ensures
            r.file_path@ == file_path@,
            r.has_manifest == manifest is Some,
            manifest is None ==> r.entities@.len() == 0 && r.total_dependents == 0,
            manifest matches Some(m) ==> {
                &&& r.entities@.len() == m.entities@.len()
                &&& r.total_dependents == dependents_total(*m, m.entities@.len() as int)
                &&& forall|i: int|
                    0 <= i < r.entities@.len() ==> {
                        let e = #[trigger] r.entities@[i];
                        let (id, entry) = m.entities@[i];
                        &&& e.id == id
                        &&& e.value == Some(entry.value)
                        &&& e.hash == Some(entry.hash)
                        &&& e.updated_at == Some(entry.updated_at)
                        &&& strs(e.dependents@) == m.dep_list(id@)
                        &&& strs(e.dependencies@) == parents_of(m.dependents@, id@)
                        &&& kind_for_name(id@, e.entity_type@)
                    }
            },
    {
        match manifest {
            None => EntityGraphResponse {
                file_path: file_path.to_owned(),
                has_manifest: false,
                entities: Vec::new(),
                total_dependents: 0,
            },
            Some(m) => {
                let mut items: Vec<EntityNodeJson> = Vec::new();
                let mut total: usize = 0;
                let mut i: usize = 0;
                while i < m.entities.len()
                    invariant
                        m.wf(),
                        dependents_total(*m, m.entities@.len() as int) <= usize::MAX,
                        i <= m.entities@.len(),
                        items@.len() == i,
                        total == dependents_total(*m, i as int),
                        forall|q: int|
                            0 <= q < i ==> {
                                let e = #[trigger] items@[q];
                                let (id, entry) = m.entities@[q];
                                &&& e.id == id
                                &&& e.value == Some(entry.value)
                                &&& e.hash == Some(entry.hash)
                                &&& e.updated_at == Some(entry.updated_at)
                                &&& strs(e.dependents@) == m.dep_list(id@)
                                &&& strs(e.dependencies@) == parents_of(m.dependents@, id@)
                                &&& kind_for_name(id@, e.entity_type@)
                            },
                    decreases m.entities@.len() - i,
                {
                    let id = &m.entities[i].0;
                    let entry = &m.entities[i].1;
                    let deps = m.dependents_of(id.as_str());
                    let parents = CoherenceEngine::parents_lookup(m, id.as_str());
                    let kind = EntityAdapter::entity_type_from_id(id.as_str());
                    proof {
                        lemma_dependents_total_mono(*m, i as int + 1, m.entities@.len() as int);
                    }
                    total = total + deps.len();
                    items.push(EntityNodeJson {
                        id: id.clone(),
                        value: Some(entry.value.clone()),
                        hash: Some(entry.hash.clone()),
                        entity_type: kind.as_str().to_owned(),
                        dependents: deps,
                        dependencies: parents,
                        updated_at: Some(entry.updated_at),
                    });
                    i = i + 1;
                }
                EntityGraphResponse {
                    file_path: file_path.to_owned(),
                    has_manifest: true,
                    entities: items,
                    total_dependents: total,
                }
            },
        }
    }
}

/// `name` is the reported type name of an entity with id `id`.
pub open spec fn kind_for_name(id: Seq<char>, name: Seq<char>) -> bool {
    exists|t: crate::coherence::graph::EntityType|
        crate::coherence::adapter::kind_for(crate::coherence::adapter::category_of(id), t)
            && crate::coherence::graph::kind_name(t) == name
}

pub proof fn lemma_dependents_total_mono(m: Manifest, a: int, b: int)
    requires
        0 <= a <= b,
    ensures
        dependents_total(m, a) <= dependents_total(m, b),
    decreases b - a,
{
    if a < b {
        lemma_dependents_total_mono(m, a, b - 1);
    }
}
} // verus!
