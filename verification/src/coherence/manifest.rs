use vstd::prelude::*;
use crate::coherence::graph::{strs, now_millis};
use crate::hashing::{compute_hash, content_hash};
use crate::text::{push_str, str_eq};

verus! {

#[derive(Debug)]
pub struct ManifestEntry {
    pub value: String,
    pub hash: String,
    pub updated_at: u64,
}

/// The record kept beside a document: each entity's value and hash, and for
/// each entity the ids that depend on it.  Keys occur at most once in each
/// list (see `wf`).
#[derive(Debug)]
pub struct Manifest {
    pub version: String,
    pub file: String,
    pub entities: Vec<(String, ManifestEntry)>,
    pub dependents: Vec<(String, Vec<String>)>,
}

impl ManifestEntry {
    pub fn duplicate(&self) -> (r: ManifestEntry)
        ensures
            r == *self,
    {
        ManifestEntry { value: self.value.clone(), hash: self.hash.clone(), updated_at: self.updated_at }
    }
}

impl Manifest {
    pub open spec fn keys(self) -> Seq<Seq<char>> {
        self.entities@.map_values(|p: (String, ManifestEntry)| p.0@)
    }

    pub open spec fn dep_keys(self) -> Seq<Seq<char>> {
        self.dependents@.map_values(|p: (String, Vec<String>)| p.0@)
    }

    pub open spec fn wf(self) -> bool {
        self.keys().no_duplicates() && self.dep_keys().no_duplicates()
    }

    pub open spec fn has_entity(self, id: Seq<char>) -> bool {
        exists|i: int| 0 <= i < self.entities@.len() && #[trigger] self.entities@[i].0@ == id
    }

    pub open spec fn entity_pos(self, id: Seq<char>) -> int {
        choose|i: int| 0 <= i < self.entities@.len() && #[trigger] self.entities@[i].0@ == id
    }

    /// The entry recorded for `id`.
    pub open spec fn lookup(self, id: Seq<char>) -> Option<ManifestEntry> {
        if self.has_entity(id) {
            Some(self.entities@[self.entity_pos(id)].1)
        } else {
            None
        }
    }

    pub open spec fn has_deps(self, id: Seq<char>) -> bool {
        exists|i: int| 0 <= i < self.dependents@.len() && #[trigger] self.dependents@[i].0@ == id
    }

    pub open spec fn deps_pos(self, id: Seq<char>) -> int {
        choose|i: int| 0 <= i < self.dependents@.len() && #[trigger] self.dependents@[i].0@ == id
    }

    /// The ids recorded as depending on `id`.
    pub open spec fn dep_list(self, id: Seq<char>) -> Seq<Seq<char>> {
        if self.has_deps(id) {
            strs(self.dependents@[self.deps_pos(id)].1@)
        } else {
            Seq::empty()
        }
    }

    /// Every recorded hash is the hash of the recorded value.
    pub open spec fn consistent(self) -> bool {
        forall|i: int|
            0 <= i < self.entities@.len() ==> (#[trigger] self.entities@[i]).1.hash@ == content_hash(
                self.entities@[i].1.value@,
            )
    }

    pub proof fn lemma_entity_pos(self, i: int)
        requires
            self.keys().no_duplicates(),
            0 <= i < self.entities@.len(),
        ensures
            self.has_entity(self.entities@[i].0@),
            self.entity_pos(self.entities@[i].0@) == i,
    {
        let id = self.entities@[i].0@;
        assert(self.entities@[i].0@ == id);
        let p = self.entity_pos(id);
        assert(self.keys()[p] == self.keys()[i]);
    }

    pub proof fn lemma_deps_pos(self, i: int)
        requires
            self.dep_keys().no_duplicates(),
            0 <= i < self.dependents@.len(),
        ensures
            self.has_deps(self.dependents@[i].0@),
            self.deps_pos(self.dependents@[i].0@) == i,
    {
        let id = self.dependents@[i].0@;
        assert(self.dependents@[i].0@ == id);
        let p = self.deps_pos(id);
        assert(self.dep_keys()[p] == self.dep_keys()[i]);
    }

    pub fn new(file_path: &str) -> (m: Manifest)
        ensures
            m.wf(),
            m.version@ == "1.0"@,
            m.file@ == file_path@,
            m.entities@.len() == 0,
            m.dependents@.len() == 0,
            m.consistent(),
    {
        Manifest {
            version: "1.0".to_owned(),
            file: file_path.to_owned(),
            entities: Vec::new(),
            dependents: Vec::new(),
        }
    }

    /// Where the manifest of `file_path` is stored.
    pub fn manifest_path(file_path: &str) -> (r: String)
        ensures
            r@ == file_path@ + ".coherence-map.json"@,
    {
        let mut r = String::new();
        push_str(&mut r, file_path);
        push_str(&mut r, ".coherence-map.json");
        proof {
            assert(r@ =~= file_path@ + ".coherence-map.json"@);
        }
        r
    }

    fn find_entity(&self, id: &str) -> (r: Option<usize>)
        requires
            self.keys().no_duplicates(),
        ensures
            match r {
                Some(i) => i < self.entities@.len() && self.entities@[i as int].0@ == id@
                    && self.has_entity(id@) && self.entity_pos(id@) == i,
                None => !self.has_entity(id@),
            },
    {
        let mut i: usize = 0;
        while i < self.entities.len()
            invariant
                self.keys().no_duplicates(),
                i <= self.entities@.len(),
                forall|j: int| 0 <= j < i ==> self.entities@[j].0@ != id@,
            decreases self.entities@.len() - i,
        {
            if str_eq(self.entities[i].0.as_str(), id) {
                proof {
                    self.lemma_entity_pos(i as int);
                }
                return Some(i);
            }
            i = i + 1;
        }
        None
    }

    fn find_deps(&self, id: &str) -> (r: Option<usize>)
        requires
            self.dep_keys().no_duplicates(),
        ensures
            match r {
                Some(i) => i < self.dependents@.len() && self.dependents@[i as int].0@ == id@
                    && self.has_deps(id@) && self.deps_pos(id@) == i,
                None => !self.has_deps(id@),
            },
    {
        let mut i: usize = 0;
        while i < self.dependents.len()
            invariant
                self.dep_keys().no_duplicates(),
                i <= self.dependents@.len(),
                forall|j: int| 0 <= j < i ==> self.dependents@[j].0@ != id@,
            decreases self.dependents@.len() - i,
        {
            if str_eq(self.dependents[i].0.as_str(), id) {
                proof {
                    self.lemma_deps_pos(i as int);
                }
                return Some(i);
            }
            i = i + 1;
        }
        None
    }

    /// Records `value` for `entity_id` with its hash and the current time,
    /// replacing any earlier entry; returns the hash.
    pub fn update_entity(&mut self, entity_id: &str, value: &str) -> (h: String)
        requires
            old(self).wf(),
        ensures
            final(self).wf(),
            h@ == content_hash(value@),
            final(self).version == old(self).version,
            final(self).file == old(self).file,
            final(self).dependents == old(self).dependents,
            final(self).lookup(entity_id@) matches Some(e) && e.value@ == value@ && e.hash@
                == content_hash(value@),
            forall|x: Seq<char>| x != entity_id@ ==> #[trigger] final(self).lookup(x) == old(self).lookup(x),
            forall|x: Seq<char>| #[trigger] final(self).has_entity(x) == (old(self).has_entity(x) || x == entity_id@),
            old(self).has_entity(entity_id@) ==> final(self).keys() == old(self).keys(),
            !old(self).has_entity(entity_id@) ==> final(self).keys() == old(self).keys().push(entity_id@),
            old(self).consistent() ==> final(self).consistent(),
    {
        let hash = compute_hash(value);
        let now = now_millis();
        let entry = ManifestEntry { value: value.to_owned(), hash: hash.clone(), updated_at: now };
        let ghost m0 = *self;
        match self.find_entity(entity_id) {
            Some(i) => {
                self.entities.set(i, (entity_id.to_owned(), entry));
                proof {
                    assert(self.keys() =~= m0.keys());
                    self.lemma_entity_pos(i as int);
                    assert forall|x: Seq<char>| #[trigger] self.has_entity(x) == m0.has_entity(x) by {
                        if self.has_entity(x) {
                            let k = choose|k: int| 0 <= k < self.entities@.len() && #[trigger] self.entities@[k].0@ == x;
                            assert(m0.keys()[k] == x);
                        }
                        if m0.has_entity(x) {
                            let k = choose|k: int| 0 <= k < m0.entities@.len() && #[trigger] m0.entities@[k].0@ == x;
                            assert(self.keys()[k] == x);
                        }
                    }
                    assert forall|x: Seq<char>| x != entity_id@ implies #[trigger] self.lookup(x) == m0.lookup(x) by {
                        if m0.has_entity(x) {
                            let k = m0.entity_pos(x);
                            m0.lemma_entity_pos(k);
                            self.lemma_entity_pos(k);
                        }
                    }
                }
            },
            None => {
                self.entities.push((entity_id.to_owned(), entry));
                proof {
                    let n = m0.entities@.len() as int;
                    assert(self.keys() =~= m0.keys().push(entity_id@));
                    assert forall|a: int, b: int|
                        0 <= a < self.keys().len() && 0 <= b < self.keys().len() && a != b
                        implies self.keys()[a] != self.keys()[b] by {
                        if a < n && b < n {
                            assert(self.keys()[a] == m0.keys()[a]);
                            assert(self.keys()[b] == m0.keys()[b]);
                        } else if a < n {
                            assert(m0.entities@[a].0@ != entity_id@);
                        } else {
                            assert(m0.entities@[b].0@ != entity_id@);
                        }
                    }
                    self.lemma_entity_pos(n);
                    assert forall|x: Seq<char>| #[trigger] self.has_entity(x) == (m0.has_entity(x) || x == entity_id@) by {
                        if self.has_entity(x) && x != entity_id@ {
                            let k = choose|k: int| 0 <= k < self.entities@.len() && #[trigger] self.entities@[k].0@ == x;
                            assert(m0.entities@[k].0@ == x);
                        }
                        if m0.has_entity(x) {
                            let k = choose|k: int| 0 <= k < m0.entities@.len() && #[trigger] m0.entities@[k].0@ == x;
                            assert(self.entities@[k].0@ == x);
                        }
                    }
                    assert forall|x: Seq<char>| x != entity_id@ implies #[trigger] self.lookup(x) == m0.lookup(x) by {
                        if m0.has_entity(x) {
                            let k = m0.entity_pos(x);
                            m0.lemma_entity_pos(k);
                            assert(self.entities@[k] == m0.entities@[k]);
                            self.lemma_entity_pos(k);
                        }
                    }
                }
            },
        }
        proof {
            assert(self.dep_keys() =~= m0.dep_keys());
            if m0.consistent() {
                assert forall|k: int| 0 <= k < self.entities@.len() implies (#[trigger] self.entities@[k]).1.hash@
                    == content_hash(self.entities@[k].1.value@) by {
                    if k < m0.entities@.len() && self.entities@[k] == m0.entities@[k] {
                    }
                }
            }
        }
        hash
    }

    /// Records that `from` depends on `to`: `from` is appended to the list
    /// of dependents of `to`, which is created when missing.
    pub fn add_dependency(&mut self, from: &str, to: &str)
        requires
            old(self).wf(),
        ensures
            final(self).wf(),
            final(self).version == old(self).version,
            final(self).file == old(self).file,
            final(self).entities == old(self).entities,
            final(self).dep_list(to@) == old(self).dep_list(to@).push(from@),
            forall|x: Seq<char>| x != to@ ==> #[trigger] final(self).dep_list(x) == old(self).dep_list(x),
            forall|x: Seq<char>| #[trigger] final(self).has_deps(x) == (old(self).has_deps(x) || x == to@),
    {
        let ghost m0 = *self;
        match self.find_deps(to) {
            Some(i) => {
                self.dependents[i].1.push(from.to_owned());
                proof {
                    assert(self.dep_keys() =~= m0.dep_keys());
                    self.lemma_deps_pos(i as int);
                    assert(strs(self.dependents@[i as int].1@) =~= strs(m0.dependents@[i as int].1@).push(from@));
                    assert forall|x: Seq<char>| #[trigger] self.has_deps(x) == m0.has_deps(x) by {
                        if self.has_deps(x) {
                            let k = choose|k: int| 0 <= k < self.dependents@.len() && #[trigger] self.dependents@[k].0@ == x;
                            assert(m0.dep_keys()[k] == x);
                        }
                        if m0.has_deps(x) {
                            let k = choose|k: int| 0 <= k < m0.dependents@.len() && #[trigger] m0.dependents@[k].0@ == x;
                            assert(self.dep_keys()[k] == x);
                        }
                    }
                    assert forall|x: Seq<char>| x != to@ implies #[trigger] self.dep_list(x) == m0.dep_list(x) by {
                        if m0.has_deps(x) {
                            let k = m0.deps_pos(x);
                            m0.lemma_deps_pos(k);
                            self.lemma_deps_pos(k);
                        }
                    }
                }
            },
            None => {
                let mut list: Vec<String> = Vec::new();
                list.push(from.to_owned());
                self.dependents.push((to.to_owned(), list));
                proof {
                    let n = m0.dependents@.len() as int;
                    assert(self.dep_keys() =~= m0.dep_keys().push(to@));
                    assert forall|a: int, b: int|
                        0 <= a < self.dep_keys().len() && 0 <= b < self.dep_keys().len() && a != b
                        implies self.dep_keys()[a] != self.dep_keys()[b] by {
                        if a < n && b < n {
                            assert(self.dep_keys()[a] == m0.dep_keys()[a]);
                            assert(self.dep_keys()[b] == m0.dep_keys()[b]);
                        } else if a < n {
                            assert(m0.dependents@[a].0@ != to@);
                        } else {
                            assert(m0.dependents@[b].0@ != to@);
                        }
                    }
                    self.lemma_deps_pos(n);
                    assert(strs(self.dependents@[n].1@) =~= Seq::<Seq<char>>::empty().push(from@));
                    assert forall|x: Seq<char>| #[trigger] self.has_deps(x) == (m0.has_deps(x) || x == to@) by {
                        if self.has_deps(x) && x != to@ {
                            let k = choose|k: int| 0 <= k < self.dependents@.len() && #[trigger] self.dependents@[k].0@ == x;
                            assert(m0.dependents@[k].0@ == x);
                        }
                        if m0.has_deps(x) {
                            let k = choose|k: int| 0 <= k < m0.dependents@.len() && #[trigger] m0.dependents@[k].0@ == x;
                            assert(self.dependents@[k].0@ == x);
                        }
                    }
                    assert forall|x: Seq<char>| x != to@ implies #[trigger] self.dep_list(x) == m0.dep_list(x) by {
                        if m0.has_deps(x) {
                            let k = m0.deps_pos(x);
                            m0.lemma_deps_pos(k);
                            assert(self.dependents@[k] == m0.dependents@[k]);
                            self.lemma_deps_pos(k);
                        }
                    }
                }
            },
        }
        proof {
            assert(self.keys() =~= m0.keys());
        }
    }

    /// Adds an entry with the empty value (and its hash) for `entity_id`
    /// when none is recorded; an existing entry is kept.
    pub fn ensure_entity(&mut self, entity_id: &str)
        requires
            old(self).wf(),
        ensures
            final(self).wf(),
            final(self).version == old(self).version,
            final(self).file == old(self).file,
            final(self).dependents == old(self).dependents,
            old(self).has_entity(entity_id@) ==> final(self).entities == old(self).entities,
            !old(self).has_entity(entity_id@) ==> (final(self).lookup(entity_id@) matches Some(e)
                && e.value@ == Seq::<char>::empty() && e.hash@ == content_hash(Seq::<char>::empty())),
            forall|x: Seq<char>| x != entity_id@ ==> #[trigger] final(self).lookup(x) == old(self).lookup(x),
            forall|x: Seq<char>| #[trigger] final(self).has_entity(x) == (old(self).has_entity(x) || x == entity_id@),
            old(self).consistent() ==> final(self).consistent(),
    {
        match self.find_entity(entity_id) {
            Some(_) => {},
            None => {
                let h = self.update_entity(entity_id, "");
                proof {
                    reveal_strlit("");
                    assert(""@ =~= Seq::<char>::empty());
                }
            },
        }
    }

    /// The entry recorded for `entity_id`.
    pub fn get_entity(&self, entity_id: &str) -> (r: Option<&ManifestEntry>)
        requires
            self.wf(),
        ensures
            match r {
                Some(e) => self.lookup(entity_id@) == Some(*e),
                None => self.lookup(entity_id@) is None,
            },
    {
        match self.find_entity(entity_id) {
            Some(i) => Some(&self.entities[i].1),
            None => None,
        }
    }

    /// The ids recorded as depending on `entity_id`, copied.
    pub fn dependents_of(&self, entity_id: &str) -> (r: Vec<String>)
        requires
            self.wf(),
        ensures
            strs(r@) == self.dep_list(entity_id@),
    {
        match self.find_deps(entity_id) {
            Some(i) => crate::coherence::graph::clone_strings(&self.dependents[i].1),
            None => {
                let r: Vec<String> = Vec::new();
                assert(strs(r@) =~= Seq::<Seq<char>>::empty());
                r
            },
        }
    }
}

} // verus!
