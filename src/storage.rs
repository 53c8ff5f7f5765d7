//! Bookkeeping of a resource storage: which (key, type) pairs hold a cached resource, and the
//! dependency graph that maps a dependency to the resources that must reload after it.

use vstd::prelude::*;
use crate::key::{DepKey, KeyView, canonical_key};
use crate::load::StoreError;

verus! {

/// Identity of a cached resource: its canonical key and a tag naming its type.
pub struct ResId {
    pub key: DepKey,
    pub tag: u64,
}

impl View for ResId {
    type V = (KeyView, u64);

    open spec fn view(&self) -> (KeyView, u64) {
        (self.key@, self.tag)
    }
}

impl Clone for ResId {
    fn clone(&self) -> (r: Self)
        ensures
            r@ == self@,
    {
        ResId { key: self.key.clone(), tag: self.tag }
    }
}

/// Edge of the dependency graph: `dependent` must reload after `dependency` does.
pub struct Edge {
    pub dependency: DepKey,
    pub dependent: DepKey,
}

impl View for Edge {
    type V = (KeyView, KeyView);

    open spec fn view(&self) -> (KeyView, KeyView) {
        (self.dependency@, self.dependent@)
    }
}

/// Views of a sequence of resource identities.
pub open spec fn id_views(s: Seq<ResId>) -> Seq<(KeyView, u64)> {
    s.map_values(|r: ResId| r@)
}

/// Views of a sequence of keys.
pub open spec fn key_views(s: Seq<DepKey>) -> Seq<KeyView> {
    s.map_values(|k: DepKey| k@)
}

/// Edges from each of `deps`, canonicalized under `root`, to `dependent`.
pub open spec fn declared_edges(root: Seq<char>, deps: Seq<KeyView>, dependent: KeyView) -> Set<(KeyView, KeyView)> {
    Set::new(|e: (KeyView, KeyView)| exists|k: int| 0 <= k < deps.len() && e == (canonical_key(root, #[trigger] deps[k]), dependent))
}

/// Registered resources and dependency graph of a storage rooted at a canonical directory.
pub struct Registry {
    root: String,
    ids: Vec<ResId>,
    edges: Vec<Edge>,
}

impl Registry {
    /// The canonical root, as characters.
    pub closed spec fn root_view(&self) -> Seq<char> {
        self.root@
    }

    /// The (key, type) pairs that hold a cached resource and its reload metadata.
    pub closed spec fn registered(&self) -> Set<(KeyView, u64)> {
        id_views(self.ids@).to_set()
    }

    /// The dependency graph, as (dependency, dependent) pairs.
    pub closed spec fn dependency_edges(&self) -> Set<(KeyView, KeyView)> {
        self.edges@.map_values(|e: Edge| e@).to_set()
    }

    /// No (key, type) pair is registered twice and no edge is recorded twice.
    pub closed spec fn wf(&self) -> bool {
        &&& id_views(self.ids@).no_duplicates()
        &&& self.edges@.map_values(|e: Edge| e@).no_duplicates()
    }

    /// Whether `x` is a registered resource stored under `key` or, for `dependents`, under a
    /// key that depends on `key`.
    pub open spec fn selects(&self, key: KeyView, dependents: bool, x: (KeyView, u64)) -> bool {
        &&& self.registered().contains(x)
        &&& if dependents {
            self.dependency_edges().contains((key, x.0))
        } else {
            x.0 == key
        }
    }

    /// How many times `x` is recorded as registered.
    pub closed spec fn entry_count(&self, x: (KeyView, u64)) -> nat {
        id_views(self.ids@).to_multiset().count(x)
    }

    /// Whether some resource of any type is stored under `k`.
    pub open spec fn has_key_spec(&self, k: KeyView) -> bool {
        exists|t: u64| self.registered().contains((k, t))
    }

    /// An empty registry rooted at the canonical directory `root`.
    pub fn new(root: String) -> (r: Registry)
        ensures
            r.wf(),
            r.root_view() == root@,
            r.registered() == Set::<(KeyView, u64)>::empty(),
            r.dependency_edges() == Set::<(KeyView, KeyView)>::empty(),
    {
        let r = Registry { root, ids: Vec::new(), edges: Vec::new() };
        assert(id_views(r.ids@).to_set() =~= Set::<(KeyView, u64)>::empty());
        assert(r.edges@.map_values(|e: Edge| e@).to_set() =~= Set::<(KeyView, KeyView)>::empty());
        r
    }

    /// The canonical root.
    pub fn root(&self) -> (r: &str)
        ensures
            r@ == self.root_view(),
    {
        self.root.as_str()
    }

    /// The canonical form of `key` under this registry's root.
    pub fn prepare_key(&self, key: &DepKey) -> (r: DepKey)
        ensures
            r@ == canonical_key(self.root_view(), key@),
    {
        key.prepare_key(self.root.as_str())
    }

    /// Whether a resource is cached under `id`.
    pub fn contains(&self, id: &ResId) -> (r: bool)
        ensures
            r == self.registered().contains(id@),
    {
        let mut i: usize = 0;
        while i < self.ids.len()
            invariant
                i <= self.ids@.len(),
                forall|j: int| 0 <= j < i ==> id_views(self.ids@)[j] != id@,
            decreases self.ids@.len() - i,
        {
            if self.ids[i].tag == id.tag && self.ids[i].key == id.key {
                assert(id_views(self.ids@)[i as int] == id@);
                return true;
            }
            i = i + 1;
        }
        false
    }

    /// Whether a resource of some type is stored under `key`.
    pub fn has_key(&self, key: &DepKey) -> (r: bool)
        ensures
            r == self.has_key_spec(key@),
    {
        let ghost iv = id_views(self.ids@);
        let mut i: usize = 0;
        while i < self.ids.len()
            invariant
                i <= self.ids@.len(),
                iv == id_views(self.ids@),
                forall|j: int| 0 <= j < i ==> iv[j].0 != key@,
            decreases self.ids@.len() - i,
        {
            if self.ids[i].key == *key {
                assert(self.registered().contains(iv[i as int]));
                return true;
            }
            i = i + 1;
        }
        assert(!self.has_key_spec(key@)) by {
            if self.has_key_spec(key@) {
                let t = choose|t: u64| self.registered().contains((key@, t));
                let j = choose|j: int| 0 <= j < iv.len() && iv[j] == (key@, t);
                assert(iv[j].0 == key@);
            }
        }
        false
    }

    fn has_edge(&self, dependency: &DepKey, dependent: &DepKey) -> (r: bool)
        ensures
            r == self.dependency_edges().contains((dependency@, dependent@)),
    {
        let ghost ev = self.edges@.map_values(|e: Edge| e@);
        let mut i: usize = 0;
        while i < self.edges.len()
            invariant
                i <= self.edges@.len(),
                ev == self.edges@.map_values(|e: Edge| e@),
                forall|j: int| 0 <= j < i ==> ev[j] != (dependency@, dependent@),
            decreases self.edges@.len() - i,
        {
            if self.edges[i].dependency == *dependency && self.edges[i].dependent == *dependent {
                assert(ev[i as int] == (dependency@, dependent@));
                return true;
            }
            i = i + 1;
        }
        false
    }

    fn select(&self, key: &DepKey, dependents: bool) -> (r: Vec<ResId>)
        requires
            self.wf(),
        ensures
            id_views(r@).no_duplicates(),
            forall|x: (KeyView, u64)| #[trigger] id_views(r@).contains(x) <==> self.selects(key@, dependents, x),
    {
        let ghost iv = id_views(self.ids@);
        let mut out: Vec<ResId> = Vec::new();
        let mut i: usize = 0;
        while i < self.ids.len()
            invariant
                i <= self.ids@.len(),
                iv == id_views(self.ids@),
                iv.no_duplicates(),
                id_views(out@).no_duplicates(),
                forall|x: (KeyView, u64)|
                    #[trigger] id_views(out@).contains(x) <==> (iv.take(i as int).contains(x)
                        && self.selects(key@, dependents, x)),
            decreases self.ids@.len() - i,
        {
            assert(iv.take(i as int + 1) =~= iv.take(i as int).push(iv[i as int]));
            assert(iv[i as int] == self.ids@[i as int]@);
            assert(self.registered().contains(iv[i as int]));
            let ghost old_out = id_views(out@);
            let matched = if dependents {
                self.has_edge(key, &self.ids[i].key)
            } else {
                self.ids[i].key.eq(key)
            };
            if matched {
                let c = self.ids[i].clone();
                proof {
                    if old_out.contains(c@) {
                        let j = choose|j: int| 0 <= j < i && iv.take(i as int)[j] == c@;
                        assert(iv[j] == iv[i as int]);
                    }
                    lemma_push_no_duplicates(old_out, c@);
                }
                out.push(c);
                assert(id_views(out@) =~= old_out.push(c@));
            }
            assert forall|x: (KeyView, u64)|
                #[trigger] id_views(out@).contains(x) <==> (iv.take(i as int + 1).contains(x)
                    && self.selects(key@, dependents, x)) by {
                vstd::seq_lib::lemma_seq_contains_after_push(iv.take(i as int), iv[i as int], x);
                vstd::seq_lib::lemma_seq_contains_after_push(old_out, iv[i as int], x);
            }
            i = i + 1;
        }
        assert(iv.take(i as int) =~= iv);
        out
    }

    /// The resources stored under `key`, each once.
    pub fn entries_of(&self, key: &DepKey) -> (r: Vec<ResId>)
        requires
            self.wf(),
        ensures
            id_views(r@).no_duplicates(),
            forall|x: (KeyView, u64)|
                #[trigger] id_views(r@).contains(x) <==> (self.registered().contains(x) && x.0 == key@),
    {
        self.select(key, false)
    }

    /// The resources stored under a key that depends on `key`, each exactly once.
    pub fn dependents_of(&self, key: &DepKey) -> (r: Vec<ResId>)
        requires
            self.wf(),
        ensures
            forall|x: (KeyView, u64)| #[trigger] id_views(r@).to_multiset().count(x)
                == if self.selects(key@, true, x) { 1nat } else { 0nat },
            forall|x: (KeyView, u64)| #[trigger] id_views(r@).contains(x) <==> self.selects(key@, true, x),
    {
        let out = self.select(key, true);
        proof {
            id_views(out@).lemma_multiset_has_no_duplicates();
            assert forall|x: (KeyView, u64)| #[trigger] id_views(out@).to_multiset().count(x)
                == if self.selects(key@, true, x) { 1nat } else { 0nat } by {
                vstd::seq_lib::to_multiset_contains(id_views(out@), x);
            }
        }
        out
    }

    /// The dependents of `key` to reload once the resources stored under `key` were reloaded
    /// with the given outcomes (`true` for a success): where at least one succeeded, each
    /// resource stored under a key that depends on `key`, exactly once; else none. The graph is
    /// read at the call, so dependents registered by the reloads themselves are included.
    pub fn dependents_to_reload(&self, key: &DepKey, outcomes: &Vec<bool>) -> (r: Vec<ResId>)
        requires
            self.wf(),
        ensures
            (exists|i: int| 0 <= i < outcomes@.len() && outcomes@[i]) ==> forall|x: (KeyView, u64)|
                #[trigger] id_views(r@).to_multiset().count(x) == if self.selects(key@, true, x) { 1nat } else { 0nat },
            !(exists|i: int| 0 <= i < outcomes@.len() && outcomes@[i]) ==> r@.len() == 0,
    {
        let mut i: usize = 0;
        while i < outcomes.len()
            invariant
                i <= outcomes@.len(),
                self.wf(),
                forall|j: int| 0 <= j < i ==> !outcomes@[j],
            decreases outcomes@.len() - i,
        {
            if outcomes[i] {
                return self.dependents_of(key);
            }
            i = i + 1;
        }
        Vec::new()
    }

    /// Records the resource `id`, declared by its loader to depend on `deps`.
    ///
    /// A pair that is already registered is refused with `AlreadyRegisteredKey` and nothing
    /// changes. Otherwise the pair is registered, and for each dependency, canonicalized against
    /// the root, an edge to the resource's key is recorded.
    pub fn register(&mut self, id: ResId, deps: &Vec<DepKey>) -> (r: Result<(), StoreError>)
        requires
            old(self).wf(),
        ensures
            final(self).wf(),
            final(self).root_view() == old(self).root_view(),
            old(self).registered().contains(id@) ==> {
                &&& r matches Err(StoreError::AlreadyRegisteredKey(k)) && k@ == id.key@
                &&& final(self).registered() == old(self).registered()
                &&& final(self).dependency_edges() == old(self).dependency_edges()
            },
            !old(self).registered().contains(id@) ==> {
                &&& r is Ok
                &&& final(self).registered() == old(self).registered().insert(id@)
                &&& final(self).dependency_edges() == old(self).dependency_edges().union(
                    declared_edges(old(self).root_view(), key_views(deps@), id.key@))
            },
    {
        if self.contains(&id) {
            return Err(StoreError::AlreadyRegisteredKey(id.key));
        }
        let ghost old_edges = self.dependency_edges();
        let ghost dv = key_views(deps@);
        let mut j: usize = 0;
        while j < deps.len()
            invariant
                self.wf(),
                j <= deps@.len(),
                dv == key_views(deps@),
                self.root_view() == old(self).root_view(),
                self.registered() == old(self).registered(),
                !self.registered().contains(id@),
                self.dependency_edges() == old_edges.union(declared_edges(self.root_view(), dv.take(j as int), id.key@)),
            decreases deps@.len() - j,
        {
            let c = self.prepare_key(&deps[j]);
            let ghost ev = self.edges@.map_values(|e: Edge| e@);
            let ghost e = (c@, id.key@);
            assert(dv[j as int] == deps@[j as int]@);
            assert(dv.take(j as int + 1) =~= dv.take(j as int).push(dv[j as int]));
            if !self.has_edge(&c, &id.key) {
                proof {
                    lemma_push_no_duplicates(ev, e);
                    ev.lemma_push_to_set_commute(e);
                }
                self.edges.push(Edge { dependency: c, dependent: id.key.clone() });
                assert(self.edges@.map_values(|e: Edge| e@) =~= ev.push(e));
            }
            assert(self.dependency_edges() =~= old_edges.union(declared_edges(self.root_view(), dv.take(j as int + 1), id.key@))) by {
                assert forall|x: (KeyView, KeyView)|
                    declared_edges(self.root_view(), dv.take(j as int + 1), id.key@).contains(x)
                    <==> (declared_edges(self.root_view(), dv.take(j as int), id.key@).contains(x) || x == e) by {
                    if declared_edges(self.root_view(), dv.take(j as int + 1), id.key@).contains(x) {
                        let k = choose|k: int| 0 <= k < j + 1 && x == (canonical_key(self.root_view(), #[trigger] dv.take(j as int + 1)[k]), id.key@);
                        if k < j {
                            assert(dv.take(j as int)[k] == dv.take(j as int + 1)[k]);
                        }
                    }
                    if declared_edges(self.root_view(), dv.take(j as int), id.key@).contains(x) {
                        let k = choose|k: int| 0 <= k < j && x == (canonical_key(self.root_view(), #[trigger] dv.take(j as int)[k]), id.key@);
                        assert(dv.take(j as int + 1)[k] == dv.take(j as int)[k]);
                    }
                    if x == e {
                        assert(dv.take(j as int + 1)[j as int] == dv[j as int]);
                    }
                }
            }
            j = j + 1;
        }
        assert(dv.take(j as int) =~= dv);
        let ghost iv = id_views(self.ids@);
        proof {
            lemma_push_no_duplicates(iv, id@);
            iv.lemma_push_to_set_commute(id@);
        }
        self.ids.push(id);
        assert(id_views(self.ids@) =~= iv.push(id@));
        Ok(())
    }
}

/// At most one metadata entry, and so one cached handle, exists per (key, type) pair.
pub proof fn lemma_at_most_one(reg: &Registry, x: (KeyView, u64))
    requires
        reg.wf(),
    ensures
        reg.entry_count(x) <= 1,
        reg.entry_count(x) == 1 <==> reg.registered().contains(x),
{
    id_views(reg.ids@).lemma_multiset_has_no_duplicates();
    vstd::seq_lib::to_multiset_contains(id_views(reg.ids@), x);
}

proof fn lemma_push_no_duplicates<A>(s: Seq<A>, e: A)
    requires
        s.no_duplicates(),
        !s.contains(e),
    ensures
        s.push(e).no_duplicates(),
{
    assert forall|a: int, b: int| 0 <= a < s.len() + 1 && 0 <= b < s.len() + 1 && a != b
        implies s.push(e)[a] != s.push(e)[b] by {
        if a < s.len() && b < s.len() {
        } else if a < s.len() {
            assert(s.contains(s[a]));
        } else {
            assert(s.contains(s[b]));
        }
    }
}

} // verus!
