//! The synchronizer: records write events as dirty keys and decides, once a key has been
//! quiet for the debounce interval, that it is due for reloading.

use vstd::prelude::*;
use crate::key::{DepKey, KeyView};
use crate::storage::{Registry, key_views};

verus! {

/// A filesystem event as the watcher reported it: the absolute path it is about, and whether
/// its operation includes a write.
pub struct FsEvent {
    pub path: String,
    pub write: bool,
}

/// A dirty key and the instant (milliseconds) of the latest write observed for it.
pub struct Dirty {
    pub key: DepKey,
    pub since: u64,
}

impl View for Dirty {
    type V = (KeyView, u64);

    open spec fn view(&self) -> (KeyView, u64) {
        (self.key@, self.since)
    }
}

/// Views of a sequence of dirty entries.
pub open spec fn dirty_views(s: Seq<Dirty>) -> Seq<(KeyView, u64)> {
    s.map_values(|d: Dirty| d@)
}

/// Milliseconds between `since` and `now`; zero when `now` is earlier.
pub open spec fn elapsed(since: u64, now: u64) -> nat {
    if now >= since {
        (now - since) as nat
    } else {
        0
    }
}

/// Whether a key written at `since` has been quiet for at least `wait` milliseconds at `now`.
pub open spec fn is_due(since: u64, now: u64, wait: u64) -> bool {
    elapsed(since, now) >= wait
}

/// The keys of `d` that are due at `now`.
pub open spec fn due_keys(d: Set<(KeyView, u64)>, now: u64, wait: u64) -> Set<KeyView> {
    Set::new(|k: KeyView| exists|t: u64| d.contains((k, t)) && is_due(t, now, wait))
}

/// The entries of `d` that are not due at `now`.
pub open spec fn pending(d: Set<(KeyView, u64)>, now: u64, wait: u64) -> Set<(KeyView, u64)> {
    d.filter(|x: (KeyView, u64)| !is_due(x.1, now, wait))
}

/// Whether one of `events` is a write to the path `k` under which `storage` holds a resource.
pub open spec fn written(storage: &Registry, events: Seq<FsEvent>, k: KeyView) -> bool {
    exists|i: int|
        0 <= i < events.len() && #[trigger] events[i].write && k == KeyView::Path(events[i].path@)
            && storage.has_key_spec(k)
}

/// The dirty entries `d` after the events `events`, observed at `now`.
pub open spec fn observed(d: Set<(KeyView, u64)>, storage: &Registry, events: Seq<FsEvent>, now: u64) -> Set<(KeyView, u64)> {
    Set::new(|x: (KeyView, u64)| (d.contains(x) && !written(storage, events, x.0))
        || (written(storage, events, x.0) && x.1 == now))
}

/// No two entries share a key.
pub open spec fn unique_keys(s: Seq<(KeyView, u64)>) -> bool {
    forall|a: int, b: int| 0 <= a < s.len() && 0 <= b < s.len() && a != b ==> s[a].0 != s[b].0
}

/// Debounced set of dirty keys.
pub struct Synchronizer {
    dirties: Vec<Dirty>,
    update_await_time_ms: u64,
}

impl Synchronizer {
    closed spec fn entries(&self) -> Seq<(KeyView, u64)> {
        dirty_views(self.dirties@)
    }

    /// The dirty keys, each with the instant of its latest observed write.
    pub closed spec fn dirty(&self) -> Set<(KeyView, u64)> {
        self.entries().to_set()
    }

    /// The debounce interval, in milliseconds.
    pub closed spec fn await_ms(&self) -> u64 {
        self.update_await_time_ms
    }

    /// Each key is dirty at most once.
    pub closed spec fn wf(&self) -> bool {
        unique_keys(self.entries())
    }

    /// A synchronizer with no dirty key, waiting `update_await_time_ms` after the last write.
    pub fn new(update_await_time_ms: u64) -> (r: Synchronizer)
        ensures
            r.wf(),
            r.dirty() == Set::<(KeyView, u64)>::empty(),
            r.await_ms() == update_await_time_ms,
    {
        let r = Synchronizer { dirties: Vec::new(), update_await_time_ms };
        assert(r.entries().to_set() =~= Set::<(KeyView, u64)>::empty());
        r
    }

    /// The debounce interval, in milliseconds.
    pub fn update_await_time_ms(&self) -> (r: u64)
        ensures
            r == self.await_ms(),
    {
        self.update_await_time_ms
    }

    /// Marks `key` dirty since `now`, replacing any earlier instant recorded for it.
    fn mark(&mut self, key: DepKey, now: u64)
        requires
            old(self).wf(),
        ensures
            final(self).wf(),
            final(self).await_ms() == old(self).await_ms(),
            forall|x: (KeyView, u64)|
                #[trigger] final(self).dirty().contains(x) <==> ((old(self).dirty().contains(x) && x.0 != key@)
                    || x == (key@, now)),
    {
        let ghost ev = self.entries();
        let ghost k = key@;
        let mut i: usize = 0;
        while i < self.dirties.len()
            invariant
                i <= self.dirties@.len(),
                ev == self.entries(),
                k == key@,
                self.wf(),
                self.await_ms() == old(self).await_ms(),
                self.dirty() == old(self).dirty(),
                forall|j: int| 0 <= j < i ==> ev[j].0 != k,
            decreases self.dirties@.len() - i,
        {
            assert(ev[i as int] == self.dirties@[i as int]@);
            let same = self.dirties[i].key.eq(&key);
            if same {
                assert(ev[i as int].0 == k);
                self.dirties.set(i, Dirty { key, since: now });
                assert(self.entries() =~= ev.update(i as int, (k, now)));
                assert forall|x: (KeyView, u64)|
                    #[trigger] self.dirty().contains(x) <==> ((ev.to_set().contains(x) && x.0 != k) || x == (k, now)) by {
                    if ev.contains(x) && x.0 != k {
                        let j = choose|j: int| 0 <= j < ev.len() && ev[j] == x;
                        assert(self.entries()[j] == x);
                    }
                    if x == (k, now) {
                        assert(self.entries()[i as int] == x);
                    }
                    if self.entries().contains(x) {
                        let j = choose|j: int| 0 <= j < ev.len() && self.entries()[j] == x;
                        if j != i {
                            assert(ev[j] == x);
                        }
                    }
                }
                return;
            }
            i = i + 1;
        }
        assert(!ev.contains((k, now)) && forall|t: u64| !ev.contains((k, t))) by {
            assert forall|t: u64| !ev.contains((k, t)) by {
                if ev.contains((k, t)) {
                    let j = choose|j: int| 0 <= j < ev.len() && ev[j] == (k, t);
                    assert(ev[j].0 == k);
                }
            }
        }
        self.dirties.push(Dirty { key, since: now });
        assert(self.entries() =~= ev.push((k, now)));
        assert forall|x: (KeyView, u64)|
            #[trigger] self.dirty().contains(x) <==> ((ev.to_set().contains(x) && x.0 != k) || x == (k, now)) by {
            vstd::seq_lib::lemma_seq_contains_after_push(ev, (k, now), x);
        }
    }

    /// Takes in the write events that the watcher reported since the last call, observed at
    /// `now`: each write to a path under which `storage` holds a resource marks that path dirty
    /// since `now`; every other event is ignored.
    pub fn dequeue_fs_events(&mut self, storage: &Registry, events: &Vec<FsEvent>, now: u64)
        requires
            old(self).wf(),
        ensures
            final(self).wf(),
            final(self).await_ms() == old(self).await_ms(),
            final(self).dirty() == observed(old(self).dirty(), storage, events@, now),
    {
        let mut i: usize = 0;
        while i < events.len()
            invariant
                self.wf(),
                i <= events@.len(),
                self.await_ms() == old(self).await_ms(),
                forall|x: (KeyView, u64)|
                    #[trigger] self.dirty().contains(x) <==> ((old(self).dirty().contains(x)
                        && !written(storage, events@.take(i as int), x.0)) || (written(storage, events@.take(i as int), x.0)
                        && x.1 == now)),
            decreases events@.len() - i,
        {
            let ev = &events[i];
            let ghost pre = events@.take(i as int);
            let ghost post = events@.take(i as int + 1);
            assert(post =~= pre.push(events@[i as int]));
            let ghost before = self.dirty();
            let key = DepKey::Path(ev.path.clone());
            let hit = ev.write && storage.has_key(&key);
            if hit {
                self.mark(key, now);
            }
            assert forall|y: KeyView|
                written(storage, post, y) <==> (written(storage, pre, y) || (hit && y == key@)) by {
                if written(storage, post, y) {
                    let j = choose|j: int| 0 <= j < post.len() && #[trigger] post[j].write
                        && y == KeyView::Path(post[j].path@) && storage.has_key_spec(y);
                    if j < i {
                        assert(pre[j] == post[j]);
                    }
                }
                if written(storage, pre, y) {
                    let j = choose|j: int| 0 <= j < pre.len() && #[trigger] pre[j].write
                        && y == KeyView::Path(pre[j].path@) && storage.has_key_spec(y);
                    assert(post[j] == pre[j]);
                }
                if hit && y == key@ {
                    assert(post[i as int].write);
                }
            }
            i = i + 1;
        }
        assert(events@.take(i as int) =~= events@);
        assert(self.dirty() =~= observed(old(self).dirty(), storage, events@, now));
    }

    /// Takes out the dirty keys that are due at `now`, each once, and keeps the others.
    pub fn take_due(&mut self, now: u64) -> (r: Vec<DepKey>)
        requires
            old(self).wf(),
        ensures
            final(self).wf(),
            final(self).await_ms() == old(self).await_ms(),
            final(self).dirty() == pending(old(self).dirty(), now, old(self).await_ms()),
            key_views(r@).no_duplicates(),
            key_views(r@).to_set() == due_keys(old(self).dirty(), now, old(self).await_ms()),
    {
        let wait = self.update_await_time_ms;
        let ghost ev = self.entries();
        let mut kept: Vec<Dirty> = Vec::new();
        let mut due: Vec<DepKey> = Vec::new();
        let mut i: usize = 0;
        while i < self.dirties.len()
            invariant
                i <= self.dirties@.len(),
                ev == self.entries(),
                wait == self.await_ms(),
                unique_keys(ev),
                unique_keys(dirty_views(kept@)),
                forall|x: (KeyView, u64)|
                    #[trigger] dirty_views(kept@).contains(x) <==> (ev.take(i as int).contains(x)
                        && !is_due(x.1, now, wait)),
                key_views(due@).no_duplicates(),
                forall|k: KeyView|
                    #[trigger] key_views(due@).contains(k) <==> (exists|j: int|
                        0 <= j < i && #[trigger] ev[j].0 == k && is_due(ev[j].1, now, wait)),
            decreases self.dirties@.len() - i,
        {
            let d = &self.dirties[i];
            let ghost e = ev[i as int];
            assert(e == d@);
            assert(ev.take(i as int + 1) =~= ev.take(i as int).push(e));
            let ghost kv = dirty_views(kept@);
            let ghost dv = key_views(due@);
            let elapsed_ms: u64 = if now >= d.since { now - d.since } else { 0 };
            if elapsed_ms >= wait {
                let k = d.key.clone();
                proof {
                    if dv.contains(k@) {
                        let j = choose|j: int| 0 <= j < i && #[trigger] ev[j].0 == k@ && is_due(ev[j].1, now, wait);
                        assert(ev[j].0 == ev[i as int].0);
                    }
                    if dv.no_duplicates() {
                        assert forall|a: int, b: int| 0 <= a < dv.len() + 1 && 0 <= b < dv.len() + 1 && a != b
                            implies dv.push(k@)[a] != dv.push(k@)[b] by {
                            if a < dv.len() && b < dv.len() {
                            } else if a < dv.len() {
                                assert(dv.contains(dv[a]));
                            } else {
                                assert(dv.contains(dv[b]));
                            }
                        }
                    }
                }
                due.push(k);
                assert(key_views(due@) =~= dv.push(k@));
                assert forall|k2: KeyView|
                    #[trigger] key_views(due@).contains(k2) <==> (exists|j: int|
                        0 <= j < i + 1 && #[trigger] ev[j].0 == k2 && is_due(ev[j].1, now, wait)) by {
                    vstd::seq_lib::lemma_seq_contains_after_push(dv, k@, k2);
                    if k2 == k@ {
                        assert(ev[i as int].0 == k2);
                    }
                }
                assert forall|x: (KeyView, u64)|
                    #[trigger] kv.contains(x) <==> (ev.take(i as int + 1).contains(x) && !is_due(x.1, now, wait)) by {
                    vstd::seq_lib::lemma_seq_contains_after_push(ev.take(i as int), e, x);
                }
            } else {
                let c = Dirty { key: d.key.clone(), since: d.since };
                proof {
                    assert forall|a: int| 0 <= a < kv.len() implies kv[a].0 != e.0 by {
                        assert(kv.contains(kv[a]));
                        let j = choose|j: int| 0 <= j < i && ev.take(i as int)[j] == kv[a];
                        assert(ev[j] == kv[a]);
                    }
                }
                kept.push(c);
                assert(dirty_views(kept@) =~= kv.push(e));
                assert forall|x: (KeyView, u64)|
                    #[trigger] dirty_views(kept@).contains(x) <==> (ev.take(i as int + 1).contains(x)
                        && !is_due(x.1, now, wait)) by {
                    vstd::seq_lib::lemma_seq_contains_after_push(ev.take(i as int), e, x);
                    vstd::seq_lib::lemma_seq_contains_after_push(kv, e, x);
                }
                assert forall|k2: KeyView|
                    #[trigger] key_views(due@).contains(k2) <==> (exists|j: int|
                        0 <= j < i + 1 && #[trigger] ev[j].0 == k2 && is_due(ev[j].1, now, wait)) by {
                    if exists|j: int| 0 <= j < i + 1 && #[trigger] ev[j].0 == k2 && is_due(ev[j].1, now, wait) {
                        let j = choose|j: int| 0 <= j < i + 1 && #[trigger] ev[j].0 == k2 && is_due(ev[j].1, now, wait);
                        assert(j != i);
                    }
                }
            }
            i = i + 1;
        }
        assert(ev.take(i as int) =~= ev);
        let ghost old_dirty = self.dirty();
        self.dirties = kept;
        assert(self.dirty() =~= pending(old_dirty, now, wait));
        assert(key_views(due@).to_set() =~= due_keys(old_dirty, now, wait)) by {
            assert forall|k: KeyView| key_views(due@).contains(k) <==> due_keys(old_dirty, now, wait).contains(k) by {
                if key_views(due@).contains(k) {
                    let j = choose|j: int| 0 <= j < i && #[trigger] ev[j].0 == k && is_due(ev[j].1, now, wait);
                    assert(ev.contains(ev[j]));
                }
                if due_keys(old_dirty, now, wait).contains(k) {
                    let t = choose|t: u64| old_dirty.contains((k, t)) && is_due(t, now, wait);
                    let j = choose|j: int| 0 <= j < ev.len() && ev[j] == (k, t);
                    assert(ev[j].0 == k);
                }
            }
        }
        due
    }
}

impl Synchronizer {
    /// One synchronization pass at `now`: takes in `events`, then takes out and returns the
    /// keys that are due, each once. For each, the caller reloads `entries_of` the key and then
    /// `dependents_to_reload` with the outcomes.
    pub fn sync(&mut self, storage: &Registry, events: &Vec<FsEvent>, now: u64) -> (r: Vec<DepKey>)
        requires
            old(self).wf(),
        ensures
            final(self).wf(),
            final(self).await_ms() == old(self).await_ms(),
            final(self).dirty() == pending(observed(old(self).dirty(), storage, events@, now), now, old(self).await_ms()),
            key_views(r@).no_duplicates(),
            key_views(r@).to_set() == due_keys(observed(old(self).dirty(), storage, events@, now), now, old(self).await_ms()),
    {
        self.dequeue_fs_events(storage, events, now);
        self.take_due(now)
    }
}

/// A synchronizer records one instant per dirty key: the latest observed write.
pub proof fn lemma_one_instant_per_key(s: &Synchronizer, k: KeyView, t1: u64, t2: u64)
    requires
        s.wf(),
        s.dirty().contains((k, t1)),
        s.dirty().contains((k, t2)),
    ensures
        t1 == t2,
{
    let e = s.entries();
    let a = choose|a: int| 0 <= a < e.len() && e[a] == (k, t1);
    let b = choose|b: int| 0 <= b < e.len() && e[b] == (k, t2);
    assert(e[a].0 == e[b].0);
}

/// Debounce: a key whose latest write was observed at `t` is due at `now` exactly when it has
/// been quiet for `wait`; a due key leaves the dirty set, one not yet due stays with its instant.
pub proof fn lemma_debounce(d: Set<(KeyView, u64)>, k: KeyView, t: u64, now: u64, wait: u64)
    requires
        d.contains((k, t)),
        forall|t2: u64| d.contains((k, t2)) ==> t2 == t,
    ensures
        due_keys(d, now, wait).contains(k) <==> elapsed(t, now) >= wait,
        due_keys(d, now, wait).contains(k) ==> forall|t2: u64| !pending(d, now, wait).contains((k, t2)),
        !due_keys(d, now, wait).contains(k) ==> pending(d, now, wait).contains((k, t)),
{
    if due_keys(d, now, wait).contains(k) {
        let t2 = choose|t2: u64| d.contains((k, t2)) && is_due(t2, now, wait);
        assert(t2 == t);
    }
    if elapsed(t, now) >= wait {
        assert(d.contains((k, t)) && is_due(t, now, wait));
    }
}

/// A sync that follows another at the same instant, with no event in between, reloads nothing:
/// what the first left dirty is not due.
pub proof fn lemma_sync_idempotent(dirty: Set<(KeyView, u64)>, storage: &Registry, now: u64, wait: u64)
    ensures
        due_keys(observed(pending(dirty, now, wait), storage, Seq::<FsEvent>::empty(), now), now, wait)
            == Set::<KeyView>::empty(),
{
    let left = pending(dirty, now, wait);
    assert(observed(left, storage, Seq::<FsEvent>::empty(), now) =~= left);
    assert(due_keys(left, now, wait) =~= Set::<KeyView>::empty());
}

} // verus!
