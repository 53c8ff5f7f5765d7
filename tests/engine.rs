use warmy::key::canonicalize_path;
use warmy::load::DEFAULT_UPDATE_AWAIT_TIME_MS;
use warmy::storage::{Registry, ResId};
use warmy::store::open_store;
use warmy::sync::{FsEvent, Synchronizer};
use warmy::{DepKey, FSKey, Loaded, LogicalKey, StoreError, StoreOpt};

const ROOT: &str = "/tmp/R";

fn path(p: &str) -> DepKey {
    DepKey::Path(p.to_string())
}

fn id(key: DepKey, tag: u64) -> ResId {
    ResId { key, tag }
}

fn write(p: &str) -> FsEvent {
    FsEvent { path: p.to_string(), write: true }
}

fn fresh(wait: u64) -> (Registry, Synchronizer) {
    let opt = StoreOpt::default().set_update_await_time_ms(wait);
    open_store(&opt, Some(ROOT.to_string())).unwrap()
}


fn tags(ids: &[ResId]) -> Vec<u64> {
    ids.iter().map(|i| i.tag).collect()
}

#[test]
fn canonical_path_joins_root() {
    assert_eq!(canonicalize_path(ROOT, "zoo.json"), "/tmp/R/zoo.json");
    assert_eq!(canonicalize_path(ROOT, "a/b.png"), "/tmp/R/a/b.png");
}

#[test]
fn leading_separator_is_optional() {
    assert_eq!(canonicalize_path(ROOT, "/zoo.json"), canonicalize_path(ROOT, "zoo.json"));
    assert_eq!(canonicalize_path(ROOT, "///zoo.json"), "/tmp/R/zoo.json");
}

#[test]
fn separators_are_squashed() {
    assert_eq!(canonicalize_path(ROOT, "a//b/"), "/tmp/R/a/b");
    assert_eq!(canonicalize_path(ROOT, ""), "/tmp/R");
    assert_eq!(canonicalize_path(ROOT, "/"), "/tmp/R");
    assert_eq!(canonicalize_path("/", "x"), "/x");
}

#[test]
fn fs_key_prepares_against_root() {
    let k = FSKey::new("/zoo.json").prepare_key(ROOT);
    assert_eq!(k.path, "/tmp/R/zoo.json");
    assert_eq!(k.to_dep_key(), path("/tmp/R/zoo.json"));
}

#[test]
fn logical_key_is_its_own_canonical_form() {
    let k = LogicalKey::new("c").prepare_key(ROOT);
    assert_eq!(k.name, "c");
    assert_eq!(k.to_dep_key(), DepKey::Logical("c".to_string()));
    assert_eq!(DepKey::Logical("c".to_string()).prepare_key(ROOT), DepKey::Logical("c".to_string()));
    assert_ne!(DepKey::Logical("c".to_string()), path("c"));
}

#[test]
fn loaded_constructors() {
    let a = Loaded::without_dep(3u32);
    assert_eq!(a.res, 3);
    assert!(a.deps.is_empty());
    let b = Loaded::with_deps("s", vec![path("x"), DepKey::Logical("y".to_string())]);
    assert_eq!(b.res, "s");
    assert_eq!(b.deps.len(), 2);
}

#[test]
fn store_opt_defaults_and_setters() {
    let opt = StoreOpt::default();
    assert_eq!(opt.root(), ".");
    assert_eq!(opt.update_await_time_ms(), 50);
    assert_eq!(DEFAULT_UPDATE_AWAIT_TIME_MS, 50);
    let opt = opt.set_root("/data").set_update_await_time_ms(120);
    assert_eq!(opt.root(), "/data");
    assert_eq!(opt.update_await_time_ms(), 120);
}

#[test]
fn bad_root_is_refused() {
    let opt = StoreOpt::default().set_root("/does/not/exist");
    match open_store(&opt, None) {
        Err(e) => assert_eq!(e, StoreError::RootDoesNotExist("/does/not/exist".to_string())),
        Ok(_) => panic!("a root that does not resolve must be refused"),
    }
}

#[test]
fn open_store_keeps_canonical_root() {
    let (reg, sync) = fresh(30);
    assert_eq!(reg.root(), ROOT);
    assert_eq!(sync.update_await_time_ms(), 30);
}

#[test]
fn error_descriptions() {
    assert_eq!(StoreError::RootDoesNotExist("x".to_string()).description(), "root doesn’t exist");
    assert_eq!(StoreError::AlreadyRegisteredKey(path("x")).description(), "already registered key");
}

#[test]
fn duplicate_inject_is_refused() {
    let (mut reg, _) = fresh(50);
    let a = path("/tmp/R/a");
    assert_eq!(reg.register(id(a.clone(), 1), &vec![]), Ok(()));
    // a sibling type under the same key coexists
    assert_eq!(reg.register(id(a.clone(), 2), &vec![]), Ok(()));
    assert_eq!(
        reg.register(id(a.clone(), 1), &vec![path("b")]),
        Err(StoreError::AlreadyRegisteredKey(a.clone()))
    );
    assert!(reg.contains(&id(a.clone(), 1)));
    assert!(reg.contains(&id(a.clone(), 2)));
    assert!(!reg.contains(&id(a.clone(), 3)));
    // the refused registration recorded no dependency
    assert!(reg.dependents_of(&path("/tmp/R/b")).is_empty());
}

#[test]
fn lookup_by_either_spelling_hits_same_entry() {
    let (mut reg, _) = fresh(50);
    let k1 = reg.prepare_key(&path("zoo.json"));
    let k2 = reg.prepare_key(&path("/zoo.json"));
    assert_eq!(k1, k2);
    reg.register(id(k1, 7), &vec![]).unwrap();
    assert!(reg.contains(&id(k2, 7)));
}

#[test]
fn single_file_reload() {
    let (mut reg, mut sync) = fresh(50);
    let a = reg.prepare_key(&path("a.txt"));
    reg.register(id(a.clone(), 1), &vec![]).unwrap();
    assert!(sync.sync(&reg, &vec![write("/tmp/R/a.txt")], 0).is_empty());
    let due = sync.sync(&reg, &vec![], 60);
    assert_eq!(due, vec![a.clone()]);
    assert_eq!(tags(&reg.entries_of(&a)), vec![1]);
    assert!(reg.dependents_of(&a).is_empty());
    assert!(sync.sync(&reg, &vec![], 61).is_empty());
}

#[test]
fn dependency_propagation() {
    let (mut reg, mut sync) = fresh(50);
    let x = reg.prepare_key(&path("x"));
    let y = reg.prepare_key(&path("y"));
    reg.register(id(x.clone(), 1), &vec![]).unwrap();
    reg.register(id(y.clone(), 1), &vec![]).unwrap();
    let c = DepKey::Logical("c".to_string());
    reg.register(id(c.clone(), 2), &vec![path("x"), path("/y")]).unwrap();
    assert!(sync.sync(&reg, &vec![write("/tmp/R/x")], 0).is_empty());
    let due = sync.sync(&reg, &vec![], 50);
    assert_eq!(due, vec![x.clone()]);
    assert_eq!(tags(&reg.entries_of(&x)), vec![1]);
    let dependents = reg.dependents_to_reload(&x, &vec![true]);
    assert_eq!(dependents.len(), 1);
    assert_eq!(dependents[0].key, c);
    assert_eq!(dependents[0].tag, 2);
    assert!(reg.dependents_of(&y).len() == 1);
}

#[test]
fn repeated_dependency_reloads_dependent_once() {
    let (mut reg, _) = fresh(50);
    let c = DepKey::Logical("c".to_string());
    reg.register(id(c.clone(), 2), &vec![path("x"), path("/x"), path("x")]).unwrap();
    assert_eq!(reg.dependents_of(&path("/tmp/R/x")).len(), 1);
    assert!(reg.entries_of(&path("/tmp/R/x")).is_empty());
}

#[test]
fn proxy_is_reloaded_after_file_appears() {
    let (mut reg, mut sync) = fresh(50);
    let m = reg.prepare_key(&path("missing"));
    // the proxy is registered with no dependency
    reg.register(id(m.clone(), 4), &vec![]).unwrap();
    assert!(sync.sync(&reg, &vec![write("/tmp/R/missing")], 5).is_empty());
    let due = sync.sync(&reg, &vec![], 55);
    assert_eq!(due, vec![m.clone()]);
    assert_eq!(tags(&reg.entries_of(&m)), vec![4]);
}

#[test]
fn debounce_compression() {
    let (mut reg, mut sync) = fresh(50);
    let f = reg.prepare_key(&path("f"));
    reg.register(id(f.clone(), 1), &vec![]).unwrap();
    let mut reloads = 0;
    for t in 0..10u64 {
        reloads += sync.sync(&reg, &vec![write("/tmp/R/f")], t * 2).len();
    }
    // last write observed at 18 ms
    reloads += sync.sync(&reg, &vec![], 67).len();
    assert_eq!(reloads, 0);
    assert_eq!(sync.sync(&reg, &vec![], 68), vec![f]);
    assert!(sync.sync(&reg, &vec![], 500).is_empty());
}

#[test]
fn debounce_boundary() {
    let (mut reg, mut sync) = fresh(50);
    let f = reg.prepare_key(&path("f"));
    reg.register(id(f.clone(), 1), &vec![]).unwrap();
    assert!(sync.sync(&reg, &vec![write("/tmp/R/f")], 10).is_empty());
    assert!(sync.sync(&reg, &vec![], 59).is_empty());
    assert_eq!(sync.sync(&reg, &vec![], 60).len(), 1);
}

#[test]
fn zero_debounce_reloads_in_same_sync() {
    let (mut reg, mut sync) = fresh(0);
    let f = reg.prepare_key(&path("f"));
    reg.register(id(f, 1), &vec![]).unwrap();
    assert_eq!(sync.sync(&reg, &vec![write("/tmp/R/f")], 10).len(), 1);
}

#[test]
fn event_for_unknown_path_is_ignored() {
    let (mut reg, mut sync) = fresh(50);
    reg.register(id(path("/tmp/R/f"), 1), &vec![]).unwrap();
    assert!(sync.sync(&reg, &vec![write("/tmp/R/other")], 0).is_empty());
    assert!(sync.sync(&reg, &vec![], 1000).is_empty());
}

#[test]
fn non_write_event_is_ignored() {
    let (mut reg, mut sync) = fresh(50);
    reg.register(id(path("/tmp/R/f"), 1), &vec![]).unwrap();
    let ev = FsEvent { path: "/tmp/R/f".to_string(), write: false };
    assert!(sync.sync(&reg, &vec![ev], 0).is_empty());
    assert!(sync.sync(&reg, &vec![], 1000).is_empty());
}

#[test]
fn second_sync_without_events_reloads_nothing() {
    let (mut reg, mut sync) = fresh(50);
    reg.register(id(path("/tmp/R/f"), 1), &vec![]).unwrap();
    sync.sync(&reg, &vec![write("/tmp/R/f")], 0);
    assert_eq!(sync.sync(&reg, &vec![], 100).len(), 1);
    assert!(sync.sync(&reg, &vec![], 100).is_empty());
}

#[test]
fn all_types_under_a_dirty_key_are_planned() {
    let (mut reg, mut sync) = fresh(50);
    reg.register(id(path("/tmp/R/f"), 1), &vec![]).unwrap();
    reg.register(id(path("/tmp/R/f"), 2), &vec![]).unwrap();
    sync.sync(&reg, &vec![write("/tmp/R/f")], 0);
    let due = sync.sync(&reg, &vec![], 50);
    assert_eq!(due, vec![path("/tmp/R/f")]);
    let mut t = tags(&reg.entries_of(&due[0]));
    t.sort();
    assert_eq!(t, vec![1, 2]);
}

#[test]
fn dependents_follow_a_successful_primary() {
    let (mut reg, _) = fresh(50);
    let x = path("/tmp/R/x");
    reg.register(id(x.clone(), 1), &vec![]).unwrap();
    reg.register(id(x.clone(), 2), &vec![]).unwrap();
    reg.register(id(DepKey::Logical("c".to_string()), 3), &vec![path("x")]).unwrap();
    assert_eq!(tags(&reg.dependents_to_reload(&x, &vec![false, true])), vec![3]);
    assert!(reg.dependents_to_reload(&x, &vec![false, false]).is_empty());
    assert!(reg.dependents_to_reload(&x, &vec![]).is_empty());
}

#[test]
fn entries_and_keys_of_registry() {
    let (mut reg, _) = fresh(50);
    let f = path("/tmp/R/f");
    assert!(!reg.has_key(&f));
    reg.register(id(f.clone(), 1), &vec![]).unwrap();
    reg.register(id(f.clone(), 5), &vec![]).unwrap();
    reg.register(id(path("/tmp/R/g"), 1), &vec![]).unwrap();
    assert!(reg.has_key(&f));
    assert!(!reg.has_key(&DepKey::Logical("/tmp/R/f".to_string())));
    let mut t = tags(&reg.entries_of(&f));
    t.sort();
    assert_eq!(t, vec![1, 5]);
    assert!(reg.entries_of(&path("/tmp/R/h")).is_empty());
}

#[test]
fn dequeue_then_take_due() {
    let (mut reg, mut sync) = fresh(50);
    reg.register(id(path("/tmp/R/f"), 1), &vec![]).unwrap();
    reg.register(id(path("/tmp/R/g"), 1), &vec![]).unwrap();
    sync.dequeue_fs_events(&reg, &vec![write("/tmp/R/f")], 0);
    sync.dequeue_fs_events(&reg, &vec![write("/tmp/R/g"), write("/tmp/R/nothing")], 30);
    assert_eq!(sync.take_due(49), Vec::<DepKey>::new());
    assert_eq!(sync.take_due(50), vec![path("/tmp/R/f")]);
    assert_eq!(sync.take_due(50), Vec::<DepKey>::new());
    assert_eq!(sync.take_due(80), vec![path("/tmp/R/g")]);
    assert_eq!(sync.take_due(10_000), Vec::<DepKey>::new());
}

#[test]
fn later_write_restarts_debounce() {
    let (mut reg, mut sync) = fresh(50);
    reg.register(id(path("/tmp/R/f"), 1), &vec![]).unwrap();
    sync.dequeue_fs_events(&reg, &vec![write("/tmp/R/f")], 0);
    sync.dequeue_fs_events(&reg, &vec![write("/tmp/R/f")], 40);
    assert!(sync.take_due(50).is_empty());
    assert_eq!(sync.take_due(90).len(), 1);
}

#[test]
fn clock_going_back_counts_as_no_time() {
    let (mut reg, mut sync) = fresh(50);
    reg.register(id(path("/tmp/R/f"), 1), &vec![]).unwrap();
    sync.dequeue_fs_events(&reg, &vec![write("/tmp/R/f")], 100);
    assert!(sync.take_due(20).is_empty());
    assert_eq!(sync.take_due(150).len(), 1);
}

#[test]
fn dot_components_are_dropped() {
    assert_eq!(canonicalize_path(ROOT, "a/./b"), canonicalize_path(ROOT, "a/b"));
    assert_eq!(canonicalize_path(ROOT, "./zoo.json"), "/tmp/R/zoo.json");
    assert_eq!(canonicalize_path(ROOT, "a/."), "/tmp/R/a");
    assert_eq!(canonicalize_path(ROOT, "a/.b"), "/tmp/R/a/.b");
    assert_eq!(canonicalize_path(ROOT, "a/../b"), "/tmp/R/a/../b");
}

#[test]
fn dependents_registered_during_reload_are_seen() {
    let (mut reg, _) = fresh(50);
    let x = path("/tmp/R/x");
    reg.register(id(x.clone(), 1), &vec![]).unwrap();
    assert!(reg.dependents_to_reload(&x, &vec![true]).is_empty());
    // a reload of x loads a new resource that depends on x
    reg.register(id(DepKey::Logical("d".to_string()), 9), &vec![path("x")]).unwrap();
    assert_eq!(tags(&reg.dependents_to_reload(&x, &vec![true])), vec![9]);
}

#[test]
fn loaded_from_has_no_dependency() {
    let l: Loaded<u8> = Loaded::from(7);
    assert_eq!(l.res, 7);
    assert!(l.deps.is_empty());
}
