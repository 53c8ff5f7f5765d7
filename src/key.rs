//! Resource keys and their canonicalization against a store root.
//!
//! A filesystem key names a file below the store's root: a leading separator is optional,
//! empty and `.` components are dropped, and the canonical form is the root joined with the
//! relative part. A logical key is an opaque string and is its own canonical form.

use vstd::prelude::*;

verus! {

/// Mathematical form of a dependency key.
pub enum KeyView {
    Path(Seq<char>),
    Logical(Seq<char>),
}

/// `out` with the component `cur` appended: an empty component or `.` names no directory and
/// is dropped; the others are separated by one separator.
pub open spec fn flush(out: Seq<char>, cur: Seq<char>) -> Seq<char> {
    if cur.len() == 0 || cur == seq!['.'] {
        out
    } else if out.len() == 0 {
        cur
    } else {
        out + seq!['/'] + cur
    }
}

/// Reading `s` from the left: the components completed so far, joined, and the component in
/// progress.
pub open spec fn scan(s: Seq<char>) -> (Seq<char>, Seq<char>)
    decreases s.len(),
{
    if s.len() == 0 {
        (Seq::empty(), Seq::empty())
    } else {
        let prev = scan(s.drop_last());
        if s.last() == '/' {
            (flush(prev.0, prev.1), Seq::empty())
        } else {
            (prev.0, prev.1.push(s.last()))
        }
    }
}

/// The part of `p` below the root: its components other than empty ones and `.`, joined by
/// single separators.
pub open spec fn relative_part(p: Seq<char>) -> Seq<char> {
    flush(scan(p).0, scan(p).1)
}

/// `root` followed by the relative path `rel`, with exactly one separator between them.
pub open spec fn join_root(root: Seq<char>, rel: Seq<char>) -> Seq<char> {
    if rel.len() == 0 {
        root
    } else if root.len() > 0 && root.last() == '/' {
        root + rel
    } else {
        root + seq!['/'] + rel
    }
}

/// Canonical absolute form of the path `p` under `root`.
pub open spec fn canonical_path(root: Seq<char>, p: Seq<char>) -> Seq<char> {
    join_root(root, relative_part(p))
}

/// Canonical form of a dependency key under `root`.
pub open spec fn canonical_key(root: Seq<char>, k: KeyView) -> KeyView {
    match k {
        KeyView::Path(p) => KeyView::Path(canonical_path(root, p)),
        KeyView::Logical(s) => KeyView::Logical(s),
    }
}

proof fn lemma_scan_leading_separator(p: Seq<char>)
    ensures
        scan(seq!['/'] + p) == scan(p),
    decreases p.len(),
{
    if p.len() == 0 {
        assert(seq!['/'].drop_last() =~= Seq::<char>::empty());
        assert(scan(seq!['/']) == scan(Seq::<char>::empty()));
        assert(seq!['/'] + p =~= seq!['/']);
    } else {
        let q = seq!['/'] + p;
        assert(q.drop_last() =~= seq!['/'] + p.drop_last());
        lemma_scan_leading_separator(p.drop_last());
    }
}

/// A path key written with a leading separator names the same resource as the one
/// written without it.
pub proof fn lemma_leading_separator_ignored(root: Seq<char>, p: Seq<char>)
    ensures
        canonical_path(root, seq!['/'] + p) == canonical_path(root, p),
{
    lemma_scan_leading_separator(p);
}

fn append_component(out: &mut String, cur: &String)
    ensures
        final(out)@ == flush(old(out)@, cur@),
{
    let m = cur.unicode_len();
    if m == 0 {
        return;
    }
    if m == 1 && cur.as_str().get_char(0) == '.' {
        assert(cur@ =~= seq!['.']);
        return;
    }
    assert(cur@ != seq!['.']) by {
        if cur@ == seq!['.'] {
            assert(cur@[0] == '.');
        }
    }
    if out.unicode_len() > 0 {
        proof {
            reveal_strlit("/");
        }
        out.append("/");
    }
    out.append(cur.as_str());
}

/// Computes `canonical_path(root, path)`.
pub fn canonicalize_path(root: &str, path: &str) -> (r: String)
    ensures
        r@ == canonical_path(root@, path@),
{
    let n = path.unicode_len();
    let mut rel = String::new();
    let mut cur = String::new();
    let mut i: usize = 0;
    while i < n
        invariant
            n == path@.len(),
            i <= n,
            (rel@, cur@) == scan(path@.take(i as int)),
        decreases n - i,
    {
        let c = path.get_char(i);
        assert(path@.take(i as int + 1).drop_last() =~= path@.take(i as int));
        if c == '/' {
            append_component(&mut rel, &cur);
            cur = String::new();
        } else {
            cur.append(path.substring_char(i, i + 1));
            assert(cur@ =~= scan(path@.take(i as int)).1.push(c));
        }
        i = i + 1;
    }
    assert(path@.take(n as int) =~= path@);
    append_component(&mut rel, &cur);
    let rl = root.unicode_len();
    let mut r = root.to_owned();
    if rel.unicode_len() == 0 {
        return r;
    }
    if rl > 0 && root.get_char(rl - 1) == '/' {
        r.append(rel.as_str());
    } else {
        proof {
            reveal_strlit("/");
        }
        r.append("/");
        r.append(rel.as_str());
    }
    r
}

/// Key of a resource that lives on the filesystem, relative to the store's root.
#[derive(Clone, Debug, Hash, PartialEq, Eq)]
pub struct FSKey {
    pub path: String,
}

/// Key of a resource that has no direct filesystem representation.
#[derive(Clone, Debug, Hash, PartialEq, Eq)]
pub struct LogicalKey {
    pub name: String,
}

/// Key used in the dependency graph: either a filesystem key or a logical key.
#[derive(Debug, Hash)]
pub enum DepKey {
    Path(String),
    Logical(String),
}

impl View for DepKey {
    type V = KeyView;

    open spec fn view(&self) -> KeyView {
        match self {
            DepKey::Path(p) => KeyView::Path(p@),
            DepKey::Logical(s) => KeyView::Logical(s@),
        }
    }
}

impl Clone for DepKey {
    fn clone(&self) -> (r: Self)
        ensures
            r@ == self@,
    {
        match self {
            DepKey::Path(p) => DepKey::Path(p.clone()),
            DepKey::Logical(s) => DepKey::Logical(s.clone()),
        }
    }
}

impl PartialEq for DepKey {
    fn eq(&self, o: &DepKey) -> (r: bool)
        ensures
            r == (self@ == o@),
    {
        match (self, o) {
            (DepKey::Path(a), DepKey::Path(b)) => a.eq(b),
            (DepKey::Logical(a), DepKey::Logical(b)) => a.eq(b),
            _ => false,
        }
    }
}

impl vstd::std_specs::cmp::PartialEqSpecImpl for DepKey {
    open spec fn obeys_eq_spec() -> bool {
        true
    }

    open spec fn eq_spec(&self, o: &DepKey) -> bool {
        self@ == o@
    }
}

impl Eq for DepKey {
}

impl DepKey {
    /// Canonical form of this key under the canonical root `root`.
    pub fn prepare_key(&self, root: &str) -> (r: DepKey)
        ensures
            r@ == canonical_key(root@, self@),
    {
        match self {
            DepKey::Path(p) => DepKey::Path(canonicalize_path(root, p.as_str())),
            DepKey::Logical(s) => DepKey::Logical(s.clone()),
        }
    }
}

impl FSKey {
    /// A key for the file at `path`, read relative to the store's root.
    pub fn new(path: &str) -> (r: FSKey)
        ensures
            r.path@ == path@,
    {
        FSKey { path: path.to_owned() }
    }

    /// Canonical form of this key under the canonical root `root`.
    pub fn prepare_key(&self, root: &str) -> (r: FSKey)
        ensures
            r.path@ == canonical_path(root@, self.path@),
    {
        FSKey { path: canonicalize_path(root, self.path.as_str()) }
    }

    /// The dependency key naming the same file.
    pub fn to_dep_key(&self) -> (r: DepKey)
        ensures
            r@ == KeyView::Path(self.path@),
    {
        DepKey::Path(self.path.clone())
    }
}

impl LogicalKey {
    /// A logical key with the given name.
    pub fn new(name: &str) -> (r: LogicalKey)
        ensures
            r.name@ == name@,
    {
        LogicalKey { name: name.to_owned() }
    }

    /// Logical keys are their own canonical form.
    pub fn prepare_key(&self, root: &str) -> (r: LogicalKey)
        ensures
            r.name@ == self.name@,
    {
        LogicalKey { name: self.name.clone() }
    }

    /// The dependency key naming the same logical resource.
    pub fn to_dep_key(&self) -> (r: DepKey)
        ensures
            r@ == KeyView::Logical(self.name@),
    {
        DepKey::Logical(self.name.clone())
    }
}

} // verus!
