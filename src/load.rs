//! Load results, store options and store errors.

use vstd::prelude::*;
use crate::key::{DepKey, KeyView};

verus! {

/// Result of a resource loading: the loaded object and the keys of the resources it depends on.
pub struct Loaded<T> {
    /// The loaded object.
    pub res: T,
    /// The dependencies whose reloading must also reload this resource.
    pub deps: Vec<DepKey>,
}

impl<T> Loaded<T> {
    /// A resource declaring no dependency at all.
    pub fn without_dep(res: T) -> (r: Self)
        ensures
            r.res == res,
            r.deps@.len() == 0,
    {
        Loaded { res, deps: Vec::new() }
    }

    /// A resource along with its dependencies.
    pub fn with_deps(res: T, deps: Vec<DepKey>) -> (r: Self)
        ensures
            r.res == res,
            r.deps@ == deps@,
    {
        Loaded { res, deps }
    }
}

impl<T> From<T> for Loaded<T> {
    /// Lifts a value into a result with no dependency, as `without_dep` does.
    fn from(res: T) -> (r: Self)
        ensures
            r.res == res,
            r.deps@.len() == 0,
    {
        Loaded::without_dep(res)
    }
}

impl<T> vstd::std_specs::convert::FromSpecImpl<T> for Loaded<T> {
    // a `Vec` has no value that a spec function can build, so the result is stated over its
    // view in `from`'s own `ensures`
    open spec fn obeys_from_spec() -> bool {
        false
    }

    open spec fn from_spec(v: T) -> Self {
        choose|r: Loaded<T>| r.res == v && r.deps@.len() == 0
    }
}

/// Error that might happen when handling a resource store.
#[derive(Clone, Debug, PartialEq, Eq)]
pub enum StoreError {
    /// The root path of the store could not be resolved to an existing directory.
    RootDoesNotExist(String),
    /// A resource with this key and type is already registered in the store.
    AlreadyRegisteredKey(DepKey),
}

impl StoreError {
    /// A short description of the error.
    pub fn description(&self) -> (r: &'static str)
        ensures
            self is RootDoesNotExist ==> r@ == "root doesn’t exist"@,
            self is AlreadyRegisteredKey ==> r@ == "already registered key"@,
    {
        match self {
            StoreError::RootDoesNotExist(_) => "root doesn’t exist",
            StoreError::AlreadyRegisteredKey(_) => "already registered key",
        }
    }
}

/// Default quiet interval, in milliseconds, between the last write to a file and its reload.
pub const DEFAULT_UPDATE_AWAIT_TIME_MS: u64 = 50;

/// Options to customize a store: its root directory and its debounce interval.
pub struct StoreOpt {
    root: String,
    update_await_time_ms: u64,
}

impl Default for StoreOpt {
    fn default() -> (r: Self)
        ensures
            r.root_view() == "."@,
            r.update_await_time_ms() == DEFAULT_UPDATE_AWAIT_TIME_MS,
    {
        StoreOpt { root: ".".to_owned(), update_await_time_ms: DEFAULT_UPDATE_AWAIT_TIME_MS }
    }
}

impl StoreOpt {
    /// The configured root, as characters.
    pub closed spec fn root_view(&self) -> Seq<char> {
        self.root@
    }

    /// The configured debounce interval.
    pub closed spec fn await_ms(&self) -> u64 {
        self.update_await_time_ms
    }

    /// Change the time (milliseconds) a store waits after the last write to a file before
    /// reloading the resources read from it.
    pub fn set_update_await_time_ms(self, ms: u64) -> (r: Self)
        ensures
            r.await_ms() == ms,
            r.root_view() == self.root_view(),
    {
        StoreOpt { update_await_time_ms: ms, ..self }
    }

    /// The update await time (milliseconds).
    #[verifier::when_used_as_spec(await_ms)]
    pub fn update_await_time_ms(&self) -> (r: u64)
        ensures
            r == self.await_ms(),
    {
        self.update_await_time_ms
    }

    /// Change the root directory from which the store watches file changes.
    pub fn set_root(self, root: &str) -> (r: Self)
        ensures
            r.root_view() == root@,
            r.await_ms() == self.await_ms(),
    {
        StoreOpt { root: root.to_owned(), ..self }
    }

    /// The root directory.
    pub fn root(&self) -> (r: &str)
        ensures
            r@ == self.root_view(),
    {
        self.root.as_str()
    }
}

} // verus!
