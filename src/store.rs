//! Opening a store: the root must resolve to an existing directory.

use vstd::prelude::*;
use crate::key::KeyView;
use crate::load::{StoreError, StoreOpt};
use crate::storage::Registry;
use crate::sync::Synchronizer;

verus! {

/// Starts the bookkeeping of a store configured by `opt`, given what resolving the configured
/// root produced: the canonical directory, or `None` where it does not resolve.
pub fn open_store(opt: &StoreOpt, canonical_root: Option<String>) -> (r: Result<(Registry, Synchronizer), StoreError>)
    ensures
        canonical_root is None ==> (r matches Err(StoreError::RootDoesNotExist(p)) && p@ == opt.root_view()),
        canonical_root matches Some(c) ==> (r matches Ok((reg, sync)) && {
            &&& reg.wf()
            &&& reg.root_view() == c@
            &&& reg.registered() == Set::<(KeyView, u64)>::empty()
            &&& reg.dependency_edges() == Set::<(KeyView, KeyView)>::empty()
            &&& sync.wf()
            &&& sync.dirty() == Set::<(KeyView, u64)>::empty()
            &&& sync.await_ms() == opt.await_ms()
        }),
{
    match canonical_root {
        None => Err(StoreError::RootDoesNotExist(opt.root().to_owned())),
        Some(root) => Ok((Registry::new(root), Synchronizer::new(opt.update_await_time_ms()))),
    }
}

} // verus!
