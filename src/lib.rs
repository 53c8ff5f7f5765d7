//! Hot-reloading resource cache: keys, dependency bookkeeping and the debounced
//! synchronizer that decides which cached resources must be reloaded.

pub mod key;
pub mod load;
pub mod storage;
pub mod store;
pub mod sync;

pub use key::{DepKey, FSKey, LogicalKey};
pub use load::{Loaded, StoreError, StoreOpt};
