//! The configuration handle: where the tracker's data file lives.

use vstd::prelude::*;

verus! {

/// The user's configuration. `None` for the storage location means the
/// surrounding tooling falls back to its default path. The core treats
/// the location as an opaque handle.
#[derive(Clone, Debug)]
pub struct AppConfig {
    pub storage_location: Option<String>,
}

impl Default for AppConfig {
    /// A fresh configuration: no storage location chosen yet.
    fn default() -> (c: Self)
        ensures
            c.storage_location is None,
    {
        AppConfig { storage_location: None }
    }
}

} // verus!
