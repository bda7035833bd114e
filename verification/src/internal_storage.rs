//! The application's internal storage (on Android, the data directory of the
//! application).

use vstd::prelude::*;
use crate::storage::{joined_path, places_file, places_path};

verus! {

/// Interface to the application's internal storage.
pub struct InternalStorage {
    /// Root path to the internal storage.
    root: String,
}

impl InternalStorage {
    /// Create a new interface to the storage, using `root` as the root path to
    /// the application's internal storage.
    pub fn new(root: String) -> (s: InternalStorage)
        ensures
            s.root_path() == root@,
    {
        InternalStorage { root }
    }

    /// The text of the root directory of the storage.
    pub closed spec fn root_path(&self) -> Seq<char> {
        self.root@
    }

    /// The root directory of the storage.
    pub fn root(&self) -> (r: &String)
        ensures
            r@ == self.root_path(),
    {
        &self.root
    }

    /// Get the path to the file that stores places retrieved from the geocoding
    /// API that are saved by the user.
    pub fn places(&self) -> (path: String)
        ensures
            path@ == joined_path(self.root_path(), places_file()),
    {
        places_path(self.root.as_str())
    }
}

} // verus!
