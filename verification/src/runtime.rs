//! Run-wide data the orchestrator carries around: where bundle data lives
//! on disk for the revision being processed.

use vstd::prelude::*;

verus! {

/// The base data directory and the revision a run works against.
pub struct RuntimeData {
    base_data_path: String,
    revision: String,
}

impl RuntimeData {
    /// Bundles a base data path with the revision under it.
    pub fn new(base_data_path: String, revision: String) -> (r: RuntimeData)
        ensures
            r.base_path() == base_data_path@,
            r.revision() == revision@,
    {
        RuntimeData { base_data_path, revision }
    }

    /// The base data path this run was given.
    pub closed spec fn base_path(&self) -> Seq<char> {
        self.base_data_path@
    }

    /// The revision this run was given.
    pub closed spec fn revision(&self) -> Seq<char> {
        self.revision@
    }

    /// The directory all of this run's data lives under: the base path
    /// with the revision appended as one path segment.
    pub fn get_data_path(&self) -> (r: String)
        ensures
            r@ == self.base_path() + "/"@ + self.revision(),
    {
        let mut path: String = self.base_data_path.clone();
        path.append("/");
        path.append(self.revision.as_str());
        path
    }
}

} // verus!
