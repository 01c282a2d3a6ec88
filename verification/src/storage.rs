//! The storage location holder: remembers where data lives on disk.
//! Creating the directory itself is an edge concern handled outside the
//! library.

use vstd::prelude::*;

verus! {

/// Storage manager for data persistence.
#[derive(Debug)]
pub struct Storage {
    /// The data directory path.
    pub data_dir: String,
}

impl Storage {
    /// A storage handle for this data directory.
    pub fn new(data_dir: String) -> (s: Storage)
        ensures
            s.data_dir == data_dir,
    {
        Storage { data_dir }
    }

    /// The data directory path.
    pub fn data_dir(&self) -> (r: &String)
        ensures
            r == self.data_dir,
    {
        &self.data_dir
    }
}

} // verus!
