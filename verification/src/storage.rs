//! Where the roster's JSON persistence lives; the file I/O around it is the
//! caller's.

use vstd::prelude::*;

verus! {

/// Names the JSON file a roster is persisted in.
#[derive(Debug, Clone)]
pub struct JsonStorage {
    path: String,
}

impl JsonStorage {
    /// The path of the roster file.
    pub closed spec fn spec_path(&self) -> Seq<char> {
        self.path@
    }

    /// Remembers where the roster is persisted; nothing is touched on disk.
    pub fn open(path: &str) -> (r: Self)
        ensures
            r.spec_path() == path@,
    {
        JsonStorage { path: path.to_owned() }
    }

    pub fn path(&self) -> (r: &str)
        ensures
            r@ == self.spec_path(),
    {
        self.path.as_str()
    }
}

} // verus!
