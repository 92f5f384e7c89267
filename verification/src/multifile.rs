//! Stores that keep their data in several files.

use vstd::prelude::*;

pub mod delete;
pub mod fixed;

verus! {

/// The root under which every store keeps its directory.
#[derive(Debug)]
pub struct MultiFile {
    root: String,
}

impl MultiFile {
    /// The root as given to `new`.
    pub closed spec fn root_view(&self) -> Seq<char> {
        self.root@
    }

    pub fn new(root: String) -> (f: MultiFile)
        ensures
            f.root_view() == root@,
    {
        MultiFile { root: root }
    }

    /// The root directory.
    pub fn root(&self) -> (r: &String)
        ensures
            r@ == self.root_view(),
    {
        &self.root
    }
}

} // verus!
