//! Packaging of a built program together with the shared libraries it needs,
//! as a self-contained bundle archive.
use vstd::prelude::*;

pub mod archive;
pub mod config;
pub mod deploy;
pub mod generate;
pub mod launcher;
pub mod ldcache;
pub mod manifest;
pub mod paths;

verus! {

/// An item waiting to be written to a bundle.
pub struct FileEntry {
    /// The location on disk of the item.
    pub location: String,
    /// The item's destination path in the bundle.
    pub name: String,
}

impl Clone for FileEntry {
    fn clone(&self) -> (r: FileEntry)
        ensures
            r@ == self@,
    {
        FileEntry { location: self.location.clone(), name: self.name.clone() }
    }
}

impl View for FileEntry {
    type V = (Seq<char>, Seq<char>);

    /// The pair (location, name).
    open spec fn view(&self) -> (Seq<char>, Seq<char>) {
        (self.location@, self.name@)
    }
}

impl FileEntry {
    pub fn new(location: String, name: String) -> (r: FileEntry)
        ensures
            r.location@ == location@,
            r.name@ == name@,
    {
        FileEntry { location, name }
    }
}

} // verus!
