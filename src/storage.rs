//! Where uploaded matches are kept.

use vstd::prelude::*;

verus! {

/// Keeps each uploaded match as a file in a folder per user.
#[derive(Debug, Clone, PartialEq, Eq)]
pub struct FileStorage {
    folder: String,
}

impl FileStorage {
    pub fn new(folder: String) -> (r: Self)
        ensures
            r.folder_view() == folder@,
    {
        Self { folder }
    }

    pub closed spec fn folder_view(&self) -> Seq<char> {
        self.folder@
    }

    /// The folder that holds the users' folders.
    pub fn folder(&self) -> (r: &String)
        ensures
            r@ == self.folder_view(),
    {
        &self.folder
    }
}

} // verus!
