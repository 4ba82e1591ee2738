//! A folder of the game directory that holds many subfolders.
use vstd::prelude::*;

verus! {

/// A folder in the game directory that contains many [`super::subfolder::Subfolder`]s.
pub struct ContentFolder {}

impl ContentFolder {
    /// A content folder (it holds nothing of its own).
    pub fn new() -> (r: Self)
        ensures
            r == (ContentFolder {}),
    {
        ContentFolder {}
    }
}

} // verus!
