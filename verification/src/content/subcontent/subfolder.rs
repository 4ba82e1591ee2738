//! A subfolder of a game's content folder.
use vstd::prelude::*;

verus! {

/// A sub-folder of a game's content folder for content to be in.
pub struct Subfolder {
    /// The location that this subfolder goes into.
    sublocation: String,
}

impl Subfolder {
    /// A subfolder at the empty location.
    pub fn new() -> (r: Self)
        ensures
            r.sublocation()@ == Seq::<char>::empty(),
    {
        Subfolder { sublocation: String::new() }
    }

    /// The location that this subfolder goes into.
    pub closed spec fn sublocation(&self) -> String {
        self.sublocation
    }
}

} // verus!
