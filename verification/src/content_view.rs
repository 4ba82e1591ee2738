//! The list of a mod's content, as the main window shows it.
use vstd::prelude::*;
use vstd::string::*;
use crate::mod_manager::{string_to_id, to_id};

verus! {

/// A row of the content list: whether the content is enabled.
pub struct ContentObject {
    pub enabled: bool,
}

impl ContentObject {
    pub fn new(enabled: bool) -> (r: Self)
        ensures
            r.enabled == enabled,
    {
        ContentObject { enabled }
    }
}

/// The content list of one mod: its name, its id, and its rows.
pub struct ContentList {
    pub name: String,
    pub id: String,
    pub model: Vec<ContentObject>,
}

impl ContentList {
    /// A new mod named `name`: refused where its folder exists already (the caller then makes
    /// the folder, with the party pack's folder in it).
    pub fn new(name: String, folder_exists: bool) -> (r: Result<Self, String>)
        ensures
            folder_exists ==> (r matches Err(m) && m@ == "Folder "@ + name@ + " already exists."@),
            !folder_exists ==> (r matches Ok(l) && l.name@ == name@ && l.id@ == to_id(name@) && l.model@.len() == 0),
    {
        if folder_exists {
            let mut msg = String::from_str("Folder ");
            msg.append(name.as_str());
            msg.append(" already exists.");
            return Err(msg);
        }
        Ok(ContentList::create(name))
    }

    /// The mod whose folder is named `name`.
    pub fn from_folder(name: String) -> (r: Self)
        ensures
            r.name@ == name@,
            r.id@ == to_id(name@),
            r.model@.len() == 0,
    {
        ContentList::create(name)
    }

    fn create(name: String) -> (r: Self)
        ensures
            r.name@ == name@,
            r.id@ == to_id(name@),
            r.model@.len() == 0,
    {
        let id = ContentList::string_to_id(&name);
        ContentList { name, id, model: Vec::new() }
    }

    /// The id of a name: ASCII lower case, each space replaced by `_`.
    pub fn string_to_id(string: &String) -> (r: String)
        ensures
            r@ == to_id(string@),
    {
        string_to_id(string)
    }
}

} // verus!
