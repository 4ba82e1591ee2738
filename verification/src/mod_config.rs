//! The settings that outlive a session: where the game folder is.
//!
//! They are stored in `settings.json`; reading and writing that file is left to the caller,
//! which hands the stored settings to [`ModsConfig::initialize`] and writes them out again
//! when a method asks it to.
use vstd::prelude::*;

verus! {

/// The stored settings.
pub struct ModsConfig {
    pub folder_path: Option<String>,
}

/// The model of the settings: the game folder, if one was chosen.
pub open spec fn folder_view(f: Option<String>) -> Option<Seq<char>> {
    match f {
        Some(s) => Some(s@),
        None => None,
    }
}

impl View for ModsConfig {
    type V = Option<Seq<char>>;

    open spec fn view(&self) -> Option<Seq<char>> {
        folder_view(self.folder_path)
    }
}

impl Default for ModsConfig {
    fn default() -> (r: Self)
        ensures
            r@ is None,
    {
        ModsConfig { folder_path: None }
    }
}

fn copy_folder(f: &Option<String>) -> (r: Option<String>)
    ensures
        folder_view(r) == folder_view(*f),
{
    match f {
        Some(s) => Some(s.clone()),
        None => None,
    }
}

impl ModsConfig {
    /// Takes on the settings that were stored. With none stored, the settings stay as they
    /// are and the result says that they must be written out first (so that the file exists
    /// from then on).
    pub fn initialize(&mut self, stored: Option<ModsConfig>) -> (write_first: bool)
        ensures
            write_first == stored is None,
            final(self)@ == (match stored {
                Some(c) => c@,
                None => old(self)@,
            }),
    {
        match stored {
            Some(c) => {
                *self = c;
                false
            },
            None => true,
        }
    }

    /// Forgets the stored settings.
    pub fn reset(&mut self)
        ensures
            final(self)@ is None,
    {
        *self = ModsConfig::default();
    }

    /// Sets the game folder; the settings must then be written out.
    pub fn set_game_folder(&mut self, folder: String)
        ensures
            final(self)@ == Some(folder@),
    {
        self.folder_path = Some(folder);
    }

    /// The game folder, if one was chosen.
    pub fn get_game_folder(&self) -> (r: Option<String>)
        ensures
            folder_view(r) == self@,
    {
        copy_folder(&self.folder_path)
    }
}

} // verus!
