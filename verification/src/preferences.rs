//! The preferences window: dark mode, the game folder and the folder that mods are kept in.
use vstd::prelude::*;
use vstd::string::*;

verus! {

/// What the preferences window shows.
pub struct PreferencesWindow {
    pub dark_mode: bool,
    /// The game folder, as shown, and its tooltip.
    pub folder_label: String,
    pub folder_tooltip: String,
    /// The mods folder, as shown, and its tooltip.
    pub mod_folder_label: String,
    pub mod_folder_tooltip: String,
    /// Whether the window is open.
    pub open: bool,
}

/// What is known of a folder that was chosen to keep mods in.
pub struct ModFolderFacts {
    /// Whether its path has a root.
    pub has_root: bool,
    /// Whether it exists.
    pub exists: bool,
    /// Its path.
    pub path: String,
}

impl PreferencesWindow {
    /// The window, showing the stored preferences.
    pub fn new(dark_mode: bool, game_folder: String, mods_folder: String) -> (r: Self)
        ensures
            r.dark_mode == dark_mode,
            r.folder_label@ == game_folder@ && r.folder_tooltip@ == game_folder@,
            r.mod_folder_label@ == mods_folder@ && r.mod_folder_tooltip@ == mods_folder@,
            r.open,
    {
        let mut r = PreferencesWindow {
            dark_mode: false,
            folder_label: String::new(),
            folder_tooltip: String::new(),
            mod_folder_label: String::new(),
            mod_folder_tooltip: String::new(),
            open: true,
        };
        r.init_prefs(dark_mode, game_folder, mods_folder);
        r
    }

    /// Shows the game folder.
    pub fn update_folder_label(&mut self, string: String)
        ensures
            final(self).folder_label@ == string@,
            final(self).folder_tooltip@ == string@,
            final(self).dark_mode == old(self).dark_mode,
            final(self).mod_folder_label == old(self).mod_folder_label,
            final(self).mod_folder_tooltip == old(self).mod_folder_tooltip,
            final(self).open == old(self).open,
    {
        self.folder_tooltip = string.clone();
        self.folder_label = string;
    }

    /// Shows the mods folder.
    pub fn update_mod_folder_label(&mut self, string: String)
        ensures
            final(self).mod_folder_label@ == string@,
            final(self).mod_folder_tooltip@ == string@,
            final(self).dark_mode == old(self).dark_mode,
            final(self).folder_label == old(self).folder_label,
            final(self).folder_tooltip == old(self).folder_tooltip,
            final(self).open == old(self).open,
    {
        self.mod_folder_tooltip = string.clone();
        self.mod_folder_label = string;
    }

    /// Shows the stored preferences.
    pub fn init_prefs(&mut self, dark_mode: bool, game_folder: String, mods_folder: String)
        ensures
            final(self).dark_mode == dark_mode,
            final(self).folder_label@ == game_folder@ && final(self).folder_tooltip@ == game_folder@,
            final(self).mod_folder_label@ == mods_folder@ && final(self).mod_folder_tooltip@ == mods_folder@,
            final(self).open == old(self).open,
    {
        self.dark_mode = dark_mode;
        self.update_folder_label(game_folder);
        self.update_mod_folder_label(mods_folder);
    }

    /// Closes the window.
    pub fn handle_close_prefs(&mut self)
        ensures
            !final(self).open,
            final(self).dark_mode == old(self).dark_mode,
            final(self).folder_label == old(self).folder_label,
            final(self).mod_folder_label == old(self).mod_folder_label,
    {
        self.open = false;
    }

    /// A folder was chosen to keep mods in (or the choice failed, with the error's text): the
    /// path to store, or why it is refused.
    pub fn set_mod_folder(chosen: Result<ModFolderFacts, String>) -> (r: Result<String, String>)
        ensures
            match chosen {
                Err(e) => r matches Err(m) && m@ == e@,
                Ok(f) => if !f.has_root {
                    r matches Err(m) && m@ == "Path does not contain root."@
                } else if !f.exists {
                    r matches Err(m) && m@ == "Path does not exist."@
                } else {
                    r matches Ok(p) && p@ == f.path@
                },
            },
    {
        match chosen {
            Err(e) => Err(e),
            Ok(f) => {
                if !f.has_root {
                    Err(String::from_str("Path does not contain root."))
                } else if !f.exists {
                    Err(String::from_str("Path does not exist."))
                } else {
                    Ok(f.path)
                }
            },
        }
    }
}

} // verus!
