//! A mod maker for the Jackbox Party Pack 7: the manifest reader/writer, the content windows'
//! forms, the mods and their content, and the state of the main window, each with the
//! contracts Verus proves of it.
pub mod content;
pub mod content_list;
pub mod content_view;
pub mod forms;
pub mod json;
pub mod mainmenu;
pub mod mod_config;
pub mod mod_manager;
pub mod preferences;
pub mod quiplash3;
pub mod templates;
pub mod text;
pub mod util;
