use jackbox_custom_content::preferences::{ModFolderFacts, PreferencesWindow};

#[test]
fn preferences_show_stored_values() {
    let p = PreferencesWindow::new(true, "/g".to_string(), "/m".to_string());
    assert!(p.dark_mode);
    assert_eq!(p.folder_label, "/g");
    assert_eq!(p.folder_tooltip, "/g");
    assert_eq!(p.mod_folder_label, "/m");
    assert_eq!(p.mod_folder_tooltip, "/m");
    assert!(p.open);
}

#[test]
fn labels_update_and_window_closes() {
    let mut p = PreferencesWindow::new(false, String::new(), String::new());
    p.update_folder_label("/games".to_string());
    p.update_mod_folder_label("/mods".to_string());
    assert_eq!(p.folder_label, "/games");
    assert_eq!(p.mod_folder_tooltip, "/mods");
    p.handle_close_prefs();
    assert!(!p.open);
    assert_eq!(p.folder_label, "/games");
}

#[test]
fn mod_folder_choice() {
    let ok = PreferencesWindow::set_mod_folder(Ok(ModFolderFacts { has_root: true, exists: true, path: "/home/m".to_string() }));
    assert_eq!(ok, Ok("/home/m".to_string()));
    let no_root = PreferencesWindow::set_mod_folder(Ok(ModFolderFacts { has_root: false, exists: true, path: "m".to_string() }));
    assert_eq!(no_root, Err("Path does not contain root.".to_string()));
    let missing = PreferencesWindow::set_mod_folder(Ok(ModFolderFacts { has_root: true, exists: false, path: "/m".to_string() }));
    assert_eq!(missing, Err("Path does not exist.".to_string()));
    let failed = PreferencesWindow::set_mod_folder(Err("Dismissed by user".to_string()));
    assert_eq!(failed, Err("Dismissed by user".to_string()));
}
