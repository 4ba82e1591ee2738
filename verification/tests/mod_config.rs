use jackbox_custom_content::mod_config::ModsConfig;

#[test]
fn default_config_has_no_folder() {
    let c = ModsConfig::default();
    assert_eq!(c.get_game_folder(), None);
}

#[test]
fn set_folder_is_read_back() {
    let mut c = ModsConfig::default();
    c.set_game_folder("/games/pp7".to_string());
    assert_eq!(c.get_game_folder(), Some("/games/pp7".to_string()));
    c.reset();
    assert_eq!(c.get_game_folder(), None);
}

#[test]
fn initialize_takes_stored_settings() {
    let mut c = ModsConfig::default();
    let write_first = c.initialize(Some(ModsConfig { folder_path: Some("x".to_string()) }));
    assert!(!write_first);
    assert_eq!(c.get_game_folder(), Some("x".to_string()));
}

#[test]
fn initialize_without_settings_writes_them_first() {
    let mut c = ModsConfig { folder_path: Some("kept".to_string()) };
    let write_first = c.initialize(None);
    assert!(write_first);
    assert_eq!(c.get_game_folder(), Some("kept".to_string()));
}
