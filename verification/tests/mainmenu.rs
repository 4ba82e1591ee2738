use jackbox_custom_content::mainmenu::{FolderChoice, FolderFacts, MainMenuWindow};

fn facts(has_root: bool, exists: bool, file_name: Option<&str>, games_exists: bool, parent_name: Option<&str>) -> FolderFacts {
    FolderFacts {
        has_root,
        exists,
        file_name: file_name.map(|s| s.to_string()),
        games_exists,
        parent_name: parent_name.map(|s| s.to_string()),
    }
}

#[test]
fn first_mod_prompt_without_mods() {
    let w = MainMenuWindow::new();
    assert_eq!(w.visible_mod_stack_name(), None);
}

#[test]
fn added_mod_is_shown() {
    let mut w = MainMenuWindow::new();
    w.add_mod_to_stack("First".to_string());
    assert_eq!(w.visible_mod_stack_name(), Some("First".to_string()));
    w.add_mod_to_stack("Second".to_string());
    assert_eq!(w.visible_mod_stack_name(), Some("Second".to_string()));
}

#[test]
fn removed_mod_shows_the_next() {
    let mut w = MainMenuWindow::new();
    w.add_mod_to_stack("A".to_string());
    w.add_mod_to_stack("B".to_string());
    w.add_mod_to_stack("C".to_string());
    w.remove_mod_from_stack(&"B".to_string());
    assert_eq!(w.visible_mod_stack_name(), Some("C".to_string()));
    w.remove_mod_from_stack(&"C".to_string());
    assert_eq!(w.visible_mod_stack_name(), Some("A".to_string()));
    w.remove_mod_from_stack(&"A".to_string());
    assert_eq!(w.visible_mod_stack_name(), None);
}

#[test]
fn removed_first_mod_shows_the_one_after() {
    let mut w = MainMenuWindow::new();
    w.add_mod_to_stack("A".to_string());
    w.add_mod_to_stack("B".to_string());
    w.remove_mod_from_stack(&"A".to_string());
    assert_eq!(w.visible_mod_stack_name(), Some("B".to_string()));
}

#[test]
fn cleared_stack_shows_nothing() {
    let mut w = MainMenuWindow::new();
    w.add_mod_to_stack("A".to_string());
    w.add_mod_to_stack("B".to_string());
    w.clear_mods_stack();
    assert_eq!(w.visible_mod_stack_name(), None);
    w.add_mod_to_stack("C".to_string());
    assert_eq!(w.visible_mod_stack_name(), Some("C".to_string()));
}

#[test]
fn pack_folder_uses_games_subfolder() {
    let f = facts(true, true, Some("The Jackbox Party Pack 7"), true, Some("steamapps"));
    assert_eq!(MainMenuWindow::verify_folder(&f), Ok(FolderChoice::Games));
}

#[test]
fn games_folder_used_as_chosen() {
    let f = facts(true, true, Some("games"), false, Some("The Jackbox Party Pack 7"));
    assert_eq!(MainMenuWindow::verify_folder(&f), Ok(FolderChoice::AsChosen));
}

#[test]
fn folder_errors() {
    assert_eq!(
        MainMenuWindow::verify_folder(&facts(false, true, Some("games"), true, None)),
        Err("Path does not contain root.".to_string())
    );
    assert_eq!(
        MainMenuWindow::verify_folder(&facts(true, false, Some("games"), true, None)),
        Err("Path does not exist.".to_string())
    );
    assert_eq!(
        MainMenuWindow::verify_folder(&facts(true, true, Some("The Jackbox Party Pack 7"), false, None)),
        Err("Could not find games subdirectory.".to_string())
    );
    assert_eq!(
        MainMenuWindow::verify_folder(&facts(true, true, Some("games"), false, Some("Other"))),
        Err("games subdirectory not in Jackbox Party Pack 7 folder.".to_string())
    );
    assert_eq!(
        MainMenuWindow::verify_folder(&facts(true, true, Some("Downloads"), false, None)),
        Err("Could not find Jackbox Party Pack 7 directory.".to_string())
    );
    assert_eq!(
        MainMenuWindow::verify_folder(&facts(true, true, None, false, None)),
        Err("Could not find Jackbox Party Pack 7 directory.".to_string())
    );
}

#[test]
fn invalid_choice_reported_plainly() {
    assert_eq!(
        MainMenuWindow::choose_folder(&facts(true, true, Some("Downloads"), false, None)),
        Err("Selection was not a valid folder.".to_string())
    );
    assert_eq!(
        MainMenuWindow::choose_folder(&facts(true, true, Some("games"), false, Some("The Jackbox Party Pack 7"))),
        Ok(FolderChoice::AsChosen)
    );
}

#[test]
fn folder_setup_and_storage() {
    let mut w = MainMenuWindow::new();
    w.setup_folder_selection(&facts(true, false, None, false, None));
    w.folder_stored();
    w.setup_folder_selection(&facts(true, true, Some("games"), false, Some("The Jackbox Party Pack 7")));
    assert_eq!(w.visible_mod_stack_name(), None);
}

#[test]
fn stack_change_shows_editor_for_a_mod() {
    let mut w = MainMenuWindow::new();
    assert!(w.first_new_mod_visible());
    assert!(!w.mod_editor_visible());
    assert!(!w.new_content_visible());
    w.add_mod_to_stack("Mine".to_string());
    assert!(!w.first_new_mod_visible());
    assert!(w.mod_editor_visible());
    assert!(w.new_content_visible());
    assert_eq!(w.toolbar_name(), "Mine");
    assert_eq!(w.page_names(), vec!["Mine".to_string()]);
}

#[test]
fn no_new_content_for_all() {
    let mut w = MainMenuWindow::new();
    w.add_mod_to_stack("All".to_string());
    assert!(w.mod_editor_visible());
    assert!(!w.new_content_visible());
    assert_eq!(w.toolbar_name(), "All");
}

#[test]
fn removing_last_mod_shows_first_mod_prompt() {
    let mut w = MainMenuWindow::new();
    w.add_mod_to_stack("Only".to_string());
    w.remove_mod_from_stack(&"Only".to_string());
    assert!(w.first_new_mod_visible());
    assert!(!w.mod_editor_visible());
    assert!(!w.new_content_visible());
    assert!(w.page_names().is_empty());
}

#[test]
fn invalid_stored_folder_hides_creation() {
    let mut w = MainMenuWindow::new();
    w.add_mod_to_stack("M".to_string());
    w.setup_folder_selection(&facts(true, false, None, false, None));
    assert!(!w.mod_editor_visible());
    assert!(!w.first_new_mod_visible());
    assert!(!w.new_content_visible());
    assert!(w.folder_box_visible());
    w.folder_stored();
    assert!(w.mod_editor_visible());
    assert!(w.first_new_mod_visible());
    assert!(w.new_content_visible());
    assert!(!w.folder_box_visible());
}

#[test]
fn valid_stored_folder_changes_nothing() {
    let mut w = MainMenuWindow::new();
    w.setup_folder_selection(&facts(true, true, Some("The Jackbox Party Pack 7"), true, None));
    assert!(w.first_new_mod_visible());
    assert!(!w.folder_box_visible());
}

#[test]
fn duplicate_names_show_the_first_page() {
    let mut w = MainMenuWindow::new();
    w.add_mod_to_stack("A".to_string());
    w.add_mod_to_stack("B".to_string());
    w.add_mod_to_stack("A".to_string());
    assert_eq!(w.page_names(), vec!["A".to_string(), "B".to_string(), "A".to_string()]);
    assert_eq!(w.visible_mod_stack_name(), Some("A".to_string()));
    w.remove_mod_from_stack(&"A".to_string());
    assert_eq!(w.page_names(), vec!["B".to_string(), "A".to_string()]);
    assert_eq!(w.visible_mod_stack_name(), Some("B".to_string()));
}

#[test]
fn added_then_removed_page_restores_stack() {
    let mut w = MainMenuWindow::new();
    w.add_mod_to_stack("A".to_string());
    w.add_mod_to_stack("B".to_string());
    let before = w.page_names();
    w.add_mod_to_stack("New".to_string());
    w.remove_mod_from_stack(&"New".to_string());
    assert_eq!(w.page_names(), before);
}
