use jackbox_custom_content::content_view::{ContentList, ContentObject};
use jackbox_custom_content::mainmenu::MainMenuWindow;
use jackbox_custom_content::content::subcontent::content_folder::ContentFolder;
use jackbox_custom_content::content::subcontent::manifest::ManifestItem;
use jackbox_custom_content::content::subcontent::subfolder::Subfolder;
use jackbox_custom_content::content::subcontent::{Subcontent, SubcontentBox};
use jackbox_custom_content::mod_manager::{string_to_id, u32_to_decimal, ContentData, ModManager, ModStore};

fn json_object(text: &str) -> serde_json::Map<String, serde_json::Value> {
    serde_json::from_str::<serde_json::Map<String, serde_json::Value>>(text).unwrap()
}

#[test]
fn ids_are_lowercase_with_underscores() {
    assert_eq!(string_to_id(&"My Cool Mod".to_string()), "my_cool_mod");
    assert_eq!(string_to_id(&"ABC xyz 123".to_string()), "abc_xyz_123");
    assert_eq!(string_to_id(&"".to_string()), "");
    assert_eq!(string_to_id(&"Ünïcode Ä".to_string()), "Ünïcode_Ä");
    assert_eq!(string_to_id(&"  ".to_string()), "__");
}

#[test]
fn ids_are_stable() {
    let once = string_to_id(&"Party Pack Seven".to_string());
    assert_eq!(string_to_id(&once), once);
}

#[test]
fn numbers_in_decimal() {
    assert_eq!(u32_to_decimal(0), "0");
    assert_eq!(u32_to_decimal(7), "7");
    assert_eq!(u32_to_decimal(10), "10");
    assert_eq!(u32_to_decimal(305), "305");
    assert_eq!(u32_to_decimal(u32::MAX), "4294967295");
}

#[test]
fn content_data_starts_empty() {
    let d = ContentData::new(3, "mod_3".to_string(), "pack/game".to_string());
    assert_eq!(d.id, 3);
    assert_eq!(d.full_id(), "mod_3");
    assert_eq!(d.relative_path(), "pack/game");
    assert!(!d.enabled);
    assert_eq!(d.content_type, "");
    assert!(d.subcontent().is_empty());
    assert!(d.subcontent_args().is_empty());
}

#[test]
fn content_data_takes_its_chunks() {
    let mut d = ContentData::new(0, "m_0".to_string(), "x".to_string());
    d.set_subcontent(
        vec![SubcontentBox::Manifest(ManifestItem::new(json_object("{}"))), SubcontentBox::Subfolder(Subfolder::new())],
        vec![vec!["manifest.jet".to_string()], vec![]],
    );
    assert_eq!(d.subcontent().len(), 2);
    assert_eq!(d.subcontent_args()[0], vec!["manifest.jet".to_string()]);
    assert_eq!(d.full_id(), "m_0");
}

#[test]
fn mod_from_folder() {
    let m = ModStore::from_folder("My Mod".to_string(), "./mods/My Mod".to_string());
    assert_eq!(m.name(), "My Mod");
    assert_eq!(m.id(), "my_mod");
    assert_eq!(m.mod_folder(), "./mods/My Mod");
    assert_eq!(m.n_items(), 0);
}

#[test]
fn mod_in_new_folder() {
    let m = ModStore::new_folder(&"./mods".to_string(), "Second Mod".to_string());
    assert_eq!(m.name(), "Second Mod");
    assert_eq!(m.id(), "second_mod");
    assert_eq!(m.mod_folder(), std::path::Path::new("./mods").join("Second Mod").to_string_lossy());
    assert_eq!(m.n_items(), 0);
}

#[test]
fn new_folder_is_base_then_name() {
    let m = ModStore::new_folder(&"base/mods".to_string(), "My Mod".to_string());
    let folder = m.mod_folder();
    assert!(folder.starts_with("base/mods"));
    assert!(folder.ends_with("My Mod"));
    assert!(folder.len() <= "base/mods".len() + "My Mod".len() + 1);
    assert_eq!(folder, std::path::Path::new("base/mods").join("My Mod").to_string_lossy());
    let n = ModStore::new_folder(&"base/".to_string(), "x".to_string());
    assert_eq!(n.mod_folder().len(), "base/".len() + 1);
}

#[test]
fn content_numbered_in_order() {
    let mut m = ModStore::from_folder("Big Mod".to_string(), "d".to_string());
    let first = m.new_content_data("pp7/Quiplash3".to_string(), vec![], vec![]);
    assert_eq!(first.id, 0);
    assert_eq!(first.full_id(), "big_mod_0");
    assert_eq!(first.relative_path(), "pp7/Quiplash3");
    m.read_manifest_content(first);
    let second = m.new_content_data("g".to_string(), vec![SubcontentBox::ContentFolder(ContentFolder::new())], vec![vec![]]);
    assert_eq!(second.id, 1);
    assert_eq!(second.full_id(), "big_mod_1");
    assert_eq!(second.subcontent().len(), 1);
    m.read_manifest_content(second);
    assert_eq!(m.n_items(), 2);
    assert_eq!(m.item(1).full_id(), "big_mod_1");
}

#[test]
fn content_written_to_mod_manifest() {
    let m = ModStore::from_folder("Mod".to_string(), "d".to_string());
    let data = m.new_content_data("g".to_string(), vec![], vec![]);
    let out = m.write_to_manifest(&data, json_object(r#"{"enabled": false}"#), None).unwrap().unwrap();
    assert_eq!(String::from_utf8(out.clone()).unwrap(), r#"[{"enabled":false,"id":"mod_0"}]"#);
    let again = m.write_to_manifest(&data, json_object(r#"{"enabled": true}"#), Some(out)).unwrap().unwrap();
    assert_eq!(String::from_utf8(again).unwrap(), r#"[{"enabled":true,"id":"mod_0"}]"#);
}

#[test]
fn mods_found_by_name() {
    let mut mm = ModManager::new();
    assert!(mm.get_mod(&"A".to_string()).is_none());
    mm.add_mod(ModStore::from_folder("A".to_string(), "a1".to_string()));
    mm.add_mod(ModStore::from_folder("B".to_string(), "b".to_string()));
    assert_eq!(mm.get_mod(&"A".to_string()).unwrap().mod_folder(), "a1");
    assert_eq!(mm.get_mod(&"B".to_string()).unwrap().mod_folder(), "b");
    assert!(mm.get_mod(&"C".to_string()).is_none());
}

#[test]
fn added_mod_replaces_same_name() {
    let mut mm = ModManager::new();
    mm.add_mod(ModStore::from_folder("A".to_string(), "a1".to_string()));
    mm.add_mod(ModStore::from_folder("A".to_string(), "a2".to_string()));
    assert_eq!(mm.get_mod(&"A".to_string()).unwrap().mod_folder(), "a2");
}

#[test]
fn deleted_mod_is_gone() {
    let mut mm = ModManager::new();
    mm.add_mod(ModStore::from_folder("A".to_string(), "a".to_string()));
    mm.add_mod(ModStore::from_folder("B".to_string(), "b".to_string()));
    mm.delete_mod(&"A".to_string());
    assert!(mm.get_mod(&"A".to_string()).is_none());
    assert_eq!(mm.get_mod(&"B".to_string()).unwrap().mod_folder(), "b");
    mm.delete_mod(&"Z".to_string());
    assert!(mm.get_mod(&"B".to_string()).is_some());
    mm.clear_mods();
    assert!(mm.get_mod(&"B".to_string()).is_none());
}

#[test]
fn subcontent_downcasts_to_its_kind() {
    let b = SubcontentBox::Manifest(ManifestItem::new(json_object(r#"{"k": 1}"#)));
    let m = b.downcast_ref::<ManifestItem>().expect("a manifest item");
    assert_eq!(m.content(), serde_json::from_str::<serde_json::Value>(r#"{"k": 1}"#).unwrap());
    assert!(b.downcast_ref::<Subfolder>().is_none());
    assert!(b.downcast_ref::<ContentFolder>().is_none());
    let f = SubcontentBox::ContentFolder(ContentFolder::new());
    assert!(f.downcast_ref::<ContentFolder>().is_some());
    assert!(f.downcast_ref::<ManifestItem>().is_none());
    let s = Subfolder::new();
    assert!(s.downcast_ref::<Subfolder>().is_some());
    assert!(s.downcast_ref::<ManifestItem>().is_none());
}

#[test]
fn content_list_of_new_mod() {
    let l = ContentList::new("Fresh Mod".to_string(), false).unwrap();
    assert_eq!(l.name, "Fresh Mod");
    assert_eq!(l.id, "fresh_mod");
    assert!(l.model.is_empty());
    match ContentList::new("Taken".to_string(), true) {
        Err(m) => assert_eq!(m, "Folder Taken already exists."),
        Ok(_) => panic!("the folder exists"),
    }
    let f = ContentList::from_folder("Old One".to_string());
    assert_eq!(f.id, ContentList::string_to_id(&"Old One".to_string()));
    assert!(ContentObject::new(true).enabled);
}

#[test]
fn deletion_asks_about_the_mod_shown() {
    let mm = ModManager::new();
    let mut w = MainMenuWindow::new();
    assert!(mm.start_mod_deletion(&w).is_none());
    w.add_mod_to_stack("Doomed".to_string());
    let (name, question) = mm.start_mod_deletion(&w).unwrap();
    assert_eq!(name, "Doomed");
    assert_eq!(question, "Are you sure you want to delete Doomed?");
}

#[test]
fn store_ids_from_names() {
    assert_eq!(ModStore::string_to_id(&"Mod Store Name".to_string()), "mod_store_name");
}

#[test]
fn added_then_deleted_mod_leaves_others() {
    let mut mm = ModManager::new();
    mm.add_mod(ModStore::from_folder("Keep".to_string(), "k".to_string()));
    mm.add_mod(ModStore::from_folder("Temp".to_string(), "t".to_string()));
    mm.delete_mod(&"Temp".to_string());
    assert!(mm.get_mod(&"Temp".to_string()).is_none());
    assert_eq!(mm.get_mod(&"Keep".to_string()).unwrap().mod_folder(), "k");
}

#[test]
fn content_kept_only_once_written() {
    let mut m = ModStore::from_folder("Kept".to_string(), "d".to_string());
    let first = m.new_content_data("g".to_string(), vec![], vec![]);
    assert!(!m.keep_written_content(first, false));
    assert_eq!(m.n_items(), 0);
    let again = m.new_content_data("g".to_string(), vec![], vec![]);
    assert_eq!(again.id, 0);
    assert!(m.keep_written_content(again, true));
    assert_eq!(m.n_items(), 1);
    assert_eq!(m.new_content_data("g".to_string(), vec![], vec![]).id, 1);
}
