use jackbox_custom_content::templates::{EditableList, FormFilebrowse, Selector};

#[test]
fn editable_list_rows() {
    let mut l = EditableList::new();
    assert!(!l.has_items());
    l.handle_new_list_item();
    l.handle_new_list_item();
    assert!(l.has_items());
    assert_eq!(l.value(), vec!["Double click to edit".to_string(), "Double click to edit".to_string()]);
    assert_eq!(l.items_mut().len(), 2);
    assert_eq!(l.items_mut().clone(), l.value());
}

#[test]
fn editable_list_removes_selected_or_last() {
    let mut l = EditableList::new();
    l.handle_new_list_item();
    l.handle_new_list_item();
    l.handle_new_list_item();
    l.select_row(Some(0));
    l.handle_remove_list_item();
    assert_eq!(l.value().len(), 2);
    assert_eq!(l.items_mut().len(), 2);
    l.handle_remove_list_item();
    l.handle_remove_list_item();
    assert!(!l.has_items());
    l.handle_remove_list_item();
    assert!(!l.has_items());
}

#[test]
fn items_changed_in_place() {
    let mut l = EditableList::new();
    l.items_mut().push("quip".to_string());
    assert_eq!(l.items_mut().clone(), vec!["quip".to_string()]);
    assert!(!l.has_items());
}

#[test]
fn filebrowse_shows_chosen_file() {
    let mut f = FormFilebrowse::new();
    assert_eq!(f.file(), None);
    assert_eq!(f.inscription(), None);
    f.handle_browse_result(Some("/tmp/a.ogg".to_string()));
    assert_eq!(f.file(), Some("/tmp/a.ogg".to_string()));
    assert_eq!(f.inscription(), Some("/tmp/a.ogg".to_string()));
    assert_eq!(f.tooltip(), Some("/tmp/a.ogg".to_string()));
    f.update_inscription();
    assert_eq!(f.file(), Some("/tmp/a.ogg".to_string()));
    f.handle_clear();
    assert_eq!(f.file(), None);
    assert_eq!(f.inscription(), None);
    assert_eq!(f.tooltip(), None);
}

#[test]
fn selector_highlights_first_then_clicked() {
    let mut s = Selector::new();
    assert_eq!(s.selected_name(), None);
    s.add_selection("Quiplash 3");
    s.add_selection("Trivia Murder Party 2");
    assert_eq!(s.selected_name(), Some("Quiplash 3".to_string()));
    s.select(1);
    assert_eq!(s.selected_name(), Some("Trivia Murder Party 2".to_string()));
}

#[test]
fn new_row_removed_again() {
    let mut l = EditableList::new();
    l.handle_new_list_item();
    let before = l.value();
    l.handle_new_list_item();
    l.handle_remove_list_item();
    assert_eq!(l.value(), before);
    assert_eq!(l.items_mut().clone(), before);
}
