use jackbox_custom_content::forms::{find_entry, FormEntry, FormError, FormKind, FormManager, FormObject, FormValue};

fn text(label: &str, required: bool, value: &str) -> FormObject {
    FormObject::new(FormKind::LabelledBox, required, label.to_string(), FormValue::Text(value.to_string()))
}

fn checkbox(label: &str, required: bool, value: bool) -> FormObject {
    FormObject::new(FormKind::Checkbox, required, label.to_string(), FormValue::Bool(value))
}

fn value_text(v: &FormValue) -> Option<String> {
    match v {
        FormValue::Text(s) => Some(s.clone()),
        _ => None,
    }
}

#[test]
fn objects_filled_in() {
    assert!(text("a", true, "x").is_valid());
    assert!(!text("a", true, "").is_valid());
    assert!(checkbox("b", true, true).is_valid());
    assert!(!checkbox("b", true, false).is_valid());
    let list = FormObject::new(FormKind::LabelledBox, true, "l".to_string(), FormValue::TextList(vec![]));
    assert!(list.is_valid());
    let full_list = FormObject::new(FormKind::LabelledBox, true, "l".to_string(), FormValue::TextList(vec!["q".to_string()]));
    assert!(!full_list.is_valid());
    let file = FormObject::new(FormKind::Filebrowse, true, "f".to_string(), FormValue::File(Some("/x".to_string())));
    assert!(!file.is_valid());
}

#[test]
fn errors_shown_and_cleared() {
    let mut o = text("a", true, "");
    assert!(!o.error_shown);
    o.display_error(Some(FormError::INVALID));
    assert!(o.error_shown);
    o.display_error(None);
    assert!(!o.error_shown);
    o.set_value(FormValue::Text("now".to_string()));
    assert_eq!(value_text(&o.value), Some("now".to_string()));
}

#[test]
fn submit_collects_values() {
    let mut f = FormManager::new();
    f.add_form_object(text("Name", true, "Bob"));
    f.add_form_object(checkbox("Adult", false, false));
    let entries = f.submit().expect("all required are filled in");
    assert_eq!(entries.len(), 2);
    let k = find_entry(&entries, &"Name".to_string()).unwrap();
    assert_eq!(value_text(&entries[k].value), Some("Bob".to_string()));
    assert!(find_entry(&entries, &"Other".to_string()).is_none());
}

#[test]
fn submit_keeps_last_value_of_a_label() {
    let mut f = FormManager::new();
    f.add_form_object(text("Name", false, "first"));
    f.add_form_object(text("Name", false, "second"));
    let entries = f.submit().unwrap();
    assert_eq!(entries.len(), 1);
    assert_eq!(value_text(&entries[0].value), Some("second".to_string()));
}

#[test]
fn submit_refused_when_required_missing() {
    let mut f = FormManager::new();
    f.add_form_object(text("Name", true, ""));
    assert!(f.submit().is_none());
    assert!(!f.is_valid());
    assert!(f.form_objects[0].error_shown);
}

#[test]
fn is_valid_highlights_only_required() {
    let mut f = FormManager::new();
    f.add_form_object(text("Opt", false, ""));
    f.add_form_object(text("Req", true, "ok"));
    assert!(f.is_valid());
    assert!(!f.form_objects[0].error_shown);
    assert!(!f.form_objects[1].error_shown);
}

#[test]
fn update_values_sets_matching_labels() {
    let mut f = FormManager::new();
    f.add_form_object(text("A", false, "old"));
    f.add_form_object(text("B", false, "keep"));
    let values = vec![FormEntry { label: "A".to_string(), value: FormValue::Text("new".to_string()) }];
    f.update_values(&values);
    assert_eq!(value_text(&f.form_objects[0].value), Some("new".to_string()));
    assert_eq!(value_text(&f.form_objects[1].value), Some("keep".to_string()));
}
