use jackbox_custom_content::content::subcontent::manifest::ManifestItem;
use serde_json::Value;

fn object(text: &str) -> serde_json::Map<String, Value> {
    serde_json::from_str::<serde_json::Map<String, Value>>(text).unwrap()
}

fn write(item: &ManifestItem, id: &str, manifest: Option<Vec<u8>>) -> Vec<u8> {
    item.write_to_mod(id.to_string(), manifest).expect("manifest items parse").unwrap()
}

#[test]
fn write_single_manifest_item() {
    let v = ManifestItem::new(object(r#"{"value": "test"}"#));
    let out = write(&v, "0", None);
    assert_eq!(String::from_utf8(out).unwrap(), String::from(r#"[{"id":"0","value":"test"}]"#));
}

#[test]
fn write_multiple_manifest_items() {
    let mut manifest: Option<Vec<u8>> = None;
    let mut values: Vec<String> = Vec::new();
    for i in 0..5 {
        let v = ManifestItem::new(object(r#"{"value": "testing"}"#));
        let out = write(&v, &i.to_string(), manifest.take());
        values.push(format!(r#"{{"id":"{i}","value":"testing"}}"#));
        assert_eq!(String::from_utf8(out.clone()).unwrap(), format!("[{}]", values.join(",")));
        manifest = Some(out);
    }
}

#[test]
fn edit_manifest_item() {
    let mut manifest: Option<Vec<u8>> = None;
    let mut values: Vec<String> = Vec::new();
    for i in 0..5 {
        let v = ManifestItem::new(object(r#"{"value": "testing"}"#));
        let out = write(&v, &i.to_string(), manifest.take());
        values.push(format!(r#"{{"id":"{i}","value":"testing"}}"#));
        assert_eq!(String::from_utf8(out.clone()).unwrap(), format!("[{}]", values.join(",")));
        manifest = Some(out);
    }

    let edit = ManifestItem::new(object(r#"{"otherValue": "test"}"#));
    let out = write(&edit, "3", manifest.take());

    values[3] = format!(r#"{{"id":"3","otherValue":"test"}}"#);

    assert_eq!(String::from_utf8(out).unwrap(), format!("[{}]", values.join(",")));
}

#[test]
fn edit_existing_items() {
    let existing = format!(
        r#"[{{ "id": "0", "value": "test"
}}, {{
"id": "1", "value": "item"
}},
{{
"id": "2", "value": "item"
}},
{{
"id": "1", "value": "a"
}}]"#
    );

    let edit = ManifestItem::new(object(r#"{"newValue": "testing"}"#));
    let out = write(&edit, "1", Some(existing.into_bytes()));

    assert_eq!(
        String::from_utf8(out).unwrap(),
        format!(
            r#"[{{ "id": "0", "value": "test"
}}, {{"id":"1","newValue":"testing"}},
{{
"id": "2", "value": "item"
}},
{{"id":"1","newValue":"testing"}}]"#
        )
    );
}

#[test]
fn new_manifest_holds_just_the_item() {
    let v = ManifestItem::new(object(r#"{"b": [1, 2], "a": {"c": null}}"#));
    let out = write(&v, "id with spaces", None);
    assert_eq!(String::from_utf8(out).unwrap(), r#"[{"a":{"c":null},"b":[1,2],"id":"id with spaces"}]"#);
}

#[test]
fn new_manifest_bytes() {
    assert_eq!(ManifestItem::create_manifest(), b"[\n]".to_vec());
}
