use jackbox_custom_content::util::manifest_writer::{ManifestError, ManifestNode, ManifestWriter, SeekFrom, WriteTo};

fn read_through(text: &[u8]) -> (ManifestWriter, Vec<ManifestNode>) {
    let mut w = ManifestWriter::from_bytes(text.to_vec());
    let mut nodes = Vec::new();
    loop {
        let n = w.parse_node().expect("well formed");
        if n == ManifestNode::EOF {
            break;
        }
        nodes.push(n);
    }
    (w, nodes)
}

#[test]
fn reading_through_writes_the_input_back() {
    let text = b" [ {\"id\": \"a\", \"n\": -12, \"ok\": true},\n [null, false] , \"s x\" ]  trailing";
    let (mut w, _) = read_through(text);
    w.flush().unwrap();
    assert_eq!(w.output().as_slice(), &text[..]);
}

#[test]
fn nodes_read_in_order() {
    let (w, nodes) = read_through(b"{\"k\": [1, \"v\"]}");
    assert_eq!(
        nodes,
        vec![
            ManifestNode::ObjectStart,
            ManifestNode::Key("k".to_string()),
            ManifestNode::ArrayStart,
            ManifestNode::Value("1".to_string()),
            ManifestNode::Value("\"v\"".to_string()),
            ManifestNode::ArrayClose,
            ManifestNode::ObjectClose,
        ]
    );
    assert_eq!(w.output().as_slice(), b"{\"k\": [1, \"v\"]}");
}

#[test]
fn discarded_reading_writes_nothing() {
    let mut w = ManifestWriter::from_bytes(b"[1, 2]".to_vec());
    w.active_writer = WriteTo::Discard;
    while w.parse_node().unwrap() != ManifestNode::EOF {}
    assert!(w.output().is_empty());
}

#[test]
fn buffer_collects_what_is_read() {
    let mut w = ManifestWriter::from_bytes(b"[true]".to_vec());
    w.active_writer = WriteTo::Buffer(Vec::new());
    w.parse_node().unwrap();
    w.parse_node().unwrap();
    match &w.active_writer {
        WriteTo::Buffer(b) => assert_eq!(b.as_slice(), b"[true"),
        _ => panic!("the writer changed"),
    }
    assert!(w.output().is_empty());
}

#[test]
fn error_unexpected_value() {
    let mut w = ManifestWriter::from_bytes(b"x".to_vec());
    match w.initialize() {
        Err(ManifestError::UnexpectedValue(s)) => assert_eq!(s, "Expected [ or {, found x"),
        other => panic!("{other:?}"),
    }
    let mut w = ManifestWriter::from_bytes(b"{\"a\" 1}".to_vec());
    w.initialize().unwrap();
    match w.parse_node() {
        Err(ManifestError::UnexpectedValue(s)) => assert_eq!(s, "Expected : not 1"),
        other => panic!("{other:?}"),
    }
}

#[test]
fn error_unexpected_eof() {
    let mut w = ManifestWriter::from_bytes(b"   ".to_vec());
    assert!(matches!(w.initialize(), Err(ManifestError::UnexpectedEOF())));
    assert_eq!(ManifestError::UnexpectedEOF().to_string(), "Unexpected end of file when reading manifest.");
    let mut w = ManifestWriter::from_bytes(b"[12".to_vec());
    w.initialize().unwrap();
    assert!(matches!(w.parse_node(), Err(ManifestError::UnexpectedEOF())));
}

#[test]
fn error_unexpected_state() {
    let mut w = ManifestWriter::from_bytes(b"[]".to_vec());
    w.initialize().unwrap();
    match w.initialize() {
        Err(e @ ManifestError::UnexpectedState(_)) => assert_eq!(e.to_string(), "Expected an uninitialized manifest to initialize."),
        other => panic!("{other:?}"),
    }
    match w.insert_bytes("k".to_string(), b"1") {
        Err(ManifestError::UnexpectedState(s)) => assert_eq!(s, "Cannot insert, Manifest is not parsing an object."),
        other => panic!("{other:?}"),
    }
}

#[test]
fn error_bad_seek() {
    let mut w = ManifestWriter::from_bytes(b"[]".to_vec());
    match w.write_search_seek(SeekFrom::Current(-1)) {
        Err(e @ ManifestError::StdErr(_)) => assert!(e.to_string().starts_with("stderr trying to write to manifest: ")),
        other => panic!("{other:?}"),
    }
    assert!(w.write_search_seek(SeekFrom::End(0)).is_ok());
}

#[test]
fn error_serde_on_bad_container() {
    let mut w = ManifestWriter::from_bytes(b"[{\"a\": 01}]".to_vec());
    w.initialize().unwrap();
    let (_, item) = w.read_array_item();
    match item {
        Some(Err(e @ ManifestError::SerdeJsonErr(_))) => assert!(e.to_string().starts_with("serde error trying to write to manifest: ")),
        other => panic!("{other:?}"),
    }
}

#[test]
fn rejected_scalar_item_left_unread() {
    let mut w = ManifestWriter::from_bytes(b"[012]".to_vec());
    w.initialize().unwrap();
    assert!(w.read_array_item_checked().is_none());
    let mut w = ManifestWriter::from_bytes(b"[12]".to_vec());
    w.initialize().unwrap();
    let (buf, item) = w.read_array_item_checked().expect("12 parses");
    assert_eq!(buf, b"12");
    assert_eq!(item.unwrap().unwrap(), serde_json::Value::from(12));
}

#[test]
fn inserted_value_is_in_the_output() {
    let mut w = ManifestWriter::from_bytes(b"{\"a\": 1}".to_vec());
    w.initialize().unwrap();
    w.insert_bytes("b".to_string(), b"[true]").unwrap();
    w.flush().unwrap();
    let out = String::from_utf8(w.output().clone()).unwrap();
    assert!(out.contains("[true]"), "{out}");
    assert_eq!(out, "{\"a\": 1,\"b\": [true]\n}");
    let parsed: serde_json::Value = serde_json::from_str(&out).unwrap();
    assert_eq!(parsed, serde_json::from_str::<serde_json::Value>(r#"{"a": 1, "b": [true]}"#).unwrap());
}

#[test]
fn replaced_value_is_in_the_output() {
    let mut w = ManifestWriter::from_bytes(b"{\"a\": {\"x\": 2}, \"c\": 3}".to_vec());
    w.initialize().unwrap();
    w.insert_bytes("a".to_string(), b"null").unwrap();
    w.flush().unwrap();
    assert_eq!(String::from_utf8(w.output().clone()).unwrap(), "{\"a\":null, \"c\": 3}");
}

#[test]
fn missing_key_added_to_empty_object() {
    let mut w = ManifestWriter::from_bytes(b"{}".to_vec());
    w.initialize().unwrap();
    w.insert("b".to_string(), serde_json::Value::from(2)).unwrap();
    w.flush().unwrap();
    let out = String::from_utf8(w.output().clone()).unwrap();
    assert_eq!(out, "{\"b\": 2\n}");
}

#[test]
fn missing_key_added_as_member() {
    let mut w = ManifestWriter::from_bytes(br#"{"a": 1}"#.to_vec());
    w.initialize().unwrap();
    w.insert("b".to_string(), serde_json::Value::from(2)).unwrap();
    w.flush().unwrap();
    let parsed: serde_json::Value = serde_json::from_slice(w.output()).unwrap();
    assert_eq!(parsed, serde_json::from_str::<serde_json::Value>(r#"{"a": 1, "b": 2}"#).unwrap());
}

#[test]
fn replaced_number_keeps_the_comma() {
    let mut w = ManifestWriter::from_bytes(br#"{"a": 1, "b": 2}"#.to_vec());
    w.initialize().unwrap();
    w.insert("a".to_string(), serde_json::Value::from(5)).unwrap();
    w.flush().unwrap();
    assert_eq!(String::from_utf8(w.output().clone()).unwrap(), r#"{"a":5, "b": 2}"#);
    let parsed: serde_json::Value = serde_json::from_slice(w.output()).unwrap();
    assert_eq!(parsed, serde_json::from_str::<serde_json::Value>(r#"{"a": 5, "b": 2}"#).unwrap());
}

#[test]
fn string_items_read_as_utf8() {
    let mut w = ManifestWriter::from_bytes(vec![0x5B, 0x22, 0xC3, 0xA9, 0x22, 0x5D]);
    w.initialize().unwrap();
    let (buf, v) = w.read_array_item();
    assert_eq!(v.unwrap().unwrap(), serde_json::Value::from("é"));
    assert_eq!(buf, vec![0x22, 0xC3, 0xA9, 0x22]);
}

#[test]
fn writer_restored_after_unreadable_item() {
    let mut w = ManifestWriter::from_bytes(b"[x]".to_vec());
    assert_eq!(w.initialize().unwrap(), ManifestNode::ArrayStart);
    assert!(matches!(w.active_writer, WriteTo::OutFile));
    let (_, item) = w.read_array_item();
    assert!(matches!(item, Some(Err(ManifestError::UnexpectedValue(_)))));
    assert!(matches!(w.active_writer, WriteTo::OutFile));
    w.write(b"!").unwrap();
    assert_eq!(w.output().as_slice(), b"[!");
}

#[test]
fn writer_restored_after_unfinished_inner_array() {
    let mut w = ManifestWriter::from_bytes(b"[[1, ".to_vec());
    w.initialize().unwrap();
    w.active_writer = WriteTo::Discard;
    let (_, item) = w.read_array_item();
    assert!(matches!(item, Some(Err(ManifestError::UnexpectedEOF()))));
    assert!(matches!(w.active_writer, WriteTo::Discard));
}

fn write_items_back(text: &[u8]) -> Vec<u8> {
    let mut m = ManifestWriter::from_bytes(text.to_vec());
    assert_eq!(m.initialize().unwrap(), ManifestNode::ArrayStart);
    loop {
        let (buf, item) = m.read_array_item();
        match item {
            Some(Ok(_)) => m.write_to_outfile(&buf).unwrap(),
            None => break,
            Some(Err(e)) => panic!("{e:?}"),
        }
    }
    m.write(b"]").unwrap();
    m.flush().unwrap();
    m.output().clone()
}

#[test]
fn items_written_back_reproduce_the_array() {
    let text = b"[0, 1, {\"id\": \"a\", \"k\": [1, 2]},\n [true, null], \"s\"]\n";
    assert_eq!(write_items_back(text), text.to_vec());
    assert_eq!(write_items_back(b"[]"), b"[]".to_vec());
    assert_eq!(write_items_back(b"[1, 2 ]"), b"[1, 2 ]".to_vec());
}

#[test]
fn write_back_drops_separators_before_the_bracket() {
    assert_eq!(write_items_back(b"[1, \"a\" ]"), b"[1, \"a\"]".to_vec());
    assert_eq!(write_items_back(b"[{\"x\": 1} ,\n]"), b"[{\"x\": 1}]".to_vec());
}
