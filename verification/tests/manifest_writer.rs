use jackbox_custom_content::util::manifest_writer::{ManifestNode, ManifestWriter, SeekFrom, WriteTo};
use serde_json::{Number, Value};

fn writer_over(text: &[u8]) -> ManifestWriter {
    ManifestWriter::from_bytes(text.to_vec())
}

fn output_string(manifest: &ManifestWriter) -> String {
    String::from_utf8(manifest.output().clone()).unwrap()
}

#[test]
fn test_write() {
    let mut manifest = writer_over(b"");
    let write_out = manifest.write(b"[]");
    assert!(write_out.is_ok());
    assert_eq!(output_string(&manifest), String::from("[]"));
}

#[test]
fn test_write_search_seek() {
    let mut manifest = writer_over(b"[012, \"test\"]");
    loop {
        let n = manifest.parse_node();
        assert!(n.is_ok(), "{:?}", n.unwrap_err());
        if n.is_ok_and(|v| v == ManifestNode::EOF) {
            break;
        }
    }
    let seek = manifest.write_search_seek(SeekFrom::Current(-4));
    assert!(seek.is_ok(), "{:?}", seek.unwrap_err());

    let out_res = manifest.write(b"5");
    assert!(out_res.is_ok(), "{:?}", out_res.unwrap_err());

    assert_eq!(output_string(&manifest), String::from("[012, \"te5t\"]"));
}

#[test]
fn test_object_insert() {
    let mut manifest = writer_over(
        br#"
{
	"test": 0,
	"five": null,
	"three": "four"
}"#,
    );
    let initialize_result = manifest.initialize();
    assert!(initialize_result.is_ok(), "{:?}", initialize_result.err().unwrap());

    let insert_result = manifest.insert("five".to_string(), Value::Array(vec![]));
    assert!(insert_result.is_ok(), "{:?}", insert_result.err().unwrap());

    let flush_result = manifest.flush();
    assert!(flush_result.is_ok(), "{}", flush_result.err().unwrap());

    assert_eq!(
        output_string(&manifest),
        String::from(
            r#"
{
	"test": 0,
	"five":[],
	"three": "four"
}"#
        )
    );
}

#[test]
fn test_read_array_item() {
    let mut manifest = writer_over(
        br#"
[
	"string test",
	{"id": "b"},
	1243
]"#,
    );
    let initialize_result = manifest.initialize();
    assert!(initialize_result.is_ok(), "{:?}", initialize_result.err().unwrap());

    let expected_items = vec![
        Value::String("string test".to_string()),
        serde_json::from_str(r#"{"id": "b"}"#).unwrap(),
        Value::Number(Number::from(1243)),
    ];
    let mut i = 0;
    while let (_buf, Some(val)) = manifest.read_array_item() {
        assert!(val.is_ok(), "{:?}", val.unwrap_err());
        assert_eq!(expected_items[i], val.unwrap());
        i += 1;
    }
    assert_eq!(i, 3);
}

#[test]
fn test_custom_output() {
    let out_str = String::from(
        r#"
{
	"some": {
		"body": []
	},
	"once": {
		"told me": "the world was gonna roll me"
	},
	"I": [ "a", 1, "nt" ],
	"the": 5,
	"harp3st": {
		"tool": {
			"in": {
				"the": "shed."
			}
		}
	}
}"#,
    );
    let mut manifest = writer_over(out_str.as_bytes());
    manifest.active_writer = WriteTo::CustomWriter(Vec::new());
    loop {
        let n = manifest.parse_node();
        if n.is_ok_and(|v| v == ManifestNode::EOF) {
            break;
        }
    }
    let string = match &manifest.active_writer {
        WriteTo::CustomWriter(o) => String::from_utf8(o.clone()).unwrap(),
        _ => unreachable!(),
    };
    assert_eq!(out_str, string);
    // Our output should be blank:
    assert_eq!(output_string(&manifest), String::from(""));
}

#[test]
fn test_read_object_at_array_end() {
    let mut manifest = writer_over(
        br#"[
{"id":"test_0",
"includesPlayerName":false,"prompt":"Was","safetyQuips":[  ],"us":  false,"x": false}]"#,
    );
    let init_res = manifest.initialize();
    assert!(init_res.is_ok(), "{:?}", init_res.unwrap_err());
    let (buf, array_read) = manifest.read_array_item();
    assert!(array_read.is_some(), "Read array value is none.");
    assert_eq!(
        std::str::from_utf8(&buf).unwrap(),
        r#"{"id":"test_0",
"includesPlayerName":false,"prompt":"Was","safetyQuips":[  ],"us":  false,"x": false}"#
    );
    let res = array_read.unwrap();
    assert!(res.is_ok(), "{:?}", res.unwrap_err());
}

#[test]
fn test_read_number_at_array_end() {
    let mut manifest = writer_over(br#"[0, 1, 2]"#);
    let init_res = manifest.initialize();
    assert!(init_res.is_ok(), "{:?}", init_res.unwrap_err());
    let (buf, array_read) = manifest.read_array_item();
    assert!(array_read.is_some(), "Read array value is none.");
    assert_eq!(std::str::from_utf8(&buf).unwrap(), r#"0,"#);
    assert_eq!(array_read.unwrap().unwrap(), Value::Number(Number::from(0)));

    let (buf, array_read) = manifest.read_array_item();
    assert_eq!(std::str::from_utf8(&buf).unwrap(), r#" 1,"#);
    assert_eq!(array_read.unwrap().unwrap(), Value::Number(Number::from(1)));

    let (buf, array_read) = manifest.read_array_item();
    assert_eq!(std::str::from_utf8(&buf).unwrap(), r#" 2"#);
    assert_eq!(array_read.unwrap().unwrap(), Value::Number(Number::from(2)));
}
