use jackbox_custom_content::content_list::{
    compile_content_list, replace_string, split_string, xml_definitions, ContentInfo, ContentItemDef, ContentWindowDef,
    ContentWindowItem, SubcontentInfo,
};

const UI: &str = r#"<interface>
  <object class="JCCContentCol">
    <property name="xml-definition">quiplash3/prompts/round_prompt.xml</property>
  </object>
  <object class="JCCContentCol">
    <property name="xml-definition">
      quiplash3/safety_quip.xml
    </property>
  </object>
</interface>"#;

/// The source, formatted line by line as the generator is meant to write it.
fn expected_source(content: &[(&str, &str, &str, &str, Vec<(&str, Vec<Vec<&str>>)>)]) -> String {
    let mut out = String::from("pub fn create_window(xml_def_path : &str) -> ContentWindow {\n\tmatch xml_def_path {\n");
    for c in content {
        out += &format!("\t\t\"{}\" => {{crate::content::{}::ensure_all_types(); gtk::glib::Object::new::<crate::content::{}>().upcast()}},\n", c.0, c.1, c.1);
    }
    out += "\t\t_=>panic!(\"XML definition of path {xml_def_path} not found.\")\n\t}\n}\n";
    out += "pub fn get_subcontent_args(xml_def_path : &str, content_type : &str) -> Vec<Vec<&'static str>> {\n\tmatch xml_def_path {\n";
    for c in content {
        out += &format!("\t\t\"{}\" => match content_type {{\n", c.0);
        for i in &c.4 {
            out += &format!("\t\t\t\"{}\" => vec![", i.0);
            let mut it = i.1.iter().peekable();
            while let Some(s) = it.next() {
                out += &format!("vec![\"{}\"]{}", s.join("\",\""), if it.peek().is_none() { "" } else { "," });
            }
            out += "],\n";
        }
        out += "\t\t\t_=>panic!(\"content_type {content_type} not found.\"),\n\t\t},\n";
    }
    out += "\t\t_=>panic!(\"XML definition of path {xml_def_path} not found.\"),\n\t}\n}\n";
    out += "\npub fn get_relative_folder(xml_def_path : &str) -> &'static std::path::Path {\n\tmatch xml_def_path {\n";
    for c in content {
        out += &format!("\t\t\"{}\" => std::path::Path::new(\"{}/{}\"),\n", c.0, c.2, c.3);
    }
    out += "\t\t_ => panic!(\"XML definition of path {xml_def_path} not found.\"),\n\t}\n}\n";
    out
}

#[test]
fn definitions_found_in_content_list() {
    let defs = xml_definitions(UI).unwrap();
    assert_eq!(defs, vec!["quiplash3/prompts/round_prompt.xml".to_string(), "quiplash3/safety_quip.xml".to_string()]);
    assert_eq!(xml_definitions("<interface/>").unwrap(), Vec::<String>::new());
}

#[test]
fn split_like_str_split() {
    for s in ["a,b", "", ",", "manifest.jet,Round1", "x,,y,"] {
        let expected: Vec<String> = s.split(',').map(|p| p.to_string()).collect();
        assert_eq!(split_string(s, ','), expected, "{s:?}");
    }
}

#[test]
fn replace_like_str_replace() {
    for s in ["quiplash3/prompts", "", "/", "a//b"] {
        assert_eq!(replace_string(s, '/', "::"), s.replace("/", "::"), "{s:?}");
    }
}

#[test]
fn window_read_from_definition() {
    let def = ContentWindowDef {
        name: "QuiplashRoundPrompt".to_string(),
        game_folder: "Quiplash3".to_string(),
        content_list: vec![
            ContentItemDef { content_type: "Round1".to_string(), subcontent_values: vec!["manifest.jet".to_string(), "a,b".to_string()] },
            ContentItemDef { content_type: "FinalRound".to_string(), subcontent_values: vec![] },
        ],
    };
    let item = ContentWindowItem::read("quiplash3/prompts/round_prompt.xml".to_string(), def).unwrap();
    assert_eq!(item.xml_def_path, "quiplash3/prompts/round_prompt.xml");
    assert_eq!(item.mod_location, "quiplash3::prompts::QuiplashRoundPrompt");
    assert_eq!(item.window_name, "QuiplashRoundPrompt");
    assert_eq!(item.game_folder, "Quiplash3");
    assert_eq!(item.party_pack, "");
    assert_eq!(item.content_info.len(), 2);
    assert_eq!(item.content_info[0].content_type, "Round1");
    assert_eq!(item.content_info[0].subcontent_info[0].args, vec!["manifest.jet".to_string()]);
    assert_eq!(item.content_info[0].subcontent_info[1].args, vec!["a".to_string(), "b".to_string()]);
    assert!(item.content_info[1].subcontent_info.is_empty());
}

#[test]
fn window_without_folder_refused() {
    let def = ContentWindowDef { name: "W".to_string(), game_folder: "G".to_string(), content_list: vec![] };
    assert!(ContentWindowItem::read("toplevel.xml".to_string(), def).is_err());
}

#[test]
fn source_compiled_as_formatted() {
    let items = vec![
        ContentWindowItem {
            xml_def_path: "quiplash3/prompts/round_prompt.xml".to_string(),
            mod_location: "quiplash3::prompts::QuiplashRoundPrompt".to_string(),
            window_name: "QuiplashRoundPrompt".to_string(),
            party_pack: "The Jackbox Party Pack 7".to_string(),
            game_folder: "Quiplash3".to_string(),
            content_info: vec![
                ContentInfo {
                    content_type: "Round1".to_string(),
                    subcontent_info: vec![
                        SubcontentInfo { args: vec!["manifest.jet".to_string()] },
                        SubcontentInfo { args: vec!["a".to_string(), "b".to_string()] },
                    ],
                },
                ContentInfo { content_type: "FinalRound".to_string(), subcontent_info: vec![] },
            ],
        },
        ContentWindowItem {
            xml_def_path: "other.xml".to_string(),
            mod_location: "x::Other".to_string(),
            window_name: "Other".to_string(),
            party_pack: "".to_string(),
            game_folder: "G".to_string(),
            content_info: vec![],
        },
    ];
    let expected = expected_source(&[
        (
            "quiplash3/prompts/round_prompt.xml",
            "quiplash3::prompts::QuiplashRoundPrompt",
            "The Jackbox Party Pack 7",
            "Quiplash3",
            vec![("Round1", vec![vec!["manifest.jet"], vec!["a", "b"]]), ("FinalRound", vec![])],
        ),
        ("other.xml", "x::Other", "", "G", vec![]),
    ]);
    assert_eq!(compile_content_list(&items), expected);
    assert_eq!(compile_content_list(&vec![]), expected_source(&[]));
}
