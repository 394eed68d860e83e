use sandbag::config::ConfigFormat;
use sandbag::config::document::text_field;
use sandbag::config::document::{parse_json_tree, parse_yaml_tree, parse_toml_tree, read_document};
use sandbag::config::manager::ParseError;
use sandbag::config::document::{doc_to_node, node_to_doc, DocEntry, DocStyle, DocValue};
use sandbag::config::parser::{new_object, new_value, set_top_value};
use sandbag::config::NodeType;

fn sample() -> DocValue {
    DocValue::Table(vec![
        DocEntry { key: "rules".to_string(), value: DocValue::Table(vec![DocEntry {
            key: "no-console".to_string(),
            value: DocValue::Scalar("off".to_string()),
        }]) },
        DocEntry { key: "default".to_string(), value: DocValue::Bool(true) },
        DocEntry { key: "ignore".to_string(), value: DocValue::List(vec![DocValue::Null, DocValue::Scalar("3".to_string())]) },
    ])
}

#[test]
fn documents_become_trees() {
    let n = doc_to_node(&sample());
    assert_eq!(n.node_type, NodeType::Object);
    assert_eq!(n.children.len(), 3);
    let rules = &n.children[0];
    assert_eq!(rules.node_type, NodeType::KeyValue);
    assert_eq!(rules.children[0].value.as_deref(), Some("rules"));
    assert_eq!(rules.children[1].children[0].children[1].value.as_deref(), Some("off"));
    assert_eq!(n.children[1].children[1].value.as_deref(), Some("true"));
    let list = &n.children[2].children[1];
    assert_eq!(list.node_type, NodeType::Array);
    assert_eq!(list.children[0].value.as_deref(), Some("null"));
    assert_eq!(list.children[1].value.as_deref(), Some("3"));
}

#[test]
fn trees_become_documents_again() {
    let n = doc_to_node(&sample());
    match node_to_doc(&n, DocStyle::Json) {
        DocValue::Table(entries) => {
            assert_eq!(entries.len(), 3);
            assert_eq!(entries[0].key, "rules");
            assert!(matches!(entries[1].value, DocValue::Bool(true)));
            match &entries[2].value {
                DocValue::List(items) => {
                    assert!(matches!(items[0], DocValue::Null));
                    assert!(matches!(&items[1], DocValue::Scalar(s) if s == "3"));
                }
                _ => panic!("list expected"),
            }
        }
        _ => panic!("table expected"),
    }
}

#[test]
fn value_text_by_style() {
    let null = new_value("null");
    assert!(matches!(node_to_doc(&null, DocStyle::Yaml), DocValue::Null));
    assert!(matches!(node_to_doc(&null, DocStyle::Toml), DocValue::Scalar(s) if s == "null"));
    let f = new_value("false");
    assert!(matches!(node_to_doc(&f, DocStyle::Toml), DocValue::Bool(false)));
    let root = set_top_value(new_object(), "semi", new_value("false"));
    match node_to_doc(&root, DocStyle::Yaml) {
        DocValue::Table(entries) => {
            assert_eq!(entries[0].key, "semi");
            assert!(matches!(entries[0].value, DocValue::Bool(false)));
        }
        _ => panic!("table expected"),
    }
}

#[test]
fn json_text_reads_into_a_tree() {
    let n = parse_json_tree("{\"rules\": {\"no-console\": \"off\"}, \"n\": 3}").unwrap();
    assert_eq!(n.node_type, NodeType::Object);
    // serde_json keeps object keys in sorted order
    assert_eq!(n.children[0].children[0].value.as_deref(), Some("n"));
    assert_eq!(n.children[0].children[1].value.as_deref(), Some("3"));
    assert_eq!(n.children[1].children[0].value.as_deref(), Some("rules"));
    assert!(matches!(parse_json_tree("{oops"), Err(ParseError::InvalidJson(_))));
    let y = parse_yaml_tree("MD033: false\n").unwrap();
    assert_eq!(y.children[0].children[1].value.as_deref(), Some("false"));
    assert!(matches!(parse_yaml_tree("a: [1, 2"), Err(ParseError::InvalidYaml(_))));
    let t = parse_toml_tree("semi = false\n").unwrap();
    assert_eq!(t.children[0].children[0].value.as_deref(), Some("semi"));
    assert!(matches!(parse_toml_tree("= x"), Err(ParseError::InvalidToml(_))));
    let ini = read_document(&ConfigFormat::Ini, "[a]\nb=1").unwrap();
    assert_eq!(ini.value.as_deref(), Some("[a]\nb=1"));
}

#[test]
fn strings_and_numbers_stay_apart_until_written() {
    let d = DocValue::Table(vec![
        DocEntry { key: "rule_id".to_string(), value: DocValue::Text("MD033".to_string()) },
        DocEntry { key: "n".to_string(), value: DocValue::Scalar("5".to_string()) },
    ]);
    assert_eq!(text_field(&d, "rule_id"), Some("MD033".to_string()));
    assert_eq!(text_field(&d, "n"), None);
    assert_eq!(text_field(&d, "missing"), None);
    let n = doc_to_node(&d);
    match node_to_doc(&n, DocStyle::Json) {
        DocValue::Table(entries) => assert!(matches!(&entries[0].value, DocValue::Scalar(s) if s == "MD033")),
        _ => panic!("table expected"),
    }
}

#[test]
fn toml_numbers_read_as_rust_prints_them() {
    let t = parse_toml_tree("a = 1.0\nb = nan\nc = 7\n").unwrap();
    assert_eq!(t.children[0].children[1].value.as_deref(), Some("1"));
    assert_eq!(t.children[1].children[1].value.as_deref(), Some("NaN"));
    assert_eq!(t.children[2].children[1].value.as_deref(), Some("7"));
}
