use roxmltree_to_serde::config::{get_json_type, get_json_type_with_absolute_path, Config, JsonArray, JsonType, PathMatcher, PathRegex};
use roxmltree_to_serde::json::{object_append, object_insert, JsonValue};
use roxmltree_to_serde::text::{is_decimal_float_text, parse_u64, str_eq, trim};
use roxmltree_to_serde::{document_element, parse_text, parse_xml, XmlNode};

fn s(x: &str) -> JsonValue {
    JsonValue::String(x.to_owned())
}

#[test]
fn trim_removes_unicode_whitespace() {
    assert_eq!(trim("  a b \n"), "a b");
    assert_eq!(trim("\u{3000}x\u{a0}"), "x");
    assert_eq!(trim("   "), "");
    assert_eq!(trim(""), "");
}

#[test]
fn u64_reading() {
    assert_eq!(parse_u64("0"), Some(0));
    assert_eq!(parse_u64("+5"), Some(5));
    assert_eq!(parse_u64("007"), Some(7));
    assert_eq!(parse_u64("18446744073709551615"), Some(u64::MAX));
    assert_eq!(parse_u64("18446744073709551616"), None);
    assert_eq!(parse_u64("-1"), None);
    assert_eq!(parse_u64("+"), None);
    assert_eq!(parse_u64(""), None);
    assert_eq!(parse_u64("1a"), None);
}

#[test]
fn decimal_float_grammar() {
    for t in ["1.5", "-3", "+.5", "5.", "1e5", "1E+5", "2.5e-3", "0.0", "00.5"] {
        assert!(is_decimal_float_text(t), "{t}");
        assert!(t.parse::<f64>().is_ok(), "{t}");
    }
    for t in [".", "e5", "1e", "1e+", "--1", "1.2.3", "inf", "NaN", "", "0x10", "1_000"] {
        assert!(!is_decimal_float_text(t), "{t}");
    }
}

#[test]
fn string_equality() {
    assert!(str_eq("abc", "abc"));
    assert!(!str_eq("abc", "abd"));
    assert!(!str_eq("ab", "abc"));
}

#[test]
fn text_typing() {
    assert_eq!(parse_text(" 42 ", false, &JsonType::Infer), JsonValue::Number(42));
    assert_eq!(parse_text(" 42 ", false, &JsonType::AlwaysString), s("42"));
    assert_eq!(parse_text("042", true, &JsonType::Infer), s("042"));
    assert_eq!(parse_text("042", false, &JsonType::Infer), JsonValue::Number(42));
    assert_eq!(parse_text("0", true, &JsonType::Infer), JsonValue::Number(0));
    assert_eq!(parse_text("3.25", false, &JsonType::Infer), JsonValue::Float("3.25".to_owned()));
    assert_eq!(parse_text("0e5", false, &JsonType::Infer), JsonValue::Float("0e5".to_owned()));
    assert_eq!(parse_text("0e5", true, &JsonType::Infer), s("0e5"));
    assert_eq!(parse_text("-12.5", true, &JsonType::Infer), JsonValue::Float("-12.5".to_owned()));
    assert_eq!(parse_text(" true", false, &JsonType::Infer), JsonValue::Bool(true));
    assert_eq!(parse_text("hello", false, &JsonType::Infer), s("hello"));
    assert_eq!(parse_text("y", false, &JsonType::Bool(vec!["y", "yes"])), JsonValue::Bool(true));
    assert_eq!(parse_text("n", false, &JsonType::Bool(vec!["y", "yes"])), JsonValue::Bool(false));
}

#[test]
fn scalar_type_of_rules() {
    assert_eq!(format!("{:?}", JsonArray::Always(JsonType::AlwaysString).scalar_type()), "AlwaysString");
    assert_eq!(format!("{:?}", JsonArray::Infer(JsonType::Infer).scalar_type()), "Infer");
    let a = JsonArray::PlaceSingletonIntoArray { ty: JsonType::Bool(vec!["x"]), array_name: "n".to_owned() };
    assert_eq!(format!("{:?}", a.scalar_type()), "Bool([\"x\"])");
}

#[test]
fn path_matcher_from_string() {
    match PathMatcher::from("a/b") {
        PathMatcher::Absolute(p) => assert_eq!(p, "/a/b"),
        _ => panic!("not absolute"),
    }
    match PathMatcher::from("/a/b") {
        PathMatcher::Absolute(p) => assert_eq!(p, "/a/b"),
        _ => panic!("not absolute"),
    }
}

#[test]
fn later_override_replaces_earlier() {
    let conf = Config::new_with_defaults()
        .add_json_type_override("/a/b".into(), JsonArray::Always(JsonType::Infer))
        .add_json_type_override("a/b".into(), JsonArray::Infer(JsonType::AlwaysString));
    assert_eq!(conf.json_type_overrides.len(), 1);
    let rule = get_json_type(&conf, "/a/b").unwrap();
    assert!(matches!(rule, JsonArray::Infer(JsonType::AlwaysString)));
    assert!(get_json_type(&conf, "/a/c").is_none());
}

#[test]
fn regex_matching() {
    let r = PathRegex::new("^/a/.*c$").unwrap();
    assert_eq!(r.as_str(), "^/a/.*c$");
    assert!(r.is_match("/a/b/c"));
    assert!(!r.is_match("/x/b/c"));
}

#[test]
fn default_is_defaults() {
    let a = Config::default();
    let b = Config::new_with_defaults();
    assert_eq!(a.xml_attr_prefix, "@");
    assert_eq!(b.xml_text_node_prop_name, "#text");
    assert_eq!(a.leading_zero_as_string, b.leading_zero_as_string);
    assert!(!a.allow_dtd && !a.process_xpointer_xincludes);
}

#[test]
fn objects_replace_and_collect() {
    let mut o: Vec<(String, JsonValue)> = Vec::new();
    object_insert(&mut o, "a".to_owned(), JsonValue::Number(1));
    object_insert(&mut o, "b".to_owned(), JsonValue::Number(2));
    object_insert(&mut o, "a".to_owned(), JsonValue::Number(3));
    assert_eq!(o, vec![("a".to_owned(), JsonValue::Number(3)), ("b".to_owned(), JsonValue::Number(2))]);
    object_append(&mut o, "b".to_owned(), JsonValue::Null);
    object_append(&mut o, "b".to_owned(), JsonValue::Bool(true));
    object_append(&mut o, "c".to_owned(), JsonValue::Null);
    assert_eq!(
        o,
        vec![
            ("a".to_owned(), JsonValue::Number(3)),
            ("b".to_owned(), JsonValue::Array(vec![JsonValue::Number(2), JsonValue::Null, JsonValue::Bool(true)])),
            ("c".to_owned(), JsonValue::Array(vec![JsonValue::Null])),
        ]
    );
}

fn node(is_element: bool, name: &str, text: Option<&str>, children: Vec<usize>) -> XmlNode {
    XmlNode {
        is_element,
        name: name.to_owned(),
        namespace: None,
        text: text.map(|t| t.to_owned()),
        has_children: !children.is_empty(),
        attributes: vec![],
        children,
    }
}

#[test]
fn tree_from_node_list() {
    // root node, a comment, <a>, text "x" under <b> under <a>
    let nodes = vec![
        node(false, "", None, vec![1, 2]),
        node(false, "", Some("c"), vec![]),
        node(true, "a", None, vec![3, 5]),
        node(true, "b", Some("x"), vec![4]),
        node(false, "", Some("x"), vec![]),
        node(true, "c", None, vec![]),
    ];
    let e = document_element(&nodes).unwrap();
    assert_eq!(e.name, "a");
    assert_eq!(e.children.len(), 2);
    assert_eq!(e.children[0].name, "b");
    assert_eq!(e.children[0].text.as_deref(), Some("x"));
    assert_eq!(e.children[1].name, "c");
    // no element under the root node
    let bare = vec![node(false, "", None, vec![1]), node(false, "", Some("t"), vec![])];
    assert!(document_element(&bare).is_none());
}

#[test]
fn parsed_tree_records_what_roxmltree_reads() {
    let e = parse_xml(r#"<p:a xmlns:p="urn:x" k="v"> t <b/><c>1</c></p:a>"#, false).unwrap();
    assert_eq!(e.name, "a");
    assert_eq!(e.namespace.as_deref(), Some("urn:x"));
    assert_eq!(e.text.as_deref(), Some(" t "));
    assert!(e.has_children);
    assert_eq!(e.attributes.len(), 1);
    assert_eq!(e.attributes[0].name, "k");
    assert_eq!(e.attributes[0].value, "v");
    assert_eq!(e.children.len(), 2);
    assert_eq!(e.children[1].text.as_deref(), Some("1"));
    assert!(!e.children[0].has_children);
}

#[test]
fn without_regex_rules_lookup_is_by_path() {
    let conf = Config::new_with_defaults()
        .add_json_type_override("/a/b".into(), JsonArray::Always(JsonType::Infer));
    for p in ["/a/b", "/a", "/a/b/@c"] {
        assert_eq!(
            format!("{:?}", get_json_type(&conf, p)),
            format!("{:?}", get_json_type_with_absolute_path(&conf, p))
        );
    }
}
