use roxmltree_to_serde::{
    xml_str_to_json, xml_string_to_json, xml_to_map, Config, JsonArray, JsonType, JsonValue,
    NullValue, PathMatcher, XmlAttribute, XmlElement, XmlError,
};
use serde_json::{Number, Value};

/// The serde_json value that a `JsonValue` stands for.
fn to_serde(v: &JsonValue) -> Value {
    match v {
        JsonValue::Null => Value::Null,
        JsonValue::Bool(b) => Value::Bool(*b),
        JsonValue::Number(n) => Value::Number(Number::from(*n)),
        JsonValue::Float(t) => match t.parse::<f64>().ok().and_then(Number::from_f64) {
            Some(n) => Value::Number(n),
            None => Value::String(t.clone()),
        },
        JsonValue::String(s) => Value::String(s.clone()),
        JsonValue::Array(a) => Value::Array(a.iter().map(to_serde).collect()),
        JsonValue::Object(o) => {
            let mut m = serde_json::Map::new();
            for (k, v) in o {
                m.insert(k.clone(), to_serde(v));
            }
            Value::Object(m)
        }
    }
}

fn expected(json: &str) -> Value {
    serde_json::from_str(json).unwrap()
}

fn convert(xml: &str, config: &Config) -> Value {
    to_serde(&xml_str_to_json(xml, config).expect("well-formed XML"))
}

#[test]
fn readme_default_config() {
    let xml = r#"<a attr1="1"><b><c attr2="001">some text</c></b></a>"#;
    let conf = Config::new_with_defaults();
    assert_eq!(
        convert(xml, &conf),
        expected(r##"{"a":{"@attr1":1,"b":{"c":{"#text":"some text","@attr2":1}}}}"##)
    );
}

#[test]
fn readme_custom_config() {
    let xml = r#"<?xml version="1.0" encoding="utf-8"?><a attr1="1"><b><c attr2="001">some text</c></b></a>"#;
    let conf = Config::new_with_custom_values(true, "", "txt", NullValue::Null, false, false);
    assert_eq!(
        convert(xml, &conf),
        expected(r#"{"a":{"attr1":1,"b":{"c":{"attr2":"001","txt":"some text"}}}}"#)
    );
}

#[test]
fn xml_string_gives_same_as_str() {
    let xml = r#"<a attr1="1"><b>x</b></a>"#;
    let conf = Config::default();
    let a = to_serde(&xml_string_to_json(xml.to_owned(), &conf).unwrap());
    assert_eq!(a, convert(xml, &conf));
    assert_eq!(a, expected(r#"{"a":{"@attr1":1,"b":"x"}}"#));
}

#[test]
fn json_types_example() {
    let xml = r#"<a attr1="007"><b attr1="7">true</b></a>"#;
    let conf = Config::new_with_defaults()
        .add_json_type_override("/a/b/@attr1".into(), JsonArray::Infer(JsonType::AlwaysString))
        .add_json_type_override("/a/b".into(), JsonArray::Infer(JsonType::AlwaysString));
    assert_eq!(
        convert(xml, &conf),
        expected(r##"{"a":{"@attr1":7,"b":{"#text":"true","@attr1":"7"}}}"##)
    );
}

#[test]
fn attribute_override_as_string() {
    let xml = r#"<a attr1="1"><b><c attr2="001">some text</c></b></a>"#;
    let conf = Config::new_with_defaults()
        .add_json_type_override("/a/b/c/@attr2".into(), JsonArray::Infer(JsonType::AlwaysString));
    assert_eq!(
        convert(xml, &conf),
        expected(r##"{"a":{"@attr1":1,"b":{"c":{"#text":"some text","@attr2":"001"}}}}"##)
    );
}

#[test]
fn infer_arrays_only_for_repeated_elements() {
    let conf = Config::new_with_defaults();
    assert_eq!(convert("<a><b>1</b></a>", &conf), expected(r#"{"a":{"b":1}}"#));
    assert_eq!(
        convert("<a><b>1</b><b>2</b><b>3</b></a>", &conf),
        expected(r#"{"a":{"b":[1,2,3]}}"#)
    );
}

#[test]
fn always_arrays() {
    let conf = Config::new_with_defaults()
        .add_json_type_override("/a/b".into(), JsonArray::Always(JsonType::Infer));
    assert_eq!(convert("<a><b>1</b></a>", &conf), expected(r#"{"a":{"b":[1]}}"#));
    assert_eq!(
        convert("<a><b>1</b><b>2</b><b>3</b></a>", &conf),
        expected(r#"{"a":{"b":[1,2,3]}}"#)
    );
}

#[test]
fn singletons_into_named_array() {
    let conf = Config::new_with_defaults()
        .add_json_type_override(
            "/a/b".into(),
            JsonArray::PlaceSingletonIntoArray { ty: JsonType::Infer, array_name: "consonants".to_owned() },
        )
        .add_json_type_override(
            "/a/d".into(),
            JsonArray::PlaceSingletonIntoArray { ty: JsonType::Infer, array_name: "consonants".to_owned() },
        );
    assert_eq!(
        convert("<a><b>1</b></a>", &conf),
        expected(r#"{"a":{"consonants":[{"b":1}]}}"#)
    );
    assert_eq!(
        convert("<a><b>1</b><b>2</b><d>3</d></a>", &conf),
        expected(r#"{"a":{"consonants":[{"b":1},{"b":2},{"d":3}]}}"#)
    );
}

#[test]
fn empty_elements() {
    let ignore = Config::new_with_custom_values(false, "@", "#text", NullValue::Ignore, false, false);
    assert_eq!(convert("<a><x/></a>", &ignore), expected(r#"{"a":null}"#));
    assert_eq!(convert("<a/>", &ignore), expected(r#"{"a":null}"#));
    assert_eq!(convert("<a><x/><y>1</y></a>", &ignore), expected(r#"{"a":{"y":1}}"#));
    let null = Config::new_with_custom_values(false, "@", "#text", NullValue::Null, false, false);
    assert_eq!(convert("<a><x/></a>", &null), expected(r#"{"a":{"x":null}}"#));
    let empty = Config::new_with_defaults();
    assert_eq!(convert("<a><x/></a>", &empty), expected(r#"{"a":{"x":{}}}"#));
    assert_eq!(convert("<a>   </a>", &empty), expected(r#"{"a":{}}"#));
}

#[test]
fn leading_zeros() {
    let lz = Config::new_with_custom_values(true, "@", "#text", NullValue::EmptyObject, false, false);
    let plain = Config::new_with_defaults();
    assert_eq!(convert("<agent>007</agent>", &lz), expected(r#"{"agent":"007"}"#));
    assert_eq!(convert("<agent>007</agent>", &plain), expected(r#"{"agent":7}"#));
    assert_eq!(convert("<a>0</a>", &lz), expected(r#"{"a":0}"#));
    assert_eq!(convert("<a>0000</a>", &lz), expected(r#"{"a":"0000"}"#));
    assert_eq!(convert("<a>0000</a>", &plain), expected(r#"{"a":0}"#));
    assert_eq!(convert("<a>01.5</a>", &lz), expected(r#"{"a":"01.5"}"#));
    assert_eq!(convert("<a>0.5</a>", &lz), expected(r#"{"a":0.5}"#));
    assert_eq!(convert("<a>0e5</a>", &lz), expected(r#"{"a":"0e5"}"#));
    assert_eq!(convert("<a>1.5</a>", &lz), expected(r#"{"a":1.5}"#));
}

#[test]
fn number_and_boolean_inference() {
    let conf = Config::new_with_defaults();
    assert_eq!(convert("<a>  5  </a>", &conf), expected(r#"{"a":5}"#));
    assert_eq!(convert("<a>1.5</a>", &conf), expected(r#"{"a":1.5}"#));
    assert_eq!(convert("<a>0.5</a>", &conf), expected(r#"{"a":0.5}"#));
    assert_eq!(convert("<a>01.5</a>", &conf), expected(r#"{"a":1.5}"#));
    assert_eq!(convert("<a>00.5</a>", &conf), expected(r#"{"a":0.5}"#));
    assert_eq!(convert("<a>0e5</a>", &conf), expected(r#"{"a":0.0}"#));
    assert_eq!(convert("<a>-3</a>", &conf), expected(r#"{"a":-3.0}"#));
    assert_eq!(convert("<a>1e400</a>", &conf), expected(r#"{"a":"1e400"}"#));
    assert_eq!(convert("<a>inf</a>", &conf), expected(r#"{"a":"inf"}"#));
    assert_eq!(convert("<a>true</a>", &conf), expected(r#"{"a":true}"#));
    assert_eq!(convert("<a>false</a>", &conf), expected(r#"{"a":false}"#));
    assert_eq!(convert("<a>True</a>", &conf), expected(r#"{"a":"True"}"#));
    assert_eq!(convert("<a>18446744073709551615</a>", &conf), expected(r#"{"a":18446744073709551615}"#));
    assert_eq!(convert("<a>+7</a>", &conf), expected(r#"{"a":7}"#));
}

#[test]
fn boolean_override() {
    let conf = Config::new_with_defaults().add_json_type_override(
        "/a".into(),
        JsonArray::Infer(JsonType::Bool(vec!["True", "true", "TRUE"])),
    );
    assert_eq!(convert("<a>TRUE</a>", &conf), expected(r#"{"a":true}"#));
    assert_eq!(convert("<a> yes </a>", &conf), expected(r#"{"a":false}"#));
}

#[test]
fn regex_override() {
    let conf = Config::new_with_defaults()
        .add_json_type_override(PathMatcher::regex("b$").unwrap(), JsonArray::Always(JsonType::AlwaysString));
    assert_eq!(
        convert("<a><b>1</b><c><b>2</b></c></a>", &conf),
        expected(r#"{"a":{"b":["1"],"c":{"b":["2"]}}}"#)
    );
}

#[test]
fn regex_takes_precedence_over_absolute_path() {
    let conf = Config::new_with_defaults()
        .add_json_type_override("/a/b".into(), JsonArray::Infer(JsonType::Infer))
        .add_json_type_override(PathMatcher::regex("^/a/b$").unwrap(), JsonArray::Infer(JsonType::AlwaysString));
    assert_eq!(convert("<a><b>1</b></a>", &conf), expected(r#"{"a":{"b":"1"}}"#));
}

#[test]
fn invalid_regex_is_refused() {
    assert!(PathMatcher::regex("(").is_err());
}

#[test]
fn dtd_handling() {
    let xml = r#"<!DOCTYPE a [<!ENTITY e "x">]><a>&e;</a>"#;
    let no_dtd = Config::new_with_defaults();
    assert!(matches!(xml_str_to_json(xml, &no_dtd), Err(XmlError::Syntax(_))));
    let dtd = Config::new_with_custom_values(false, "@", "#text", NullValue::EmptyObject, true, false);
    assert_eq!(convert(xml, &dtd), expected(r#"{"a":"x"}"#));
}

#[test]
fn malformed_xml_is_an_error() {
    let conf = Config::new_with_defaults();
    match xml_str_to_json("<a><b></a>", &conf) {
        Err(XmlError::Syntax(e)) => {
            let rox = roxmltree::Document::parse("<a><b></a>").unwrap_err();
            assert_eq!(e.message, rox.to_string());
            assert_eq!((e.row, e.col), (rox.pos().row, rox.pos().col));
            match xml_string_to_json("<a><b></a>".to_owned(), &conf) {
                Err(XmlError::Syntax(e2)) => assert_eq!(e, e2),
                other => panic!("unexpected: {other:?}"),
            }
        }
        other => panic!("unexpected: {other:?}"),
    }
    assert!(matches!(xml_str_to_json("", &conf), Err(XmlError::Syntax(_))));
}

#[test]
fn xinclude_pointers() {
    let xml = r#"<root xmlns:xi="http://www.w3.org/2001/XInclude"><item xml:id="i1"><v>1</v></item><xi:include xpointer="i1"/></root>"#;
    let on = Config::new_with_custom_values(false, "@", "#text", NullValue::EmptyObject, false, true);
    assert_eq!(convert(xml, &on), expected(r#"{"root":{"item":[{"v":1},{"v":1}]}}"#));
    let off = Config::new_with_defaults();
    assert_eq!(
        convert(xml, &off),
        expected(r#"{"root":{"item":{"@id":"i1","v":1},"include":{"@xpointer":"i1"}}}"#)
    );
}

#[test]
fn xinclude_with_unknown_pointer_is_kept() {
    let xml = r#"<root xmlns:xi="http://www.w3.org/2001/XInclude"><xi:include xpointer="nowhere"/></root>"#;
    let on = Config::new_with_custom_values(false, "@", "#text", NullValue::EmptyObject, false, true);
    assert_eq!(convert(xml, &on), expected(r#"{"root":{"include":{"@xpointer":"nowhere"}}}"#));
}

#[test]
fn xml_id_dropped_from_text_elements() {
    let xml = r#"<r><a xml:id="x" k="1">5</a></r>"#;
    let on = Config::new_with_custom_values(false, "@", "#text", NullValue::EmptyObject, false, true);
    assert_eq!(convert(xml, &on), expected(r##"{"r":{"a":{"#text":5,"@k":1}}}"##));
}

#[test]
fn mixed_content_reads_only_leading_text() {
    let conf = Config::new_with_defaults();
    assert_eq!(convert("<a>hello<b/></a>", &conf), expected(r#"{"a":"hello"}"#));
    assert_eq!(convert("<a><b>1</b>tail</a>", &conf), expected(r#"{"a":{"b":1}}"#));
    assert_eq!(convert("<a><!-- c --><b>1</b></a>", &conf), expected(r#"{"a":{"b":1}}"#));
}

#[test]
fn attribute_and_child_with_same_key_make_an_array() {
    let conf = Config::new_with_custom_values(false, "", "#text", NullValue::EmptyObject, false, false);
    assert_eq!(convert(r#"<a b="1"><b>2</b></a>"#, &conf), expected(r#"{"a":{"b":[1,2]}}"#));
}

#[test]
fn root_element_after_comment() {
    let conf = Config::new_with_defaults();
    assert_eq!(convert("<!-- c --><e>1</e>", &conf), expected(r#"{"e":1}"#));
}

#[test]
fn conversion_of_a_built_tree() {
    let tree = XmlElement {
        name: "a".to_owned(),
        namespace: None,
        text: None,
        has_children: true,
        attributes: vec![XmlAttribute { name: "k".to_owned(), namespace: None, value: " 01 ".to_owned() }],
        children: vec![XmlElement {
            name: "b".to_owned(),
            namespace: None,
            text: Some("x".to_owned()),
            has_children: true,
            attributes: vec![],
            children: vec![],
        }],
    };
    let conf = Config::new_with_defaults();
    assert_eq!(to_serde(&xml_to_map(&tree, &conf)), expected(r#"{"a":{"@k":1,"b":"x"}}"#));
}

#[test]
fn colliding_attribute_keys_keep_the_last() {
    let xml = r#"<a xmlns:p="urn:1" xmlns:q="urn:2" p:x="1" q:x="2"/>"#;
    let conf = Config::new_with_defaults();
    let v = xml_str_to_json(xml, &conf).unwrap();
    match &v {
        JsonValue::Object(o) => match &o[0].1 {
            JsonValue::Object(inner) => {
                assert_eq!(inner.len(), 1);
                assert_eq!(inner[0], ("@x".to_owned(), JsonValue::Number(2)));
            }
            other => panic!("not an object: {other:?}"),
        },
        other => panic!("not an object: {other:?}"),
    }
    assert_eq!(to_serde(&v), expected(r#"{"a":{"@x":2}}"#));
}

#[test]
fn document_has_one_key_named_after_root() {
    let conf = Config::new_with_defaults();
    let v = xml_str_to_json("<root><x>1</x><y/></root>", &conf).unwrap();
    match v {
        JsonValue::Object(o) => {
            assert_eq!(o.len(), 1);
            assert_eq!(o[0].0, "root");
        }
        other => panic!("not an object: {other:?}"),
    }
}
