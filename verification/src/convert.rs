//! The conversion of XML elements into JSON values.
//!
//! An element with text and no attributes becomes the value of its text;
//! with attributes, an object of its attributes and its text. Any other
//! element becomes an object of its attributes and child elements, where
//! repeated child names are collected into arrays as the JSON type rules
//! of the configuration say. Text values are typed by those rules too.

use vstd::prelude::*;

use crate::config::{
    get_json_type, rule_for, scalar_type_of, Config, JsonArray, JsonType,
    NullValue, SpecConfig, SpecJsonArray, SpecJsonType,
};
use crate::json::{
    find_key, get_key, has_key, key_index, lemma_array_view, lemma_key_index, lemma_key_index_exists,
    lemma_object_view, obj_append, obj_insert, object_append, object_insert, object_view, JsonValue,
    SpecJson, SpecObject,
};
use crate::text::{
    concat, concat3, is_decimal_float, is_decimal_float_text, parse_u64, parse_u64_spec, str_eq, trim,
    trimmed,
};
use crate::xml::{
    attrs_view, document_tree, elements_view, lemma_element_view, opt_view, parse_xml,
    roxmltree_nodes, SpecAttr, SpecXml, XmlAttribute, XmlElement, XmlError,
};

verus! {

/// The namespace of `xml:id`.
pub open spec fn xml_namespace() -> Seq<char> {
    "http://www.w3.org/XML/1998/namespace"@
}

/// The namespace of XInclude elements.
pub open spec fn xinclude_namespace() -> Seq<char> {
    "http://www.w3.org/2001/XInclude"@
}

/// Elements with an `xml:id`, by id: the element's name and its value.
pub type SpecPointees = Seq<(Seq<char>, (Seq<char>, SpecJson))>;

/// The result of converting one element: its value and, for an XInclude
/// element that was replaced, the name of the element it points at.
pub type SpecNodeResult = Option<(SpecJson, Option<Seq<char>>)>;

// ---------------------------------------------------------------------
// Text values
// ---------------------------------------------------------------------

/// `t` begins with the digit `0`.
pub open spec fn has_leading_zero(t: Seq<char>) -> bool {
    t.len() > 0 && t[0] == '0'
}

/// `t` begins with `0` that is not followed by `.`.
pub open spec fn zero_not_fraction(t: Seq<char>) -> bool {
    has_leading_zero(t) && !(t.len() > 1 && t[1] == '.')
}

/// The JSON value of a text, typed by `ty`:
/// - `AlwaysString`: the trimmed text as a string;
/// - `Bool(list)`: `true` where the trimmed text is in the list, `false` otherwise;
/// - `Infer`: a number where the trimmed text reads as a `u64`; a float where it
///   is any other decimal number of the grammar of `f64::from_str` (signed
///   numbers and integers beyond `u64` included); a boolean where it is `true`
///   or `false`; the trimmed text as a string otherwise. Where
///   `leading_zero_as_string` is set, a number with a leading zero is a string
///   instead, but for a lone `0` and a float whose `0` is followed by `.`
///   (`0.5`).
pub open spec fn parse_text_spec(text: Seq<char>, leading_zero_as_string: bool, ty: SpecJsonType) -> SpecJson {
    let t = trimmed(text);
    match ty {
        SpecJsonType::AlwaysString => SpecJson::Str(t),
        SpecJsonType::Bool(true_values) => SpecJson::Bool(true_values.contains(t)),
        SpecJsonType::Infer => match parse_u64_spec(t) {
            Some(v) => if leading_zero_as_string && has_leading_zero(t) && (v != 0 || t.len() > 1) {
                SpecJson::Str(t)
            } else {
                SpecJson::Number(v)
            },
            None => if is_decimal_float(t) {
                if leading_zero_as_string && zero_not_fraction(t) {
                    SpecJson::Str(t)
                } else {
                    SpecJson::Float(t)
                }
            } else if t == "true"@ {
                SpecJson::Bool(true)
            } else if t == "false"@ {
                SpecJson::Bool(false)
            } else {
                SpecJson::Str(t)
            },
        },
    }
}

// ---------------------------------------------------------------------
// Paths, attributes, text
// ---------------------------------------------------------------------

/// The path of a child named `name` under `path`.
pub open spec fn child_path(path: Seq<char>, name: Seq<char>) -> Seq<char> {
    path + "/"@ + name
}

/// The path of an attribute named `name` under `path`.
pub open spec fn attribute_path(path: Seq<char>, name: Seq<char>) -> Seq<char> {
    path + "/@"@ + name
}

/// The attribute is an `xml:id` that XInclude processing consumes.
pub open spec fn is_skipped_attribute(cfg: SpecConfig, a: SpecAttr) -> bool {
    cfg.process_xpointer_xincludes && a.namespace == Some(xml_namespace()) && a.name == "id"@
}

/// The object of the first `k` attributes: each under its prefixed name,
/// with its value typed by the rule for its path; a later attribute with
/// the same key replaces an earlier one.
pub open spec fn attrs_object(attrs: Seq<SpecAttr>, cfg: SpecConfig, path: Seq<char>, k: int) -> SpecObject
    decreases k,
{
    if k <= 0 {
        Seq::empty()
    } else {
        let o = attrs_object(attrs, cfg, path, k - 1);
        let a = attrs[k - 1];
        if is_skipped_attribute(cfg, a) {
            o
        } else {
            obj_insert(
                o,
                cfg.xml_attr_prefix + a.name,
                parse_text_spec(
                    a.value,
                    cfg.leading_zero_as_string,
                    scalar_type_of(rule_for(cfg, attribute_path(path, a.name))),
                ),
            )
        }
    }
}

/// The value of an element with the (trimmed, non-empty) text `text`.
pub open spec fn convert_text_spec(el: SpecXml, cfg: SpecConfig, text: Seq<char>, path: Seq<char>, ty: SpecJsonType) -> SpecJson {
    if el.attributes.len() > 0 {
        SpecJson::Object(
            obj_insert(
                attrs_object(el.attributes, cfg, path, el.attributes.len() as int),
                cfg.xml_text_node_prop_name,
                parse_text_spec(text, cfg.leading_zero_as_string, ty),
            ),
        )
    } else {
        parse_text_spec(text, cfg.leading_zero_as_string, ty)
    }
}

// ---------------------------------------------------------------------
// Elements
// ---------------------------------------------------------------------

/// The values of the attributes named `xpointer` among the first `k`.
pub open spec fn xpointer_values(attrs: Seq<SpecAttr>, k: int) -> Seq<Seq<char>>
    decreases k,
{
    if k <= 0 {
        Seq::empty()
    } else {
        let r = xpointer_values(attrs, k - 1);
        if attrs[k - 1].name == "xpointer"@ {
            r.push(attrs[k - 1].value)
        } else {
            r
        }
    }
}

/// The value of the first attribute `xml:id` among the first `k`.
pub open spec fn xml_id_of(attrs: Seq<SpecAttr>, k: int) -> Option<Seq<char>>
    decreases k,
{
    if k <= 0 {
        None
    } else {
        match xml_id_of(attrs, k - 1) {
            Some(v) => Some(v),
            None => if attrs[k - 1].namespace == Some(xml_namespace()) && attrs[k - 1].name == "id"@ {
                Some(attrs[k - 1].value)
            } else {
                None
            },
        }
    }
}

/// The element is an XInclude `include` with neither text nor children
/// and exactly one `xpointer`, which names a recorded element.
pub open spec fn is_resolved_xinclude(el: SpecXml, cfg: SpecConfig, ptrs: SpecPointees) -> bool {
    let xs = xpointer_values(el.attributes, el.attributes.len() as int);
    &&& cfg.process_xpointer_xincludes
    &&& el.namespace == Some(xinclude_namespace())
    &&& el.name == "include"@
    &&& el.text is None
    &&& !el.has_children
    &&& xs.len() == 1
    &&& has_key(ptrs, xs[0])
}

/// The conversion of an element at `path` (the path of its parent), with
/// the elements recorded so far by `xml:id`: its value (if any) and the name
/// to use for it (for a replaced XInclude), and the records afterwards.
pub open spec fn convert_node_spec(el: SpecXml, cfg: SpecConfig, path: Seq<char>, ptrs: SpecPointees) -> (SpecNodeResult, SpecPointees)
    decreases el, 2int, 0int,
{
    if is_resolved_xinclude(el, cfg, ptrs) {
        let x = xpointer_values(el.attributes, el.attributes.len() as int)[0];
        let (rename, pointee) = get_key(ptrs, x);
        (Some((pointee, Some(rename))), ptrs)
    } else {
        let epath = child_path(path, el.name);
        let ty = scalar_type_of(rule_for(cfg, epath));
        let (out, ptrs2) = match el.text {
            Some(t) => if trimmed(t).len() == 0 {
                convert_no_text_spec(el, cfg, epath, ptrs)
            } else {
                (Some(convert_text_spec(el, cfg, trimmed(t), epath, ty)), ptrs)
            },
            None => convert_no_text_spec(el, cfg, epath, ptrs),
        };
        let ptrs3 = match (xml_id_of(el.attributes, el.attributes.len() as int), out) {
            (Some(id), Some(o)) => if cfg.process_xpointer_xincludes {
                obj_insert(ptrs2, id, (el.name, o))
            } else {
                ptrs2
            },
            _ => ptrs2,
        };
        let res = match out {
            Some(o) => Some((o, None)),
            None => None,
        };
        (res, ptrs3)
    }
}

/// The value of an element without (non-blank) text, at its own `path`.
pub open spec fn convert_no_text_spec(el: SpecXml, cfg: SpecConfig, path: Seq<char>, ptrs: SpecPointees) -> (Option<SpecJson>, SpecPointees)
    decreases el, 1int, 0int,
{
    let (data, ptrs2) = children_fold(el, cfg, path, ptrs, el.children.len() as int);
    if data.len() > 0 {
        (Some(SpecJson::Object(data)), ptrs2)
    } else {
        (
            match cfg.empty_element_handling {
                NullValue::Null => Some(SpecJson::Null),
                NullValue::EmptyObject => Some(SpecJson::Object(Seq::empty())),
                NullValue::Ignore => None,
            },
            ptrs2,
        )
    }
}

/// The object of an element's attributes and its first `k` children, and
/// the records afterwards.
pub open spec fn children_fold(el: SpecXml, cfg: SpecConfig, path: Seq<char>, ptrs: SpecPointees, k: int) -> (SpecObject, SpecPointees)
    decreases el, 0int, k,
{
    if k <= 0 || k > el.children.len() {
        (attrs_object(el.attributes, cfg, path, el.attributes.len() as int), ptrs)
    } else {
        let (data, ptrs1) = children_fold(el, cfg, path, ptrs, k - 1);
        let child = el.children[k - 1];
        let (r, ptrs2) = convert_node_spec(child, cfg, path, ptrs1);
        (add_child(data, cfg, path, child.name, r), ptrs2)
    }
}

/// The object `data` with a converted child added under its name.
pub open spec fn add_child(data: SpecObject, cfg: SpecConfig, path: Seq<char>, child_name: Seq<char>, r: SpecNodeResult) -> SpecObject {
    match r {
        None => data,
        Some((val, rename)) => {
            let name = match rename {
                Some(n) => n,
                None => child_name,
            };
            if name.len() == 0 {
                data
            } else {
                match rule_for(cfg, child_path(path, name)) {
                    SpecJsonArray::Always(_) => obj_append(data, name, val),
                    SpecJsonArray::Infer(_) => if has_key(data, name) {
                        obj_append(data, name, val)
                    } else {
                        obj_insert(data, name, val)
                    },
                    SpecJsonArray::PlaceSingletonIntoArray { array_name, .. } => obj_append(
                        data,
                        array_name,
                        SpecJson::Object(seq![(name, val)]),
                    ),
                }
            }
        },
    }
}

/// The JSON value of a document with root element `root`: an object with
/// one key, the root's name, whose value is the root's value (`null` where
/// it has none).
pub open spec fn xml_to_map_spec(root: SpecXml, cfg: SpecConfig) -> SpecJson {
    let (r, _) = convert_node_spec(root, cfg, Seq::empty(), Seq::empty());
    let (val, name) = match r {
        Some((v, Some(n))) => (v, n),
        Some((v, None)) => (v, root.name),
        None => (SpecJson::Null, root.name),
    };
    SpecJson::Object(seq![(name, val)])
}

// ---------------------------------------------------------------------
// Views of the results
// ---------------------------------------------------------------------

pub open spec fn opt_json_view(o: Option<JsonValue>) -> Option<SpecJson> {
    match o {
        Some(v) => Some(v@),
        None => None,
    }
}

pub open spec fn node_result_view(r: Option<(JsonValue, Option<String>)>) -> SpecNodeResult {
    match r {
        Some((v, n)) => Some((v@, opt_view(n))),
        None => None,
    }
}

pub open spec fn pointees_view(v: Seq<(String, (String, JsonValue))>) -> SpecPointees {
    Seq::new(v.len(), |i: int| (v[i].0@, (v[i].1.0@, v[i].1.1@)))
}

// ---------------------------------------------------------------------
// Executable conversion
// ---------------------------------------------------------------------

/// Whether `o` holds the string `lit`.
fn opt_is(o: &Option<String>, lit: &str) -> (res: bool)
    ensures
        res == (opt_view(*o) == Some(lit@)),
{
    match o {
        Some(s) => str_eq(s.as_str(), lit),
        None => false,
    }
}

fn has_leading_zero_text(t: &str) -> (res: bool)
    ensures
        res == has_leading_zero(t@),
{
    t.unicode_len() > 0 && t.get_char(0) == '0'
}

fn zero_not_fraction_text(t: &str) -> (res: bool)
    ensures
        res == zero_not_fraction(t@),
{
    let n = t.unicode_len();
    n > 0 && t.get_char(0) == '0' && !(n > 1 && t.get_char(1) == '.')
}

/// Whether `t` is among `values`.
fn contains_str(values: &Vec<&'static str>, t: &str) -> (res: bool)
    ensures
        res == Seq::new(values.len() as nat, |i: int| values@[i]@).contains(t@),
{
    let ghost vs = Seq::new(values.len() as nat, |i: int| values@[i]@);
    let mut i: usize = 0;
    while i < values.len()
        invariant
            i <= values.len(),
            vs == Seq::new(values.len() as nat, |i: int| values@[i]@),
            forall|j: int| 0 <= j < i ==> vs[j] != t@,
        decreases values.len() - i,
    {
        if str_eq(values[i], t) {
            assert(vs[i as int] == t@);
            return true;
        }
        i = i + 1;
    }
    false
}

/// The JSON value of a text, typed by `json_type`.
pub fn parse_text(text: &str, leading_zero_as_string: bool, json_type: &JsonType) -> (res: JsonValue)
    ensures
        res@ == parse_text_spec(text@, leading_zero_as_string, json_type@),
{
    reveal(parse_text_spec);
    let t = trim(text);
    match json_type {
        JsonType::AlwaysString => JsonValue::String(t.to_owned()),
        JsonType::Bool(true_values) => JsonValue::Bool(contains_str(true_values, t)),
        JsonType::Infer => match parse_u64(t) {
            Some(v) => {
                if leading_zero_as_string && has_leading_zero_text(t) && (v != 0 || t.unicode_len()
                    > 1) {
                    JsonValue::String(t.to_owned())
                } else {
                    JsonValue::Number(v)
                }
            },
            None => {
                if is_decimal_float_text(t) {
                    if leading_zero_as_string && zero_not_fraction_text(t) {
                        JsonValue::String(t.to_owned())
                    } else {
                        JsonValue::Float(t.to_owned())
                    }
                } else if str_eq(t, "true") {
                    JsonValue::Bool(true)
                } else if str_eq(t, "false") {
                    JsonValue::Bool(false)
                } else {
                    JsonValue::String(t.to_owned())
                }
            },
        },
    }
}

/// The scalar type of the rule for `path`.
fn scalar_type_at<'c>(config: &'c Config, path: &str, infer: &'c JsonType) -> (res: &'c JsonType)
    requires
        *infer == JsonType::Infer,
    ensures
        res@ == scalar_type_of(rule_for(config@, path@)),
{
    match get_json_type(config, path) {
        Some(a) => a.scalar_type(),
        None => infer,
    }
}

/// Adds the attributes to the empty object `data`.
fn insert_attributes(attrs: &Vec<XmlAttribute>, config: &Config, path: &str, data: &mut Vec<(String, JsonValue)>)
    requires
        object_view(old(data)@) == Seq::<(Seq<char>, SpecJson)>::empty(),
    ensures
        object_view(final(data)@) == attrs_object(attrs_view(attrs@), config@, path@, attrs.len() as int),
{
    let ghost av = attrs_view(attrs@);
    let infer = JsonType::Infer;
    let mut i: usize = 0;
    while i < attrs.len()
        invariant
            i <= attrs.len(),
            av == attrs_view(attrs@),
            infer == JsonType::Infer,
            object_view(data@) == attrs_object(av, config@, path@, i as int),
        decreases attrs.len() - i,
    {
        let a = &attrs[i];
        assert(av[i as int] == a@);
        let skipped = config.process_xpointer_xincludes && opt_is(&a.namespace, "http://www.w3.org/XML/1998/namespace")
            && str_eq(a.name.as_str(), "id");
        if !skipped {
            let key = concat(config.xml_attr_prefix.as_str(), a.name.as_str());
            let apath = concat3(path, "/@", a.name.as_str());
            let ty = scalar_type_at(config, apath.as_str(), &infer);
            let value = parse_text(a.value.as_str(), config.leading_zero_as_string, ty);
            object_insert(data, key, value);
        }
        i = i + 1;
    }
}

/// The value of an element with the non-blank text `text`, at its own `path`.
fn convert_text(el: &XmlElement, config: &Config, text: &str, path: &str, json_type: &JsonType) -> (res: JsonValue)
    ensures
        res@ == convert_text_spec(el@, config@, text@, path@, json_type@),
{
    proof {
        lemma_element_view(*el);
    }
    if el.attributes.len() > 0 {
        let mut data: Vec<(String, JsonValue)> = Vec::new();
        assert(object_view(data@) =~= Seq::<(Seq<char>, SpecJson)>::empty());
        insert_attributes(&el.attributes, config, path, &mut data);
        let v = parse_text(text, config.leading_zero_as_string, json_type);
        object_insert(&mut data, config.xml_text_node_prop_name.clone(), v);
        proof {
            lemma_object_view(data);
        }
        JsonValue::Object(data)
    } else {
        parse_text(text, config.leading_zero_as_string, json_type)
    }
}

proof fn lemma_xml_id_stays(attrs: Seq<SpecAttr>, k: int, m: int)
    requires
        0 <= k <= m,
        xml_id_of(attrs, k) is Some,
    ensures
        xml_id_of(attrs, m) == xml_id_of(attrs, k),
    decreases m - k,
{
    if k < m {
        lemma_xml_id_stays(attrs, k, m - 1);
    }
}

/// The position of the first attribute `xml:id`.
fn xml_id_position(attrs: &Vec<XmlAttribute>) -> (res: Option<usize>)
    ensures
        match xml_id_of(attrs_view(attrs@), attrs.len() as int) {
            Some(v) => res matches Some(i) && i < attrs.len() && attrs@[i as int].value@ == v,
            None => res is None,
        },
{
    let ghost av = attrs_view(attrs@);
    let mut i: usize = 0;
    while i < attrs.len()
        invariant
            i <= attrs.len(),
            av == attrs_view(attrs@),
            xml_id_of(av, i as int) is None,
        decreases attrs.len() - i,
    {
        assert(av[i as int] == attrs@[i as int]@);
        if opt_is(&attrs[i].namespace, "http://www.w3.org/XML/1998/namespace") && str_eq(attrs[i].name.as_str(), "id") {
            proof {
                lemma_xml_id_stays(av, i + 1, attrs.len() as int);
            }
            return Some(i);
        }
        i = i + 1;
    }
    None
}

/// The position of the one attribute named `xpointer`, where there is
/// exactly one.
fn single_xpointer(attrs: &Vec<XmlAttribute>) -> (res: Option<usize>)
    ensures
        xpointer_values(attrs_view(attrs@), attrs.len() as int).len() == 1 <==> res is Some,
        res matches Some(i) ==> i < attrs.len() && attrs@[i as int].value@ == xpointer_values(
            attrs_view(attrs@),
            attrs.len() as int,
        )[0],
{
    let ghost av = attrs_view(attrs@);
    let mut count: usize = 0;
    let mut first: usize = 0;
    let mut i: usize = 0;
    while i < attrs.len()
        invariant
            i <= attrs.len(),
            av == attrs_view(attrs@),
            count == xpointer_values(av, i as int).len(),
            count <= i,
            count >= 1 ==> first < attrs.len() && attrs@[first as int].value@ == xpointer_values(
                av,
                i as int,
            )[0],
        decreases attrs.len() - i,
    {
        assert(av[i as int] == attrs@[i as int]@);
        if str_eq(attrs[i].name.as_str(), "xpointer") {
            if count == 0 {
                first = i;
            }
            count = count + 1;
        }
        i = i + 1;
    }
    if count == 1 {
        Some(first)
    } else {
        None
    }
}

/// The position of the record with id `k`.
fn find_pointee(ptrs: &Vec<(String, (String, JsonValue))>, k: &str) -> (res: Option<usize>)
    ensures
        res is None <==> !has_key(pointees_view(ptrs@), k@),
        res matches Some(i) ==> i == key_index(pointees_view(ptrs@), k@) && i < ptrs.len(),
{
    let ghost pv = pointees_view(ptrs@);
    let mut i: usize = 0;
    while i < ptrs.len()
        invariant
            i <= ptrs.len(),
            pv == pointees_view(ptrs@),
            forall|j: int| 0 <= j < i ==> pv[j].0 != k@,
        decreases ptrs.len() - i,
    {
        if str_eq(ptrs[i].0.as_str(), k) {
            proof {
                lemma_key_index(pv, k@, i as int);
            }
            return Some(i);
        }
        i = i + 1;
    }
    None
}

/// Records `value` under the id `k`.
fn pointee_insert(ptrs: &mut Vec<(String, (String, JsonValue))>, k: String, value: (String, JsonValue))
    ensures
        pointees_view(final(ptrs)@) == obj_insert(pointees_view(old(ptrs)@), k@, (value.0@, value.1@)),
{
    let ghost pv = pointees_view(ptrs@);
    let ghost e = (k@, (value.0@, value.1@));
    match find_pointee(ptrs, k.as_str()) {
        Some(i) => {
            proof {
                lemma_key_index_exists(pv, k@);
            }
            ptrs.set(i, (k, value));
            assert(pointees_view(ptrs@) =~= pv.update(i as int, e));
        },
        None => {
            ptrs.push((k, value));
            assert(pointees_view(ptrs@) =~= pv.push(e));
        },
    }
}

/// Adds a converted child to the object `data`.
fn add_child_value(data: &mut Vec<(String, JsonValue)>, config: &Config, path: &str, child_name: &String, r: Option<(JsonValue, Option<String>)>)
    ensures
        object_view(final(data)@) == add_child(object_view(old(data)@), config@, path@, child_name@, node_result_view(r)),
{
    match r {
        None => {},
        Some((val, rename)) => {
            let name: String = match rename {
                Some(n) => n,
                None => child_name.clone(),
            };
            if name.as_str().unicode_len() == 0 {
                return;
            }
            let cpath = concat3(path, "/", name.as_str());
            match get_json_type(config, cpath.as_str()) {
                Some(JsonArray::Always(_)) => {
                    object_append(data, name, val);
                },
                Some(JsonArray::PlaceSingletonIntoArray { array_name, .. }) => {
                    let mut o: Vec<(String, JsonValue)> = Vec::new();
                    let ghost e = (name@, val@);
                    o.push((name, val));
                    proof {
                        lemma_object_view(o);
                        assert(object_view(o@) =~= seq![e]);
                    }
                    object_append(data, array_name.clone(), JsonValue::Object(o));
                },
                _ => {
                    if find_key(data, &name).is_some() {
                        object_append(data, name, val);
                    } else {
                        object_insert(data, name, val);
                    }
                },
            }
        },
    }
}

/// The conversion of an element at `path` (the path of its parent).
fn convert_node(el: &XmlElement, config: &Config, path: &str, ptrs: &mut Vec<(String, (String, JsonValue))>) -> (res: Option<(JsonValue, Option<String>)>)
    ensures
        (node_result_view(res), pointees_view(final(ptrs)@)) == convert_node_spec(el@, config@, path@, pointees_view(old(ptrs)@)),
    decreases el, 2int, 0int,
{
    proof {
        lemma_element_view(*el);
    }
    let ghost p0 = pointees_view(ptrs@);
    if config.process_xpointer_xincludes && opt_is(&el.namespace, "http://www.w3.org/2001/XInclude") && str_eq(
        el.name.as_str(),
        "include",
    ) && el.text.is_none() && !el.has_children {
        if let Some(xi) = single_xpointer(&el.attributes) {
            if let Some(pi) = find_pointee(ptrs, el.attributes[xi].value.as_str()) {
                proof {
                    lemma_key_index_exists(p0, el.attributes@[xi as int].value@);
                }
                let rename = ptrs[pi].1.0.clone();
                let pointee = ptrs[pi].1.1.deep_copy();
                return Some((pointee, Some(rename)));
            }
        }
    }
    assert(!is_resolved_xinclude(el@, config@, p0));
    let epath = concat3(path, "/", el.name.as_str());
    let infer = JsonType::Infer;
    let ty = scalar_type_at(config, epath.as_str(), &infer);
    let out = match &el.text {
        Some(t) => {
            let tt = trim(t.as_str());
            if tt.unicode_len() == 0 {
                convert_no_text(el, config, &epath, ptrs)
            } else {
                Some(convert_text(el, config, tt, epath.as_str(), ty))
            }
        },
        None => convert_no_text(el, config, &epath, ptrs),
    };
    if config.process_xpointer_xincludes {
        if let Some(ii) = xml_id_position(&el.attributes) {
            if let Some(o) = &out {
                let copy = o.deep_copy();
                pointee_insert(ptrs, el.attributes[ii].value.clone(), (el.name.clone(), copy));
            }
        }
    }
    match out {
        Some(o) => Some((o, None)),
        None => None,
    }
}

/// The value of an element without non-blank text, at its own `path`.
fn convert_no_text(el: &XmlElement, config: &Config, path: &String, ptrs: &mut Vec<(String, (String, JsonValue))>) -> (res: Option<JsonValue>)
    ensures
        (opt_json_view(res), pointees_view(final(ptrs)@)) == convert_no_text_spec(el@, config@, path@, pointees_view(old(ptrs)@)),
    decreases el, 1int, 0int,
{
    proof {
        lemma_element_view(*el);
    }
    let ghost p0 = pointees_view(ptrs@);
    let mut data: Vec<(String, JsonValue)> = Vec::new();
    assert(object_view(data@) =~= Seq::<(Seq<char>, SpecJson)>::empty());
    insert_attributes(&el.attributes, config, path.as_str(), &mut data);
    let mut k: usize = 0;
    while k < el.children.len()
        invariant
            k <= el.children.len(),
            el@.children == elements_view(el.children@),
            (object_view(data@), pointees_view(ptrs@)) == children_fold(el@, config@, path@, p0, k as int),
        decreases el.children.len() - k,
    {
        let child = &el.children[k];
        assert(el@.children[k as int] == child@);
        proof {
            assert(decreases_to!(*el => el.children));
            assert(decreases_to!(el.children => el.children@));
            assert(decreases_to!(el.children@ => el.children@[k as int]));
        }
        let r = convert_node(child, config, path.as_str(), ptrs);
        add_child_value(&mut data, config, path.as_str(), &child.name, r);
        k = k + 1;
    }
    assert(el@.children.len() == el.children.len());
    assert(object_view(data@).len() == data.len());
    if data.len() > 0 {
        proof {
            lemma_object_view(data);
        }
        Some(JsonValue::Object(data))
    } else {
        match config.empty_element_handling {
            NullValue::Null => Some(JsonValue::Null),
            NullValue::EmptyObject => {
                proof {
                    lemma_object_view(data);
                    assert(object_view(data@) =~= Seq::<(Seq<char>, SpecJson)>::empty());
                }
                Some(JsonValue::Object(data))
            },
            NullValue::Ignore => None,
        }
    }
}

/// The JSON value of a document whose root element is `e`: an object with
/// one key, the root's name, whose value is the root's value.
pub fn xml_to_map(e: &XmlElement, config: &Config) -> (res: JsonValue)
    ensures
        res@ == xml_to_map_spec(e@, config@),
{
    let mut ptrs: Vec<(String, (String, JsonValue))> = Vec::new();
    assert(pointees_view(ptrs@) =~= Seq::<(Seq<char>, (Seq<char>, SpecJson))>::empty());
    let empty = String::new();
    assert(empty@ =~= Seq::<char>::empty());
    let r = convert_node(e, config, empty.as_str(), &mut ptrs);
    let (val, name) = match r {
        Some((v, Some(n))) => (v, n),
        Some((v, None)) => (v, e.name.clone()),
        None => (JsonValue::Null, e.name.clone()),
    };
    let ghost entry = (name@, val@);
    let mut data: Vec<(String, JsonValue)> = Vec::new();
    data.push((name, val));
    proof {
        lemma_object_view(data);
        assert(object_view(data@) =~= seq![entry]);
    }
    JsonValue::Object(data)
}

/// Converts the XML text `xml` into a JSON value with the settings of `config`.
pub fn xml_str_to_json(xml: &str, config: &Config) -> (res: Result<JsonValue, XmlError>)
    ensures
        match roxmltree_nodes(xml@, config.allow_dtd) {
            Err(e) => res matches Err(XmlError::Syntax(s)) && s@ == e,
            Ok(nodes) => document_tree(nodes) is Some && (res matches Ok(v) && v@ == xml_to_map_spec(
                document_tree(nodes)->0,
                config@,
            )),
        },
{
    let root = parse_xml(xml, config.allow_dtd)?;
    Ok(xml_to_map(&root, config))
}

/// Converts the XML text `xml` into a JSON value with the settings of `config`.
pub fn xml_string_to_json(xml: String, config: &Config) -> (res: Result<JsonValue, XmlError>)
    ensures
        match roxmltree_nodes(xml@, config.allow_dtd) {
            Err(e) => res matches Err(XmlError::Syntax(s)) && s@ == e,
            Ok(nodes) => document_tree(nodes) is Some && (res matches Ok(v) && v@ == xml_to_map_spec(
                document_tree(nodes)->0,
                config@,
            )),
        },
{
    xml_str_to_json(xml.as_str(), config)
}

} // verus!
