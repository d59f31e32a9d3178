//! Properties of the conversion as a whole.

use vstd::prelude::*;

use crate::config::{
    first_regex_match, json_type_for, rule_for, set_rule, NullValue, SpecConfig, SpecJsonArray,
    SpecJsonType,
};
use crate::convert::{
    add_child, attrs_object, child_path, children_fold, convert_no_text_spec, convert_node_spec,
    is_resolved_xinclude, parse_text_spec, xml_to_map_spec, SpecPointees,
};
use crate::json::{
    distinct_keys, append_value, get_key, has_key, key_index, lemma_append_ok, lemma_insert_ok,
    lemma_key_index_exists, lemma_obj_append, lemma_obj_insert, obj_insert, object_ok, well_keyed,
    SpecJson, SpecObject,
};
use crate::convert::{
    convert_text_spec, is_skipped_attribute, xml_id_of, xml_namespace, xpointer_values,
};
use crate::json::keys_of;
use crate::text::{is_decimal_float, is_white_space, parse_u64_spec, trim_end, trim_start, trimmed};
use crate::xml::SpecXml;

verus! {

/// A document converts into an object with exactly one key, the name of
/// its root element.
pub proof fn law_document_is_object_named_after_root(root: SpecXml, cfg: SpecConfig)
    ensures
        xml_to_map_spec(root, cfg) matches SpecJson::Object(o) && o.len() == 1 && o[0].0
            == root.name,
{
    let empty: SpecPointees = Seq::empty();
    assert(!is_resolved_xinclude(root, cfg, empty));
}

/// After a JSON type rule is set for a path, that rule applies to the path
/// (unless a regular-expression rule matches it, which takes precedence),
/// every other path keeps its rule, and no path gets a second rule.
pub proof fn law_set_rule_applies(cfg: SpecConfig, path: Seq<char>, a: SpecJsonArray)
    ensures
        first_regex_match(cfg.json_regex_type_overrides, path, 0) is None ==> rule_for(
            SpecConfig { json_type_overrides: set_rule(cfg.json_type_overrides, path, a), ..cfg },
            path,
        ) == a,
        forall|q: Seq<char>|
            q != path ==> rule_for(
                SpecConfig { json_type_overrides: set_rule(cfg.json_type_overrides, path, a), ..cfg },
                q,
            ) == rule_for(cfg, q),
        distinct_keys(cfg.json_type_overrides) ==> distinct_keys(
            set_rule(cfg.json_type_overrides, path, a),
        ),
{
    reveal(rule_for);
    lemma_obj_insert(cfg.json_type_overrides, path, a);
}

/// Without regular-expression rules, the rule for a path is the one set for
/// that path itself, or `Infer(Infer)`.
pub proof fn law_rule_without_regex_rules_is_path_lookup(cfg: SpecConfig, path: Seq<char>)
    requires
        cfg.json_regex_type_overrides.len() == 0,
    ensures
        rule_for(cfg, path) == json_type_for(cfg.json_type_overrides, path),
{
    reveal(rule_for);
}

/// Under an `Always` rule, a converted child is collected into an array
/// under its name, as the last element of that array.
pub proof fn law_always_rule_collects_into_array(
    data: SpecObject,
    cfg: SpecConfig,
    path: Seq<char>,
    name: Seq<char>,
    val: SpecJson,
)
    requires
        name.len() > 0,
        rule_for(cfg, child_path(path, name)) is Always,
    ensures
        ({
            let r = add_child(data, cfg, path, name, Some((val, None)));
            &&& has_key(r, name)
            &&& get_key(r, name) matches SpecJson::Array(arr) && arr.len() > 0 && arr.last() == val
        }),
{
    lemma_obj_append(data, name, val);
    if has_key(data, name) {
        let old = get_key(data, name);
        match old {
            SpecJson::Array(a) => {
                assert(a.push(val).last() == val);
            },
            _ => {
                assert(seq![old, val].last() == val);
            },
        }
    } else {
        assert(seq![val].last() == val);
    }
}

/// Under an `Infer` rule, a child whose name is new is stored as it is,
/// and a child whose name is already there is collected with the earlier
/// value into an array.
pub proof fn law_infer_rule_arrays_only_repeats(
    data: SpecObject,
    cfg: SpecConfig,
    path: Seq<char>,
    name: Seq<char>,
    val: SpecJson,
)
    requires
        name.len() > 0,
        rule_for(cfg, child_path(path, name)) is Infer,
    ensures
        ({
            let r = add_child(data, cfg, path, name, Some((val, None)));
            &&& has_key(r, name)
            &&& !has_key(data, name) ==> get_key(r, name) == val
            &&& has_key(data, name) ==> get_key(r, name) == append_value(get_key(data, name), val)
        }),
{
    if has_key(data, name) {
        lemma_obj_append(data, name, val);
    } else {
        lemma_obj_insert(data, name, val);
    }
}

/// Under a `PlaceSingletonIntoArray` rule, a converted child is placed, in
/// an object with its name as the only key, last in the array named by the
/// rule.
pub proof fn law_singleton_rule_places_into_named_array(
    data: SpecObject,
    cfg: SpecConfig,
    path: Seq<char>,
    name: Seq<char>,
    val: SpecJson,
)
    requires
        name.len() > 0,
        rule_for(cfg, child_path(path, name)) is PlaceSingletonIntoArray,
    ensures
        ({
            let array_name = rule_for(cfg, child_path(path, name))->array_name;
            let r = add_child(data, cfg, path, name, Some((val, None)));
            &&& has_key(r, array_name)
            &&& get_key(r, array_name) matches SpecJson::Array(arr) && arr.len() > 0 && arr.last()
                == SpecJson::Object(seq![(name, val)])
        }),
{
    let array_name = rule_for(cfg, child_path(path, name))->array_name;
    let item = SpecJson::Object(seq![(name, val)]);
    lemma_obj_append(data, array_name, item);
    if has_key(data, array_name) {
        let old = get_key(data, array_name);
        match old {
            SpecJson::Array(a) => {
                assert(a.push(item).last() == item);
            },
            _ => {
                assert(seq![old, item].last() == item);
            },
        }
    } else {
        assert(seq![item].last() == item);
    }
}

/// How text values are typed: `AlwaysString` keeps the trimmed text as a
/// string, `Bool` gives whether the trimmed text is in its list, and with
/// `Infer` a number written with a leading zero (`007`, `01.5`) stays a string
/// where leading zeros count as text and is a number otherwise, while a lone
/// `0` and a float beginning with `0.` are always numbers.
pub proof fn law_text_typing(text: Seq<char>, leading_zero_as_string: bool, list: Seq<Seq<char>>)
    ensures
        parse_text_spec(text, leading_zero_as_string, SpecJsonType::AlwaysString) == SpecJson::Str(
            trimmed(text),
        ),
        parse_text_spec(text, leading_zero_as_string, SpecJsonType::Bool(list)) == SpecJson::Bool(
            list.contains(trimmed(text)),
        ),
        ({
            let t = trimmed(text);
            leading_zero_as_string && parse_u64_spec(t) is Some && t.len() > 1 && t[0] == '0'
                ==> parse_text_spec(text, leading_zero_as_string, SpecJsonType::Infer)
                == SpecJson::Str(t)
        }),
        ({
            let t = trimmed(text);
            !leading_zero_as_string && parse_u64_spec(t) is Some ==> parse_text_spec(
                text,
                leading_zero_as_string,
                SpecJsonType::Infer,
            ) == SpecJson::Number(parse_u64_spec(t)->0)
        }),
        ({
            let t = trimmed(text);
            t == seq!['0'] ==> parse_text_spec(text, leading_zero_as_string, SpecJsonType::Infer)
                == SpecJson::Number(0)
        }),
        ({
            let t = trimmed(text);
            parse_u64_spec(t) is None && is_decimal_float(t) ==> parse_text_spec(
                text,
                leading_zero_as_string,
                SpecJsonType::Infer,
            ) == if leading_zero_as_string && t[0] == '0' && !(t.len() > 1 && t[1] == '.') {
                SpecJson::Str(t)
            } else {
                SpecJson::Float(t)
            }
        }),
{
    reveal(parse_text_spec);
    let t = trimmed(text);
    if t == seq!['0'] {
        assert(crate::text::without_plus(t) == t);
        assert(crate::text::decimal_value(t) == 0) by {
            assert(t.drop_last() =~= Seq::<char>::empty());
            assert(crate::text::decimal_value(t.drop_last()) == 0);
            assert(t.last() == '0');
        }
    }
}

/// Whitespace around a text never changes its value.
pub proof fn law_surrounding_whitespace_is_ignored(text: Seq<char>, leading_zero_as_string: bool, ty: SpecJsonType)
    ensures
        parse_text_spec(trimmed(text), leading_zero_as_string, ty) == parse_text_spec(
            text,
            leading_zero_as_string,
            ty,
        ),
{
    reveal(parse_text_spec);
    crate::text::lemma_trimmed_idempotent(text);
}

/// An element without attributes, children or non-blank text, where empty
/// elements are ignored.
pub open spec fn is_ignored_empty(el: SpecXml, cfg: SpecConfig) -> bool {
    &&& cfg.empty_element_handling == NullValue::Ignore
    &&& el.attributes.len() == 0
    &&& el.children.len() == 0
    &&& (el.text matches Some(t) ==> trimmed(t).len() == 0)
}

proof fn lemma_ignored_empty_element(el: SpecXml, cfg: SpecConfig, path: Seq<char>, ptrs: SpecPointees)
    requires
        is_ignored_empty(el, cfg),
    ensures
        convert_node_spec(el, cfg, path, ptrs) == (None::<(SpecJson, Option<Seq<char>>)>, ptrs),
{
    let epath = child_path(path, el.name);
    assert(crate::convert::xpointer_values(el.attributes, 0).len() == 0);
    assert(!is_resolved_xinclude(el, cfg, ptrs));
    assert(attrs_object(el.attributes, cfg, epath, 0).len() == 0);
    assert(children_fold(el, cfg, epath, ptrs, 0) == (attrs_object(el.attributes, cfg, epath, 0), ptrs));
    assert(convert_no_text_spec(el, cfg, epath, ptrs) == (None::<SpecJson>, ptrs));
}

proof fn lemma_fold_of_ignored(root: SpecXml, cfg: SpecConfig, epath: Seq<char>, ptrs: SpecPointees, k: int)
    requires
        0 <= k <= root.children.len(),
        root.attributes.len() == 0,
        forall|i: int| 0 <= i < root.children.len() ==> is_ignored_empty(#[trigger] root.children[i], cfg),
    ensures
        children_fold(root, cfg, epath, ptrs, k).0.len() == 0,
        children_fold(root, cfg, epath, ptrs, k).1 == ptrs,
    decreases k,
{
    assert(attrs_object(root.attributes, cfg, epath, 0).len() == 0);
    if k > 0 {
        lemma_fold_of_ignored(root, cfg, epath, ptrs, k - 1);
        lemma_ignored_empty_element(root.children[k - 1], cfg, epath, ptrs);
    }
}

/// Where empty elements are ignored, a root element with no attributes and
/// no non-blank text, whose children are all such elements too, converts
/// into `null` under its name: both `<a><x/></a>` and `<a/>` become
/// `{"a":null}`.
pub proof fn law_ignored_empty_root_is_null(root: SpecXml, cfg: SpecConfig)
    requires
        cfg.empty_element_handling == NullValue::Ignore,
        root.attributes.len() == 0,
        root.text matches Some(t) ==> trimmed(t).len() == 0,
        forall|i: int| 0 <= i < root.children.len() ==> is_ignored_empty(#[trigger] root.children[i], cfg),
    ensures
        xml_to_map_spec(root, cfg) == SpecJson::Object(seq![(root.name, SpecJson::Null)]),
{
    let empty: SpecPointees = Seq::empty();
    let epath = child_path(Seq::empty(), root.name);
    assert(!is_resolved_xinclude(root, cfg, empty));
    assert(attrs_object(root.attributes, cfg, epath, 0).len() == 0);
    lemma_fold_of_ignored(root, cfg, epath, empty, root.children.len() as int);
    assert(convert_no_text_spec(root, cfg, epath, empty).0 is None);
}

// ---------------------------------------------------------------------
// Objects have distinct keys
// ---------------------------------------------------------------------

/// The recorded values are well keyed.
pub open spec fn pointees_ok(ptrs: SpecPointees) -> bool {
    forall|i: int| 0 <= i < ptrs.len() ==> well_keyed(#[trigger] ptrs[i].1.1)
}

proof fn lemma_parse_text_ok(text: Seq<char>, lz: bool, ty: SpecJsonType)
    ensures
        well_keyed(parse_text_spec(text, lz, ty)),
{
    reveal(parse_text_spec);
}

proof fn lemma_attrs_ok(attrs: Seq<crate::xml::SpecAttr>, cfg: SpecConfig, path: Seq<char>, k: int)
    ensures
        object_ok(attrs_object(attrs, cfg, path, k)),
    decreases k,
{
    if k > 0 {
        lemma_attrs_ok(attrs, cfg, path, k - 1);
        let a = attrs[k - 1];
        if !is_skipped_attribute(cfg, a) {
            let ty = crate::config::scalar_type_of(
                rule_for(cfg, crate::convert::attribute_path(path, a.name)),
            );
            lemma_parse_text_ok(a.value, cfg.leading_zero_as_string, ty);
            lemma_insert_ok(
                attrs_object(attrs, cfg, path, k - 1),
                cfg.xml_attr_prefix + a.name,
                parse_text_spec(a.value, cfg.leading_zero_as_string, ty),
            );
        }
    } else {
        assert(attrs_object(attrs, cfg, path, k) =~= Seq::<(Seq<char>, SpecJson)>::empty());
    }
}

proof fn lemma_add_child_ok(data: SpecObject, cfg: SpecConfig, path: Seq<char>, name: Seq<char>, r: crate::convert::SpecNodeResult)
    requires
        object_ok(data),
        r matches Some((v, _)) ==> well_keyed(v),
    ensures
        object_ok(add_child(data, cfg, path, name, r)),
{
    if let Some((val, rename)) = r {
        let n = match rename {
            Some(x) => x,
            None => name,
        };
        if n.len() > 0 {
            match rule_for(cfg, child_path(path, n)) {
                SpecJsonArray::Always(_) => lemma_append_ok(data, n, val),
                SpecJsonArray::Infer(_) => {
                    if has_key(data, n) {
                        lemma_append_ok(data, n, val);
                    } else {
                        lemma_insert_ok(data, n, val);
                    }
                },
                SpecJsonArray::PlaceSingletonIntoArray { array_name, .. } => {
                    let single = seq![(n, val)];
                    assert(object_ok(single));
                    lemma_append_ok(data, array_name, SpecJson::Object(single));
                },
            }
        }
    }
}

proof fn lemma_text_ok(el: SpecXml, cfg: SpecConfig, text: Seq<char>, path: Seq<char>, ty: SpecJsonType)
    ensures
        well_keyed(convert_text_spec(el, cfg, text, path, ty)),
{
    lemma_parse_text_ok(text, cfg.leading_zero_as_string, ty);
    if el.attributes.len() > 0 {
        lemma_attrs_ok(el.attributes, cfg, path, el.attributes.len() as int);
        lemma_insert_ok(
            attrs_object(el.attributes, cfg, path, el.attributes.len() as int),
            cfg.xml_text_node_prop_name,
            parse_text_spec(text, cfg.leading_zero_as_string, ty),
        );
    }
}

proof fn lemma_node_ok(el: SpecXml, cfg: SpecConfig, path: Seq<char>, ptrs: SpecPointees)
    requires
        pointees_ok(ptrs),
    ensures
        convert_node_spec(el, cfg, path, ptrs).0 matches Some((v, _)) ==> well_keyed(v),
        pointees_ok(convert_node_spec(el, cfg, path, ptrs).1),
    decreases el, 2int, 0int,
{
    if is_resolved_xinclude(el, cfg, ptrs) {
        let x = xpointer_values(el.attributes, el.attributes.len() as int)[0];
        lemma_key_index_exists(ptrs, x);
        assert(get_key(ptrs, x) == ptrs[key_index(ptrs, x)].1);
    } else {
        let epath = child_path(path, el.name);
        let ty = crate::config::scalar_type_of(rule_for(cfg, epath));
        lemma_no_text_ok(el, cfg, epath, ptrs);
        lemma_text_ok(el, cfg, match el.text { Some(t) => trimmed(t), None => Seq::empty() }, epath, ty);
        let (out, ptrs2) = match el.text {
            Some(t) => if trimmed(t).len() == 0 {
                convert_no_text_spec(el, cfg, epath, ptrs)
            } else {
                (Some(convert_text_spec(el, cfg, trimmed(t), epath, ty)), ptrs)
            },
            None => convert_no_text_spec(el, cfg, epath, ptrs),
        };
        assert(pointees_ok(ptrs2));
        if let (Some(id), Some(o)) = (xml_id_of(el.attributes, el.attributes.len() as int), out) {
            if cfg.process_xpointer_xincludes {
                let p3 = obj_insert(ptrs2, id, (el.name, o));
                lemma_obj_insert(ptrs2, id, (el.name, o));
                if has_key(ptrs2, id) {
                    lemma_key_index_exists(ptrs2, id);
                    let i = key_index(ptrs2, id);
                    assert forall|j: int| 0 <= j < p3.len() implies well_keyed(#[trigger] p3[j].1.1) by {
                        if j != i {
                            assert(p3[j] == ptrs2[j]);
                        }
                    }
                } else {
                    assert forall|j: int| 0 <= j < p3.len() implies well_keyed(#[trigger] p3[j].1.1) by {
                        if j < ptrs2.len() {
                            assert(p3[j] == ptrs2[j]);
                        }
                    }
                }
            }
        }
    }
}

proof fn lemma_no_text_ok(el: SpecXml, cfg: SpecConfig, path: Seq<char>, ptrs: SpecPointees)
    requires
        pointees_ok(ptrs),
    ensures
        convert_no_text_spec(el, cfg, path, ptrs).0 matches Some(v) ==> well_keyed(v),
        pointees_ok(convert_no_text_spec(el, cfg, path, ptrs).1),
    decreases el, 1int, 0int,
{
    lemma_fold_ok(el, cfg, path, ptrs, el.children.len() as int);
    let e: SpecObject = Seq::empty();
    assert(object_ok(e));
}

proof fn lemma_fold_ok(el: SpecXml, cfg: SpecConfig, path: Seq<char>, ptrs: SpecPointees, k: int)
    requires
        pointees_ok(ptrs),
    ensures
        object_ok(children_fold(el, cfg, path, ptrs, k).0),
        pointees_ok(children_fold(el, cfg, path, ptrs, k).1),
    decreases el, 0int, k,
{
    if k <= 0 || k > el.children.len() {
        lemma_attrs_ok(el.attributes, cfg, path, el.attributes.len() as int);
    } else {
        lemma_fold_ok(el, cfg, path, ptrs, k - 1);
        let (data, ptrs1) = children_fold(el, cfg, path, ptrs, k - 1);
        let child = el.children[k - 1];
        lemma_node_ok(child, cfg, path, ptrs1);
        let (r, ptrs2) = convert_node_spec(child, cfg, path, ptrs1);
        lemma_add_child_ok(data, cfg, path, child.name, r);
    }
}

/// Every object in the conversion of a document has pairwise distinct keys,
/// as the objects of JSON do.
pub proof fn law_objects_have_distinct_keys(root: SpecXml, cfg: SpecConfig)
    ensures
        well_keyed(xml_to_map_spec(root, cfg)),
{
    let empty: SpecPointees = Seq::empty();
    lemma_node_ok(root, cfg, Seq::empty(), empty);
    let r = xml_to_map_spec(root, cfg);
    let o = r->Object_0;
    assert(object_ok(o));
}

// ---------------------------------------------------------------------
// Numbers without a leading zero
// ---------------------------------------------------------------------

/// A number that does not begin with `0` is a number whether or not
/// leading zeros count as text: `42` is `42`, `4.5` is the float `4.5`.
pub proof fn law_numbers_without_leading_zero_stay_numbers(text: Seq<char>, leading_zero_as_string: bool)
    ensures
        ({
            let t = trimmed(text);
            parse_u64_spec(t) is Some && t[0] != '0' ==> parse_text_spec(
                text,
                leading_zero_as_string,
                SpecJsonType::Infer,
            ) == SpecJson::Number(parse_u64_spec(t)->0)
        }),
        ({
            let t = trimmed(text);
            parse_u64_spec(t) is None && is_decimal_float(t) && t[0] != '0' ==> parse_text_spec(
                text,
                leading_zero_as_string,
                SpecJsonType::Infer,
            ) == SpecJson::Float(t)
        }),
{
    reveal(parse_text_spec);
}

// ---------------------------------------------------------------------
// Whitespace
// ---------------------------------------------------------------------

/// The characters of the Unicode `White_Space` property, one by one: what
/// `char::is_whitespace` holds of.
pub open spec fn listed_white_space(c: char) -> bool {
    ||| c == '\u{9}'
    ||| c == '\u{a}'
    ||| c == '\u{b}'
    ||| c == '\u{c}'
    ||| c == '\u{d}'
    ||| c == '\u{20}'
    ||| c == '\u{85}'
    ||| c == '\u{a0}'
    ||| c == '\u{1680}'
    ||| c == '\u{2000}'
    ||| c == '\u{2001}'
    ||| c == '\u{2002}'
    ||| c == '\u{2003}'
    ||| c == '\u{2004}'
    ||| c == '\u{2005}'
    ||| c == '\u{2006}'
    ||| c == '\u{2007}'
    ||| c == '\u{2008}'
    ||| c == '\u{2009}'
    ||| c == '\u{200a}'
    ||| c == '\u{2028}'
    ||| c == '\u{2029}'
    ||| c == '\u{202f}'
    ||| c == '\u{205f}'
    ||| c == '\u{3000}'
}

proof fn lemma_trim_start_push(s: Seq<char>, c: char)
    requires
        is_white_space(c),
    ensures
        trim_start(s.push(c)) == if trim_start(s).len() > 0 {
            trim_start(s).push(c)
        } else {
            Seq::<char>::empty()
        },
    decreases s.len(),
{
    if s.len() > 0 && is_white_space(s[0]) {
        assert(s.push(c).drop_first() =~= s.drop_first().push(c));
        lemma_trim_start_push(s.drop_first(), c);
    } else if s.len() == 0 {
        let one = s.push(c);
        assert(one.drop_first() =~= Seq::<char>::empty());
        assert(trim_start(one.drop_first()) == one.drop_first());
    }
}

/// Trimming removes every whitespace character of Unicode, the tab among
/// them, at either end of a text.
pub proof fn law_trim_removes_unicode_white_space(c: char, s: Seq<char>)
    requires
        listed_white_space(c),
    ensures
        trimmed(seq![c] + s) == trimmed(s),
        trimmed(s.push(c)) == trimmed(s),
{
    assert(is_white_space(c));
    assert((seq![c] + s).drop_first() =~= s);
    lemma_trim_start_push(s, c);
    let u = trim_start(s);
    if u.len() > 0 {
        assert(u.push(c).drop_last() =~= u);
    } else {
        assert(trim_end(Seq::<char>::empty()) == Seq::<char>::empty());
    }
}

// ---------------------------------------------------------------------
// The text of an element with attributes
// ---------------------------------------------------------------------

/// The text of an element with attributes is typed exactly as the text of
/// the same element without attributes: its value under the text property
/// name is the value that element would have.
pub proof fn law_text_property_typed_as_plain_text(
    el: SpecXml,
    cfg: SpecConfig,
    text: Seq<char>,
    path: Seq<char>,
    ty: SpecJsonType,
)
    requires
        el.attributes.len() > 0,
    ensures
        ({
            let plain = convert_text_spec(SpecXml { attributes: Seq::empty(), ..el }, cfg, text, path, ty);
            &&& convert_text_spec(el, cfg, text, path, ty) is Object
            &&& has_key(convert_text_spec(el, cfg, text, path, ty)->Object_0, cfg.xml_text_node_prop_name)
            &&& get_key(convert_text_spec(el, cfg, text, path, ty)->Object_0, cfg.xml_text_node_prop_name) == plain
            &&& plain == parse_text_spec(text, cfg.leading_zero_as_string, ty)
        }),
{
    lemma_obj_insert(
        attrs_object(el.attributes, cfg, path, el.attributes.len() as int),
        cfg.xml_text_node_prop_name,
        parse_text_spec(text, cfg.leading_zero_as_string, ty),
    );
}

// ---------------------------------------------------------------------
// Attributes
// ---------------------------------------------------------------------

proof fn lemma_attrs_keys_grow(attrs: Seq<crate::xml::SpecAttr>, cfg: SpecConfig, path: Seq<char>, j: int, k: int)
    requires
        0 <= j <= k,
    ensures
        keys_of(attrs_object(attrs, cfg, path, j)).subset_of(keys_of(attrs_object(attrs, cfg, path, k))),
    decreases k - j,
{
    if j < k {
        lemma_attrs_keys_grow(attrs, cfg, path, j, k - 1);
        let o = attrs_object(attrs, cfg, path, k - 1);
        let a = attrs[k - 1];
        if !is_skipped_attribute(cfg, a) {
            lemma_obj_insert(
                o,
                cfg.xml_attr_prefix + a.name,
                parse_text_spec(
                    a.value,
                    cfg.leading_zero_as_string,
                    crate::config::scalar_type_of(
                        rule_for(cfg, crate::convert::attribute_path(path, a.name)),
                    ),
                ),
            );
        }
    }
}

/// Every attribute is a key of the attribute object under its prefixed
/// name, but an `xml:id` (an `id` in the XML namespace) that XInclude
/// processing consumes: an `id` without that namespace is kept.
pub proof fn law_attributes_are_kept_but_consumed_xml_ids(
    attrs: Seq<crate::xml::SpecAttr>,
    cfg: SpecConfig,
    path: Seq<char>,
    i: int,
)
    requires
        0 <= i < attrs.len(),
        !(cfg.process_xpointer_xincludes && attrs[i].namespace == Some(xml_namespace()) && attrs[i].name
            == "id"@),
    ensures
        has_key(attrs_object(attrs, cfg, path, attrs.len() as int), cfg.xml_attr_prefix + attrs[i].name),
{
    let a = attrs[i];
    assert(!is_skipped_attribute(cfg, a));
    lemma_attrs_keys_grow(attrs, cfg, path, i + 1, attrs.len() as int);
    lemma_obj_insert(
        attrs_object(attrs, cfg, path, i),
        cfg.xml_attr_prefix + a.name,
        parse_text_spec(
            a.value,
            cfg.leading_zero_as_string,
            crate::config::scalar_type_of(rule_for(cfg, crate::convert::attribute_path(path, a.name))),
        ),
    );
    assert(keys_of(attrs_object(attrs, cfg, path, i + 1)).contains(cfg.xml_attr_prefix + a.name));
}

// ---------------------------------------------------------------------
// Records of xml:id
// ---------------------------------------------------------------------

proof fn lemma_node_records_grow(el: SpecXml, cfg: SpecConfig, path: Seq<char>, ptrs: SpecPointees)
    ensures
        keys_of(ptrs).subset_of(keys_of(convert_node_spec(el, cfg, path, ptrs).1)),
    decreases el, 2int, 0int,
{
    if !is_resolved_xinclude(el, cfg, ptrs) {
        let epath = child_path(path, el.name);
        lemma_no_text_records_grow(el, cfg, epath, ptrs);
        let ty = crate::config::scalar_type_of(rule_for(cfg, epath));
        let (out, ptrs2) = match el.text {
            Some(t) => if trimmed(t).len() == 0 {
                convert_no_text_spec(el, cfg, epath, ptrs)
            } else {
                (Some(convert_text_spec(el, cfg, trimmed(t), epath, ty)), ptrs)
            },
            None => convert_no_text_spec(el, cfg, epath, ptrs),
        };
        assert(keys_of(ptrs).subset_of(keys_of(ptrs2)));
        if let (Some(id), Some(o)) = (xml_id_of(el.attributes, el.attributes.len() as int), out) {
            if cfg.process_xpointer_xincludes {
                lemma_obj_insert(ptrs2, id, (el.name, o));
            }
        }
    }
}

proof fn lemma_no_text_records_grow(el: SpecXml, cfg: SpecConfig, path: Seq<char>, ptrs: SpecPointees)
    ensures
        keys_of(ptrs).subset_of(keys_of(convert_no_text_spec(el, cfg, path, ptrs).1)),
    decreases el, 1int, 0int,
{
    lemma_fold_records_grow(el, cfg, path, ptrs, el.children.len() as int);
}

proof fn lemma_fold_records_grow(el: SpecXml, cfg: SpecConfig, path: Seq<char>, ptrs: SpecPointees, k: int)
    ensures
        keys_of(ptrs).subset_of(keys_of(children_fold(el, cfg, path, ptrs, k).1)),
    decreases el, 0int, k,
{
    if !(k <= 0 || k > el.children.len()) {
        lemma_fold_records_grow(el, cfg, path, ptrs, k - 1);
        let p1 = children_fold(el, cfg, path, ptrs, k - 1).1;
        lemma_node_records_grow(el.children[k - 1], cfg, path, p1);
    }
}

proof fn lemma_fold_records_between(el: SpecXml, cfg: SpecConfig, path: Seq<char>, ptrs: SpecPointees, j: int, k: int)
    requires
        0 <= j <= k <= el.children.len(),
    ensures
        keys_of(children_fold(el, cfg, path, ptrs, j).1).subset_of(
            keys_of(children_fold(el, cfg, path, ptrs, k).1),
        ),
    decreases k - j,
{
    if j < k {
        lemma_fold_records_between(el, cfg, path, ptrs, j, k - 1);
        let p1 = children_fold(el, cfg, path, ptrs, k - 1).1;
        lemma_node_records_grow(el.children[k - 1], cfg, path, p1);
    }
}

/// Records of `xml:id` are never lost: the records after converting an
/// element hold those from before, and every record made while converting
/// one of its children (an element converted through its children, having
/// no text of its own). So an id recorded anywhere earlier in the document
/// can be pointed at by a later XInclude.
pub proof fn law_id_records_persist(el: SpecXml, cfg: SpecConfig, path: Seq<char>, ptrs: SpecPointees, i: int)
    ensures
        keys_of(ptrs).subset_of(keys_of(convert_node_spec(el, cfg, path, ptrs).1)),
        ({
            let epath = child_path(path, el.name);
            let before = children_fold(el, cfg, epath, ptrs, i).1;
            (0 <= i < el.children.len() && (el.text matches Some(t) ==> trimmed(t).len() == 0)
                && !is_resolved_xinclude(el, cfg, ptrs)) ==> keys_of(
                convert_node_spec(el.children[i], cfg, epath, before).1,
            ).subset_of(keys_of(convert_node_spec(el, cfg, path, ptrs).1))
        }),
{
    lemma_node_records_grow(el, cfg, path, ptrs);
    let epath = child_path(path, el.name);
    if 0 <= i < el.children.len() && (el.text matches Some(t) ==> trimmed(t).len() == 0)
        && !is_resolved_xinclude(el, cfg, ptrs) {
        let n = el.children.len() as int;
        lemma_fold_records_between(el, cfg, epath, ptrs, i + 1, n);
        let (out, ptrs2) = convert_no_text_spec(el, cfg, epath, ptrs);
        assert(ptrs2 == children_fold(el, cfg, epath, ptrs, n).1);
        if let (Some(id), Some(o)) = (xml_id_of(el.attributes, el.attributes.len() as int), out) {
            if cfg.process_xpointer_xincludes {
                lemma_obj_insert(ptrs2, id, (el.name, o));
            }
        }
    }
}

} // verus!
