//! The settings of a conversion: naming of attributes and text nodes,
//! handling of empty elements, and the JSON type rules that can be set
//! for individual XML paths.

use vstd::prelude::*;

use crate::json::{
    distinct_keys, get_key, has_key, key_index, lemma_key_index, lemma_key_index_exists,
    lemma_obj_insert, obj_insert,
};
use crate::text::{concat, starts_with_char, str_eq};

verus! {

/// Defines how empty elements like `<x />` should be handled.
/// `Ignore` -> exclude from JSON, `Null` -> `"x":null`, `EmptyObject` -> `"x":{}`.
/// `EmptyObject` is the default option.
/// Using `Ignore` on an XML document with an empty root element falls back to `Null`:
/// both `<a><x/></a>` and `<a/>` are converted into `{"a":null}`.
#[derive(Debug, Clone, Copy, PartialEq, Eq, Structural)]
pub enum NullValue {
    Ignore,
    Null,
    EmptyObject,
}

/// Defines which data type to apply in JSON format for consistency of output.
#[derive(Debug, PartialEq, Clone)]
pub enum JsonType {
    /// Do not try to infer the type and convert the value to a JSON string.
    /// E.g. convert `<a>1234</a>` into `{"a":"1234"}` or `<a>true</a>` into `{"a":"true"}`.
    AlwaysString,
    /// Convert values included in this member into JSON bool `true` and any other value into `false`.
    Bool(Vec<&'static str>),
    /// Infer the type from the single value of the node being converted.
    /// E.g. convert `<a>1234</a>` and `<a>001234</a>` into `{"a":1234}`, or `<a>true</a>` into `{"a":true}`.
    Infer,
}

/// Defines how the values of a node should be converted into a JSON array.
/// * `Infer` - into an array only if there are several identical elements:
///   `<a><b>1</b></a>` becomes `{"a": {"b": 1 }}` and `<a><b>1</b><b>2</b></a>` becomes `{"a": {"b": [1, 2] }}`.
/// * `Always` - into an array however many there are: `<a><b>1</b></a>` becomes `{"a": {"b": [1] }}`.
/// * `PlaceSingletonIntoArray` - into an array with the given name, each value placed in an object
///   whose key is the node's name: with `array_name` "consonants", `<a><b>1</b><d>3</d></a>` becomes
///   `{"a": {"consonants": [{"b": 1 }, {"d": 3}] }}`.
#[derive(Debug)]
pub enum JsonArray {
    Always(JsonType),
    Infer(JsonType),
    PlaceSingletonIntoArray { ty: JsonType, array_name: String },
}

/// A regular expression, compiled by `regex::Regex::new` from its pattern.
#[derive(Debug)]
pub struct PathRegex {
    pattern: String,
    regex: regex::Regex,
}

/// How an XML path is matched by a JSON type rule.
#[derive(Debug)]
pub enum PathMatcher {
    /// An absolute path starting with a leading slash (`/`). E.g. `/a/b/c/@d`.
    Absolute(String),
    /// A regular expression that is searched for in the XML path. E.g. `(\w/)*c$`.
    Regex(PathRegex),
}

/// Tells the converter how to perform certain conversions.
#[derive(Debug)]
pub struct Config {
    /// Numeric values starting with 0 are treated as strings:
    /// `<agent>007</agent>` becomes `"agent":"007"` rather than `"agent":7`. Defaults to `false`.
    pub leading_zero_as_string: bool,
    /// Prefix of XML attribute names, to tell them from XML elements. Defaults to `@`.
    pub xml_attr_prefix: String,
    /// A property name for XML text nodes of elements that also have attributes. Defaults to `#text`.
    pub xml_text_node_prop_name: String,
    /// How empty elements like `<x />` are handled.
    pub empty_element_handling: NullValue,
    /// Allow DTD parsing. When `false`, XML with a DTD is an error (an empty DTD block is not).
    /// Defaults to `false`.
    pub allow_dtd: bool,
    /// Replace XInclude elements that point at an element with an `xml:id` by that element.
    pub process_xpointer_xincludes: bool,
    /// XML paths with their JSON type rules. A path starts with `/` and names elements, and
    /// attributes prefixed with `@`: for `<a><b c="123">007</b></a>`, `/a/b/@c` and `/a/b`.
    /// A path occurs at most once when the rules are added by `add_json_type_override`;
    /// otherwise the first rule for a path applies.
    pub json_type_overrides: Vec<(String, JsonArray)>,
    /// Regular expressions with their JSON type rules. They take precedence over
    /// `json_type_overrides`: the first one that matches a path applies.
    pub json_regex_type_overrides: Vec<(PathRegex, JsonArray)>,
}

// ---------------------------------------------------------------------
// Models
// ---------------------------------------------------------------------

pub enum SpecJsonType {
    AlwaysString,
    Bool(Seq<Seq<char>>),
    Infer,
}

pub enum SpecJsonArray {
    Always(SpecJsonType),
    Infer(SpecJsonType),
    PlaceSingletonIntoArray { ty: SpecJsonType, array_name: Seq<char> },
}

pub struct SpecConfig {
    pub leading_zero_as_string: bool,
    pub xml_attr_prefix: Seq<char>,
    pub xml_text_node_prop_name: Seq<char>,
    pub empty_element_handling: NullValue,
    pub allow_dtd: bool,
    pub process_xpointer_xincludes: bool,
    pub json_type_overrides: Seq<(Seq<char>, SpecJsonArray)>,
    /// The patterns of the regular expressions, with their rules.
    pub json_regex_type_overrides: Seq<(Seq<char>, SpecJsonArray)>,
}

pub enum SpecPathMatcher {
    Absolute(Seq<char>),
    Regex(Seq<char>),
}

impl View for JsonType {
    type V = SpecJsonType;

    open spec fn view(&self) -> SpecJsonType {
        match self {
            JsonType::AlwaysString => SpecJsonType::AlwaysString,
            JsonType::Bool(v) => SpecJsonType::Bool(Seq::new(v.len() as nat, |i: int| v@[i]@)),
            JsonType::Infer => SpecJsonType::Infer,
        }
    }
}

impl View for JsonArray {
    type V = SpecJsonArray;

    open spec fn view(&self) -> SpecJsonArray {
        match self {
            JsonArray::Always(t) => SpecJsonArray::Always(t@),
            JsonArray::Infer(t) => SpecJsonArray::Infer(t@),
            JsonArray::PlaceSingletonIntoArray { ty, array_name } =>
                SpecJsonArray::PlaceSingletonIntoArray { ty: ty@, array_name: array_name@ },
        }
    }
}

impl View for PathRegex {
    type V = Seq<char>;

    closed spec fn view(&self) -> Seq<char> {
        self.pattern@
    }
}

impl View for PathMatcher {
    type V = SpecPathMatcher;

    open spec fn view(&self) -> SpecPathMatcher {
        match self {
            PathMatcher::Absolute(p) => SpecPathMatcher::Absolute(p@),
            PathMatcher::Regex(r) => SpecPathMatcher::Regex(r@),
        }
    }
}

/// The model of a list of regular-expression rules.
pub open spec fn regex_rules_view(v: Seq<(PathRegex, JsonArray)>) -> Seq<(Seq<char>, SpecJsonArray)> {
    Seq::new(v.len(), |i: int| (v[i].0@, v[i].1@))
}

/// The model of a list of JSON type rules.
pub open spec fn overrides_view(v: Seq<(String, JsonArray)>) -> Seq<(Seq<char>, SpecJsonArray)> {
    Seq::new(v.len(), |i: int| (v[i].0@, v[i].1@))
}

impl View for Config {
    type V = SpecConfig;

    open spec fn view(&self) -> SpecConfig {
        SpecConfig {
            leading_zero_as_string: self.leading_zero_as_string,
            xml_attr_prefix: self.xml_attr_prefix@,
            xml_text_node_prop_name: self.xml_text_node_prop_name@,
            empty_element_handling: self.empty_element_handling,
            allow_dtd: self.allow_dtd,
            process_xpointer_xincludes: self.process_xpointer_xincludes,
            json_type_overrides: overrides_view(self.json_type_overrides@),
            json_regex_type_overrides: regex_rules_view(self.json_regex_type_overrides@),
        }
    }
}

/// The scalar type of a rule.
pub open spec fn scalar_type_of(a: SpecJsonArray) -> SpecJsonType {
    match a {
        SpecJsonArray::Always(t) => t,
        SpecJsonArray::Infer(t) => t,
        SpecJsonArray::PlaceSingletonIntoArray { ty, .. } => ty,
    }
}

/// Whether `regex::Regex::is_match` finds a match in `haystack` for the
/// regular expression that `regex::Regex::new` compiles from `pattern`.
pub uninterp spec fn regex_is_match(pattern: Seq<char>, haystack: Seq<char>) -> bool;

/// The position of the first regular-expression rule that matches `path`,
/// among those from position `k` on.
pub open spec fn first_regex_match(rules: Seq<(Seq<char>, SpecJsonArray)>, path: Seq<char>, k: int) -> Option<int>
    decreases rules.len() - k,
{
    if k < 0 || k >= rules.len() {
        None
    } else if regex_is_match(rules[k].0, path) {
        Some(k)
    } else {
        first_regex_match(rules, path, k + 1)
    }
}

/// The rule of the configuration for `path`: the first regular-expression
/// rule that matches it, or else the rule for the path itself, or else
/// `Infer(Infer)`.
#[verifier::opaque]
pub open spec fn rule_for(cfg: SpecConfig, path: Seq<char>) -> SpecJsonArray {
    match first_regex_match(cfg.json_regex_type_overrides, path, 0) {
        Some(i) => cfg.json_regex_type_overrides[i].1,
        None => json_type_for(cfg.json_type_overrides, path),
    }
}

/// The path of a text given to `PathMatcher::from`: with a leading `/` added
/// where it has none.
pub open spec fn absolute_path(s: Seq<char>) -> Seq<char> {
    if s.len() > 0 && s[0] == '/' {
        s
    } else {
        seq!['/'] + s
    }
}

/// The rule that applies to `path`: the first one for it, or `Infer(Infer)`.
pub open spec fn json_type_for(rules: Seq<(Seq<char>, SpecJsonArray)>, path: Seq<char>) -> SpecJsonArray {
    if has_key(rules, path) {
        get_key(rules, path)
    } else {
        SpecJsonArray::Infer(SpecJsonType::Infer)
    }
}

/// `rules` with the rule for `path` set to `a`: an existing rule for the
/// path is replaced in place, a new one is added at the end.
pub open spec fn set_rule(
    rules: Seq<(Seq<char>, SpecJsonArray)>,
    path: Seq<char>,
    a: SpecJsonArray,
) -> Seq<(Seq<char>, SpecJsonArray)> {
    obj_insert(rules, path, a)
}

/// The default configuration.
pub open spec fn default_config() -> SpecConfig {
    SpecConfig {
        leading_zero_as_string: false,
        xml_attr_prefix: seq!['@'],
        xml_text_node_prop_name: seq!['#', 't', 'e', 'x', 't'],
        empty_element_handling: NullValue::EmptyObject,
        allow_dtd: false,
        process_xpointer_xincludes: false,
        json_type_overrides: Seq::empty(),
        json_regex_type_overrides: Seq::empty(),
    }
}

// ---------------------------------------------------------------------
// Executable functions
// ---------------------------------------------------------------------

impl JsonArray {
    /// The type of the scalar values under this rule.
    pub fn scalar_type(&self) -> (res: &JsonType)
        ensures
            res@ == scalar_type_of(self@),
    {
        match self {
            JsonArray::Always(ty) | JsonArray::Infer(ty) | JsonArray::PlaceSingletonIntoArray {
                ty,
                ..
            } => ty,
        }
    }
}

impl PathMatcher {
    /// An absolute path: `value`, with a leading `/` added where it has none.
    pub fn absolute(value: &str) -> (res: PathMatcher)
        ensures
            res@ == SpecPathMatcher::Absolute(absolute_path(value@)),
    {
        if starts_with_char(value, '/') {
            PathMatcher::Absolute(value.to_owned())
        } else {
            let slash = "/";
            proof {
                reveal_strlit("/");
            }
            let p = concat(slash, value);
            assert(p@ =~= absolute_path(value@));
            assert(p@ == absolute_path(value@));
            PathMatcher::Absolute(p)
        }
    }
}

impl<'a> From<&'a str> for PathMatcher {
    /// A string is read as an absolute path, with a leading `/` added
    /// where it has none.
    fn from(value: &'a str) -> (res: PathMatcher)
        ensures
            res@ == SpecPathMatcher::Absolute(absolute_path(value@)),
    {
        PathMatcher::absolute(value)
    }
}

impl<'a> vstd::std_specs::convert::FromSpecImpl<&'a str> for PathMatcher {
    open spec fn obeys_from_spec() -> bool {
        false
    }

    open spec fn from_spec(v: &'a str) -> PathMatcher {
        arbitrary()
    }
}

impl Config {
    /// The default settings: numbers with a leading zero are numbers,
    /// attribute names are prefixed with `@`, text nodes of elements with
    /// attributes are named `#text`, empty elements become `{}`, no DTD,
    /// no XInclude processing and no JSON type rules.
    #[must_use]
    pub fn new_with_defaults() -> (res: Self)
        ensures
            res@ == default_config(),
            distinct_keys(res@.json_type_overrides),
    {
        let at = "@";
        let text = "#text";
        proof {
            reveal_strlit("@");
            reveal_strlit("#text");
        }
        let c = Config {
            leading_zero_as_string: false,
            xml_attr_prefix: at.to_owned(),
            xml_text_node_prop_name: text.to_owned(),
            empty_element_handling: NullValue::EmptyObject,
            allow_dtd: false,
            process_xpointer_xincludes: false,
            json_type_overrides: Vec::new(),
            json_regex_type_overrides: Vec::new(),
        };
        assert(c@.json_regex_type_overrides =~= default_config().json_regex_type_overrides);
        assert(c@.xml_text_node_prop_name =~= default_config().xml_text_node_prop_name);
        assert(c@.xml_attr_prefix =~= default_config().xml_attr_prefix);
        assert(c@.json_type_overrides =~= default_config().json_type_overrides);
        c
    }

    /// A configuration with the given settings and no JSON type rules.
    #[must_use]
    pub fn new_with_custom_values(
        leading_zero_as_string: bool,
        xml_attr_prefix: &str,
        xml_text_node_prop_name: &str,
        empty_element_handling: NullValue,
        allow_dtd: bool,
        process_xpointer_xincludes: bool,
    ) -> (res: Self)
        ensures
            res@ == (SpecConfig {
                leading_zero_as_string,
                xml_attr_prefix: xml_attr_prefix@,
                xml_text_node_prop_name: xml_text_node_prop_name@,
                empty_element_handling,
                allow_dtd,
                process_xpointer_xincludes,
                json_type_overrides: Seq::empty(),
                json_regex_type_overrides: Seq::empty(),
            }),
            distinct_keys(res@.json_type_overrides),
    {
        let c = Config {
            leading_zero_as_string,
            xml_attr_prefix: xml_attr_prefix.to_owned(),
            xml_text_node_prop_name: xml_text_node_prop_name.to_owned(),
            empty_element_handling,
            allow_dtd,
            process_xpointer_xincludes,
            json_type_overrides: Vec::new(),
            json_regex_type_overrides: Vec::new(),
        };
        assert(c@.json_type_overrides =~= Seq::empty());
        assert(c@.json_regex_type_overrides =~= Seq::empty());
        c
    }

    /// Adds a JSON type rule. For an absolute path, the rule for that path
    /// is set to `json_type`, replacing an earlier rule for it; a regular
    /// expression is added after the earlier ones. A string converts into
    /// an absolute path with `.into()`.
    #[must_use]
    pub fn add_json_type_override(self, path: PathMatcher, json_type: JsonArray) -> (res: Self)
        ensures
            match path@ {
                SpecPathMatcher::Absolute(p) => res@ == (SpecConfig {
                    json_type_overrides: set_rule(self@.json_type_overrides, p, json_type@),
                    ..self@
                }),
                SpecPathMatcher::Regex(r) => res@ == (SpecConfig {
                    json_regex_type_overrides: self@.json_regex_type_overrides.push(
                        (r, json_type@),
                    ),
                    ..self@
                }),
            },
            distinct_keys(self@.json_type_overrides) ==> distinct_keys(res@.json_type_overrides),
    {
        proof {
            if let SpecPathMatcher::Absolute(p) = path@ {
                lemma_obj_insert(self@.json_type_overrides, p, json_type@);
            }
        }
        let mut conf = self;
        match path {
            PathMatcher::Absolute(p) => {
                conf.set_json_type_rule(p, json_type);
            },
            PathMatcher::Regex(r) => {
                let ghost rules = conf@.json_regex_type_overrides;
                let ghost e = (r@, json_type@);
                conf.json_regex_type_overrides.push((r, json_type));
                assert(regex_rules_view(conf.json_regex_type_overrides@) =~= rules.push(e));
            },
        }
        conf
    }

    /// Sets the rule for `path` to `json_type`.
    fn set_json_type_rule(&mut self, path: String, json_type: JsonArray)
        ensures
            final(self)@ == (SpecConfig {
                json_type_overrides: set_rule(old(self)@.json_type_overrides, path@, json_type@),
                ..old(self)@
            }),
    {
        let ghost rules = old(self)@.json_type_overrides;
        match find_rule(&self.json_type_overrides, path.as_str()) {
            Some(i) => {
                proof {
                    lemma_key_index_exists(rules, path@);
                }
                let ghost before = self.json_type_overrides@;
                let ghost a = json_type@;
                self.json_type_overrides.set(i, (path, json_type));
                assert(overrides_view(self.json_type_overrides@) =~= rules.update(
                    i as int,
                    (before[i as int].0@, a),
                ));
            },
            None => {
                let ghost entry = (path@, json_type@);
                self.json_type_overrides.push((path, json_type));
                assert(overrides_view(self.json_type_overrides@) =~= rules.push(entry));
            },
        }
    }
}

impl Default for Config {
    fn default() -> (res: Self)
        ensures
            res@ == default_config(),
            distinct_keys(res@.json_type_overrides),
    {
        Config::new_with_defaults()
    }
}

/// The position of the first rule for `path`.
pub fn find_rule(rules: &Vec<(String, JsonArray)>, path: &str) -> (res: Option<usize>)
    ensures
        res is None <==> !has_key(overrides_view(rules@), path@),
        res matches Some(i) ==> i == key_index(overrides_view(rules@), path@) && i < rules.len(),
{
    let ghost rv = overrides_view(rules@);
    let mut i: usize = 0;
    while i < rules.len()
        invariant
            i <= rules.len(),
            rv == overrides_view(rules@),
            forall|j: int| 0 <= j < i ==> rv[j].0 != path@,
        decreases rules.len() - i,
    {
        if str_eq(rules[i].0.as_str(), path) {
            proof {
                lemma_key_index(rv, path@, i as int);
            }
            return Some(i);
        }
        i = i + 1;
    }
    None
}

#[verifier::external_type_specification]
#[verifier::external_body]
pub struct ExRegex(regex::Regex);

#[verifier::external_type_specification]
#[verifier::external_body]
pub struct ExRegexError(regex::Error);

/// Whether `regex::Regex::new` compiles `pattern` (it fails on a syntax
/// error or a pattern too large for the default size limits).
pub uninterp spec fn regex_compiles(pattern: Seq<char>) -> bool;

/// Calls `regex::Regex::new`. Claimed: whether it succeeds is a function of
/// the pattern, named `regex_compiles`.
#[verifier::external_body]
fn compile_regex(pattern: &str) -> (res: Result<regex::Regex, regex::Error>)
    ensures
        res is Ok <==> regex_compiles(pattern@),
{
    regex::Regex::new(pattern)
}

/// Calls `regex::Regex::is_match` on the compiled expression. Claimed:
/// the result is a function of the pattern and the haystack, named
/// `regex_is_match` (the expression was compiled from the pattern by
/// `regex::Regex::new`, the only way a `PathRegex` is made).
#[verifier::external_body]
fn path_regex_is_match(re: &PathRegex, haystack: &str) -> (res: bool)
    ensures
        res == regex_is_match(re@, haystack@),
{
    re.regex.is_match(haystack)
}

impl PathRegex {
    /// Compiles `pattern` with `regex::Regex::new`.
    pub fn new(pattern: &str) -> (res: Result<PathRegex, regex::Error>)
        ensures
            res is Ok <==> regex_compiles(pattern@),
            res matches Ok(r) ==> r@ == pattern@,
    {
        let regex = compile_regex(pattern)?;
        Ok(PathRegex { pattern: pattern.to_owned(), regex })
    }

    /// The pattern of the expression.
    pub fn as_str(&self) -> (res: &str)
        ensures
            res@ == self@,
    {
        self.pattern.as_str()
    }

    /// Whether the expression matches somewhere in `haystack`.
    pub fn is_match(&self, haystack: &str) -> (res: bool)
        ensures
            res == regex_is_match(self@, haystack@),
    {
        path_regex_is_match(self, haystack)
    }
}

impl PathMatcher {
    /// A regular expression, compiled from `pattern` with `regex::Regex::new`.
    pub fn regex(pattern: &str) -> (res: Result<PathMatcher, regex::Error>)
        ensures
            res is Ok <==> regex_compiles(pattern@),
            res matches Ok(m) ==> m@ == SpecPathMatcher::Regex(pattern@),
    {
        let r = PathRegex::new(pattern)?;
        Ok(PathMatcher::Regex(r))
    }
}

/// The first regular-expression rule that matches `path`.
fn first_matching_regex<'c>(config: &'c Config, path: &str) -> (res: Option<&'c JsonArray>)
    ensures
        match first_regex_match(config@.json_regex_type_overrides, path@, 0) {
            Some(i) => res matches Some(a) && a@ == config@.json_regex_type_overrides[i].1,
            None => res is None,
        },
{
    let ghost rules = config@.json_regex_type_overrides;
    let mut i: usize = 0;
    while i < config.json_regex_type_overrides.len()
        invariant
            i <= config.json_regex_type_overrides.len(),
            rules == regex_rules_view(config.json_regex_type_overrides@),
            first_regex_match(rules, path@, 0) == first_regex_match(rules, path@, i as int),
        decreases config.json_regex_type_overrides.len() - i,
    {
        let (re, a) = &config.json_regex_type_overrides[i];
        if re.is_match(path) {
            return Some(a);
        }
        i = i + 1;
    }
    None
}

/// The JSON type rule of the configuration for `path`, if it has one:
/// the first regular-expression rule that matches the path, or else the
/// rule for the path itself. Where it has none, `Infer(Infer)` applies.
pub fn get_json_type<'c>(config: &'c Config, path: &str) -> (res: Option<&'c JsonArray>)
    ensures
        res matches Some(a) ==> a@ == rule_for(config@, path@),
        res is None <==> (first_regex_match(config@.json_regex_type_overrides, path@, 0) is None
            && !has_key(config@.json_type_overrides, path@)),
        res is None ==> rule_for(config@, path@) == SpecJsonArray::Infer(SpecJsonType::Infer),
        config@.json_regex_type_overrides.len() == 0 ==> (res is None <==> !has_key(
            config@.json_type_overrides,
            path@,
        )) && (res matches Some(a) ==> a@ == json_type_for(config@.json_type_overrides, path@)),
{
    reveal(rule_for);
    match first_matching_regex(config, path) {
        Some(a) => Some(a),
        None => get_json_type_with_absolute_path(config, path),
    }
}

/// The JSON type rule of the configuration for `path`, if it has one;
/// where it has none, `Infer(Infer)` applies.
pub fn get_json_type_with_absolute_path<'c>(config: &'c Config, path: &str) -> (res: Option<&'c JsonArray>)
    ensures
        res is None <==> !has_key(config@.json_type_overrides, path@),
        res matches Some(a) ==> a@ == json_type_for(config@.json_type_overrides, path@),
{
    match find_rule(&config.json_type_overrides, path) {
        Some(i) => Some(&config.json_type_overrides[i].1),
        None => None,
    }
}

} // verus!
