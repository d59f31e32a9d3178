//! Conversion of XML documents into JSON values, with configurable
//! naming of attributes and text nodes, type inference for text values
//! and JSON type rules for individual XML paths.
//!
//! An XML text is read with `roxmltree` into an element tree, and the tree
//! is converted into a `JsonValue`: the document becomes an object whose one
//! key is the name of the root element.

pub mod config;
pub mod convert;
pub mod json;
pub mod laws;
pub mod text;
pub mod xml;

pub use config::{Config, JsonArray, JsonType, NullValue, PathMatcher, PathRegex};
pub use convert::{parse_text, xml_str_to_json, xml_string_to_json, xml_to_map};
pub use json::JsonValue;
pub use xml::{document_element, parse_xml, XmlAttribute, XmlElement, XmlError, XmlNode, XmlSyntaxError};
