# roxmltree_to_serde

Conversion of XML documents into JSON values, verified with Verus.

- `src/text.rs` — whitespace trimming, `u64` and decimal-float recognition, string helpers.
- `src/json.rs` — `JsonValue`, its model `SpecJson`, and object insertion/collection.
- `src/config.rs` — `Config`, `NullValue`, `JsonType`, `JsonArray`, `PathMatcher`, `PathRegex`,
  and the lookup of the JSON type rule for an XML path.
- `src/xml.rs` — `XmlElement`, the reading of XML text with `roxmltree`, and the element tree.
- `src/convert.rs` — the conversion of an element tree into a `JsonValue`, with its specification.
- `src/laws.rs` — properties of the conversion proved over the specification.
- `app/lib.rs` — `serde_json::Value` results, including the reading of float texts.
