use zerx::{
    apply_sql_policy, deep_map_schema, deref_document, deref_merge, deref_target, ErrorCode, RefResolver, RefTable, ZerxError, sql_array_items_fallback, sql_nullable_normalise, sql_pg_type_substitute,
    Float, JsonValue, SqlRule, ZerxValue,
};

fn doc(v: &serde_json::Value) -> JsonValue {
    match v {
        serde_json::Value::Null => JsonValue::Value(ZerxValue::Null),
        serde_json::Value::Bool(b) => JsonValue::Bool(*b),
        serde_json::Value::Number(n) => {
            if let Some(i) = n.as_i64() {
                JsonValue::Value(ZerxValue::I64(i))
            } else if let Some(u) = n.as_u64() {
                JsonValue::Value(ZerxValue::U64(u))
            } else {
                let f = n.as_f64().unwrap();
                JsonValue::Value(ZerxValue::F64(Float { bits: f.to_bits(), text: f.to_string() }))
            }
        },
        serde_json::Value::String(s) => JsonValue::String(s.clone()),
        serde_json::Value::Array(a) => JsonValue::Array(a.iter().map(doc).collect()),
        serde_json::Value::Object(m) => JsonValue::Object(m.iter().map(|(k, x)| (k.clone(), doc(x))).collect()),
    }
}

fn back(j: &JsonValue) -> serde_json::Value {
    match j {
        JsonValue::Bool(b) => serde_json::Value::Bool(*b),
        JsonValue::String(s) => serde_json::Value::String(s.clone()),
        JsonValue::Array(a) => serde_json::Value::Array(a.iter().map(back).collect()),
        JsonValue::Object(m) => {
            let mut out = serde_json::Map::new();
            for (k, x) in m {
                out.insert(k.clone(), back(x));
            }
            serde_json::Value::Object(out)
        },
        JsonValue::Value(ZerxValue::Null) => serde_json::Value::Null,
        JsonValue::Value(ZerxValue::I64(i)) => serde_json::Value::from(*i),
        JsonValue::Value(ZerxValue::U64(u)) => serde_json::Value::from(*u),
        JsonValue::Value(ZerxValue::F64(f)) => serde_json::Value::from(f64::from_bits(f.bits)),
        JsonValue::Value(_) => panic!("not a JSON value"),
    }
}

fn parse(text: &str) -> serde_json::Value {
    serde_json::from_str(text).unwrap()
}

fn sql(text: &str) -> serde_json::Value {
    back(&apply_sql_policy(&doc(&parse(text))))
}

#[test]
fn test_sql_nullable_array_type() {
    let out = sql(r#"{"type": ["string", "null"]}"#);
    assert_eq!(out, parse(r#"{"anyOf": [{"type": "string"}, {"type": "null"}]}"#));
}

#[test]
fn test_sql_nullable_one_of() {
    let out = sql(r#"{"oneOf": [{"type": "number"}, {"type": "null"}]}"#);
    assert_eq!(out, parse(r#"{"anyOf": [{"type": "number"}, {"type": "null"}]}"#));
}

#[test]
fn nullable_type_drops_one_of_and_all_of_and_keeps_the_rest() {
    let out = back(&sql_nullable_normalise(&doc(&parse(
        r#"{"type": ["null", "integer"], "minimum": 1, "oneOf": [{}], "allOf": [{}]}"#,
    ))));
    assert_eq!(out, parse(r#"{"anyOf": [{"type": "integer", "minimum": 1}, {"type": "null"}]}"#));
}

#[test]
fn nullable_needs_exactly_one_other_type() {
    let text = r#"{"type": ["string", "number", "null"]}"#;
    assert_eq!(back(&sql_nullable_normalise(&doc(&parse(text)))), parse(text));
    let text = r#"{"type": ["string", "number"]}"#;
    assert_eq!(back(&sql_nullable_normalise(&doc(&parse(text)))), parse(text));
    let text = r#"{"oneOf": [{"type": "number"}, {"type": "null", "title": "n"}]}"#;
    assert_eq!(back(&sql_nullable_normalise(&doc(&parse(text)))), parse(text));
}

#[test]
fn nullable_reaches_nested_properties() {
    let out = back(&sql_nullable_normalise(&doc(&parse(
        r#"{"type": "object", "properties": {"a": {"type": ["boolean", "null"]}}}"#,
    ))));
    assert_eq!(
        out,
        parse(r#"{"type": "object", "properties": {"a": {"anyOf": [{"type": "boolean"}, {"type": "null"}]}}}"#)
    );
}

#[test]
fn test_sql_array_items_fallback_bare_fails() {
    let out = sql(r#"{"type": "array"}"#);
    assert_eq!(out, parse(r#"{"type": "array", "items": {}}"#));
    let kept = r#"{"type": "array", "items": {"type": "string"}}"#;
    assert_eq!(back(&sql_array_items_fallback(&doc(&parse(kept)))), parse(kept));
}

#[test]
fn test_sql_bytea_format() {
    let out = sql(r#"{"type": "string", "format": "bytea"}"#);
    assert_eq!(out, parse(r#"{"type": "string", "format": "buffer"}"#));
}

#[test]
fn bytea_format_ignores_ascii_case() {
    let out = sql(r#"{"type": "string", "format": "ByTeA"}"#);
    assert_eq!(out, parse(r#"{"type": "string", "format": "buffer"}"#));
    let text = r#"{"type": "string", "format": "byteas"}"#;
    assert_eq!(sql(text), parse(text));
}

#[test]
fn test_sql_bytea_pg_type() {
    let out = sql(r#"{"type": "string", "x-pg-type": "bytea"}"#);
    assert_eq!(out, parse(r#"{"type": "string", "format": "buffer"}"#));
}

#[test]
fn test_sql_jsonb_pg_type() {
    let out = sql(r#"{"type": "string", "x-pg-type": "jsonb"}"#);
    assert_eq!(out, parse(r#"{"format": "json"}"#));
    let out = sql(r#"{"type": "object", "x-pg-type": "json", "title": "t"}"#);
    assert_eq!(out, parse(r#"{"format": "json", "title": "t"}"#));
}

#[test]
fn test_sql_int64_format() {
    let out = sql(r#"{"type": "number", "format": "int64"}"#);
    assert_eq!(out, parse(r#"{"type": "string"}"#));
}

#[test]
fn test_sql_int8_pg_type() {
    let out = sql(r#"{"type": "number", "x-pg-type": "int8"}"#);
    assert_eq!(out, parse(r#"{"type": "string"}"#));
}

#[test]
fn int8_annotation_wins_over_a_numeric_format() {
    let out = sql(r#"{"type": "number", "format": "numeric", "x-pg-type": "int8"}"#);
    assert_eq!(out, parse(r#"{"type": "string", "format": "numeric"}"#));
}

#[test]
fn test_sql_numeric_format() {
    let out = sql(r#"{"type": "number", "format": "numeric"}"#);
    assert_eq!(out, parse(r#"{"type": "string"}"#));
    let out = sql(r#"{"type": "number", "format": "decimal"}"#);
    assert_eq!(out, parse(r#"{"type": "string"}"#));
    let out = sql(r#"{"type": "number", "x-pg-type": "numeric", "format": "float"}"#);
    assert_eq!(out, parse(r#"{"type": "string", "format": "float"}"#));
}

#[test]
fn test_sql_timestamptz_format() {
    let out = sql(r#"{"type": "string", "format": "timestamptz"}"#);
    assert_eq!(out, parse(r#"{"type": "string", "format": "date-time"}"#));
    let out = sql(r#"{"type": "string", "format": "timestamp without time zone"}"#);
    assert_eq!(out, parse(r#"{"type": "string", "format": "date-time"}"#));
    let out = sql(r#"{"type": "string", "format": "timestamp with time zone", "x-pg-type": "timestamptz"}"#);
    assert_eq!(out, parse(r#"{"type": "string", "format": "date-time", "x-pg-type": "timestamptz"}"#));
}

#[test]
fn test_sql_nested_object_with_modifiers() {
    let out = sql(
        r#"{
            "type": "object",
            "properties": {
                "data": {"type": "string", "format": "bytea"},
                "count": {"type": "number", "format": "int64"}
            },
            "required": ["data"],
            "additionalProperties": false
        }"#,
    );
    assert_eq!(
        out,
        parse(
            r#"{
                "type": "object",
                "properties": {
                    "data": {"type": "string", "format": "buffer"},
                    "count": {"type": "string"}
                },
                "required": ["data"],
                "additionalProperties": false
            }"#
        )
    );
}

#[test]
fn test_sql_discriminated_union_with_int64() {
    let out = sql(
        r#"{
            "oneOf": [
                {"type": "object", "properties": {"kind": {"const": "a"}, "val": {"type": "number", "format": "int64"}},
                 "required": ["kind", "val"], "additionalProperties": false},
                {"type": "object", "properties": {"kind": {"const": "b"}, "count": {"type": "number", "format": "int64"}},
                 "required": ["kind", "count"], "additionalProperties": false}
            ],
            "discriminator": {"propertyName": "kind"}
        }"#,
    );
    assert_eq!(out["oneOf"].as_array().unwrap().len(), 2);
    assert!(out.get("discriminator").is_some());
    assert_eq!(out["oneOf"][0]["properties"]["val"], parse(r#"{"type": "string"}"#));
    assert_eq!(out["oneOf"][1]["properties"]["count"], parse(r#"{"type": "string"}"#));
    assert_eq!(out["oneOf"][0]["properties"]["kind"], parse(r#"{"const": "a"}"#));
}

#[test]
fn test_sql_substitution_reaches_defs() {
    let out = sql(
        r##"{
            "$ref": "#/$defs/Row",
            "$defs": {
                "Row": {
                    "type": "object",
                    "properties": {"data": {"type": "string", "format": "bytea"}},
                    "required": ["data"],
                    "additionalProperties": false
                }
            }
        }"##,
    );
    assert_eq!(out["$ref"], serde_json::Value::from("#/$defs/Row"));
    assert_eq!(out["$defs"]["Row"]["properties"]["data"]["format"], serde_json::Value::from("buffer"));
}

#[test]
fn test_deep_map_reaches_prefix_items() {
    let out = sql(r#"{"type": "array", "prefixItems": [{"type": "string", "format": "bytea"}], "items": false}"#);
    assert_eq!(out, parse(r#"{"type": "array", "prefixItems": [{"type": "string", "format": "buffer"}], "items": false}"#));
}

#[test]
fn test_deep_map_reaches_additional_properties() {
    let out = sql(r#"{"type": "object", "format": "record", "additionalProperties": {"type": "string", "format": "bytea"}}"#);
    assert_eq!(
        out,
        parse(r#"{"type": "object", "format": "record", "additionalProperties": {"type": "string", "format": "buffer"}}"#)
    );
}

#[test]
fn deep_map_reaches_items_lists_and_combinators() {
    let out = back(&sql_pg_type_substitute(&doc(&parse(
        r#"{"items": [{"type": "number", "format": "int64"}],
            "anyOf": [{"type": "number", "x-pg-type": "int8"}],
            "allOf": [{"type": "string", "format": "timestamptz"}],
            "other": {"type": "number", "format": "int64"}}"#,
    ))));
    assert_eq!(
        out,
        parse(
            r#"{"items": [{"type": "string"}],
                "anyOf": [{"type": "string"}],
                "allOf": [{"type": "string", "format": "date-time"}],
                "other": {"type": "number", "format": "int64"}}"#
        )
    );
    let out = back(&deep_map_schema(&doc(&parse(r#"{"items": {"type": "array"}}"#)), SqlRule::ArrayItems));
    assert_eq!(out, parse(r#"{"items": {"type": "array", "items": {}}}"#));
}

#[test]
fn non_object_documents_are_left_as_they_are() {
    for text in ["true", "3", "null", r#""bytea""#, r#"[{"type": "array"}]"#] {
        assert_eq!(sql(text), parse(text));
    }
}

#[test]
fn test_sql_dual_signal_bytea_no_leaked_pg_type() {
    let out = sql(r#"{"type": "string", "format": "bytea", "x-pg-type": "bytea"}"#);
    assert_eq!(out.get("format").and_then(|v| v.as_str()), Some("buffer"));
    assert!(out.get("x-pg-type").is_none());
}

#[test]
fn test_sql_dual_signal_int64_no_leaked_pg_type() {
    let out = sql(r#"{"type": "number", "format": "int64", "x-pg-type": "int8"}"#);
    assert_eq!(out.get("type").and_then(|v| v.as_str()), Some("string"));
    assert!(out.get("x-pg-type").is_none());
}

#[test]
fn test_sql_dual_signal_numeric_no_leaked_pg_type() {
    let out = sql(r#"{"type": "number", "format": "numeric", "x-pg-type": "numeric"}"#);
    assert_eq!(out.get("type").and_then(|v| v.as_str()), Some("string"));
    assert!(out.get("x-pg-type").is_none());
}

#[test]
fn policy_transforms_run_in_order() {
    let out = sql(r#"{"type": ["array", "null"]}"#);
    assert_eq!(out, parse(r#"{"anyOf": [{"type": "array", "items": {}}, {"type": "null"}]}"#));
}

#[test]
fn deref_targets_external_refs_only() {
    assert_eq!(deref_target(&doc(&parse(r#"{"$ref": "https://x/y"}"#))), Some("https://x/y".to_string()));
    assert_eq!(deref_target(&doc(&parse(r##"{"$ref": "#/$defs/Row"}"##))), None);
    assert_eq!(deref_target(&doc(&parse(r#"{"$ref": 3}"#))), None);
    assert_eq!(deref_target(&doc(&parse(r#"{"type": "string"}"#))), None);
    assert_eq!(deref_target(&doc(&parse(r#""https://x/y""#))), None);
    assert_eq!(deref_target(&doc(&parse(r##"{"$ref": "#"}"##))), Some("#".to_string()));
}

#[test]
fn deref_merge_keeps_siblings_over_the_resolved_schema() {
    let node = doc(&parse(r#"{"$ref": "https://x/y", "description": "kept", "type": "number"}"#));
    let resolved = doc(&parse(r#"{"type": "string", "format": "email"}"#));
    let out = back(&deref_merge(&node, resolved, "https://x/y").unwrap());
    assert_eq!(out, parse(r#"{"type": "number", "format": "email", "description": "kept"}"#));
}

#[test]
fn deref_merge_refuses_a_non_object() {
    let node = doc(&parse(r#"{"$ref": "https://x/y"}"#));
    let err = deref_merge(&node, doc(&parse("true")), "https://x/y").unwrap_err();
    assert_eq!(err.code, ErrorCode::IMPORT_MALFORMED());
    assert_eq!(err.message, "deref: resolver did not return an object for ref 'https://x/y'");
}

struct FnResolver<F: Fn(&str) -> Result<serde_json::Value, ZerxError>>(F);

impl<F: Fn(&str) -> Result<serde_json::Value, ZerxError>> RefResolver for FnResolver<F> {
    fn deref(&self, r: &str) -> Result<JsonValue, ZerxError> {
        (self.0)(r).map(|v| doc(&v))
    }
}

fn deref_with<F: Fn(&str) -> Result<serde_json::Value, ZerxError>>(f: F, text: &str) -> Result<serde_json::Value, ZerxError> {
    deref_document(&FnResolver(f), &doc(&parse(text))).map(|j| back(&j))
}

#[test]
fn test_deref_external_ref_resolves_to_string() {
    let out = deref_with(|_r: &str| Ok(parse(r#"{"type": "string"}"#)), r#"{"$ref": "https://x/y"}"#).unwrap();
    assert_eq!(out.get("type").and_then(|v| v.as_str()), Some("string"));
}

#[test]
fn test_deref_sibling_description_survives() {
    let out = deref_with(
        |_r: &str| Ok(parse(r#"{"type": "string"}"#)),
        r#"{"$ref": "https://x/y", "description": "d"}"#,
    )
    .unwrap();
    assert_eq!(out.get("description").and_then(|v| v.as_str()), Some("d"));
}

#[test]
fn test_deref_local_ref_left_to_core_importer() {
    let text = r##"{"$ref": "#/$defs/S1", "$defs": {"S1": {"type": "string"}}}"##;
    let result = deref_with(|_r: &str| Err(ZerxError::new(ErrorCode::UNKNOWN_ERROR(), "should not be called".to_string())), text);
    assert!(result.is_ok());
    assert_eq!(result.unwrap(), parse(text));
}

#[test]
fn test_deref_resolver_error_propagates() {
    let result = deref_with(
        |_r: &str| Err(ZerxError::new(ErrorCode::UNKNOWN_ERROR(), "resolver error".to_string())),
        r#"{"$ref": "https://x/y"}"#,
    );
    assert!(result.is_err());
    assert_eq!(result.unwrap_err().message, "resolver error");
}

#[test]
fn deref_walks_into_subschemas_and_resolved_documents() {
    let table = RefTable {
        entries: vec![
            ("https://x/row".to_string(), doc(&parse(r#"{"type": "object", "properties": {"id": {"$ref": "https://x/id"}}}"#))),
            ("https://x/id".to_string(), doc(&parse(r#"{"type": "integer"}"#))),
        ],
    };
    let input = doc(&parse(r#"{"type": "array", "items": {"$ref": "https://x/row", "title": "Row"}, "anyOf": [{"$ref": "https://x/id"}]}"#));
    let out = back(&deref_document(&table, &input).unwrap());
    assert_eq!(
        out,
        parse(r#"{"type": "array", "items": {"type": "object", "title": "Row", "properties": {"id": {"type": "integer"}}}, "anyOf": [{"type": "integer"}]}"#)
    );
}

#[test]
fn deref_unknown_ref_in_table_is_an_error() {
    let table = RefTable { entries: Vec::new() };
    let err = deref_document(&table, &doc(&parse(r#"{"properties": {"a": {"$ref": "https://x/a"}}}"#))).unwrap_err();
    assert_eq!(err.code, ErrorCode::UNKNOWN_ERROR());
    assert_eq!(err.message, "deref: no document for ref 'https://x/a'");
}

#[test]
fn deref_resolved_non_object_is_malformed() {
    let err = deref_with(|_r: &str| Ok(parse("true")), r#"{"$ref": "https://x/y"}"#).unwrap_err();
    assert_eq!(err.code, ErrorCode::IMPORT_MALFORMED());
}
