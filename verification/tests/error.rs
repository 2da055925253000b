use zerx::{ErrorCode, JsonValue, ZerxError};

fn doc_json(j: &JsonValue) -> serde_json::Value {
    match j {
        JsonValue::Bool(b) => serde_json::Value::Bool(*b),
        JsonValue::String(s) => serde_json::Value::String(s.clone()),
        JsonValue::Array(a) => serde_json::Value::Array(a.iter().map(doc_json).collect()),
        JsonValue::Object(m) => {
            let mut out = serde_json::Map::new();
            for (k, x) in m {
                out.insert(k.clone(), doc_json(x));
            }
            serde_json::Value::Object(out)
        },
        JsonValue::Value(_) => panic!("an error document holds no schema value"),
    }
}

fn error_json(e: &ZerxError) -> serde_json::Value {
    doc_json(&e.to_json())
}

#[test]
fn minimal_construction() {
    let e = ZerxError::new(ErrorCode::TYPE_MISMATCH(), "type error".to_string());
    assert!(e.path.is_empty());
    assert_eq!(e.code, ErrorCode::TYPE_MISMATCH());
    assert_eq!(e.message, "type error");
    assert!(e.received.is_none());
    assert!(e.expected.is_none());
    assert!(e.inner_errors.is_empty());
}

#[test]
fn builder_chaining() {
    let e = ZerxError::new(ErrorCode::TYPE_MISMATCH(), "type error".to_string())
        .at(vec!["a".into(), "0".into()])
        .expected("string".to_string())
        .received("number".to_string());
    assert_eq!(e.path, vec!["a", "0"]);
    assert_eq!(e.received.as_deref(), Some("number"));
    assert_eq!(e.expected.as_deref(), Some("string"));
}

#[test]
fn nested_aggregation() {
    let e1 = ZerxError::new(ErrorCode::TYPE_MISMATCH(), "variant 0".to_string());
    let e2 = ZerxError::new(ErrorCode::TYPE_MISMATCH(), "variant 1".to_string());
    let u = ZerxError::union(vec!["root".into()], vec![e1, e2]);
    assert_eq!(u.code, ErrorCode::UNION_MISMATCH());
    assert_eq!(u.inner_errors.len(), 2);
    assert_eq!(u.message, "no union variant matched (2 alternatives)");
    assert_eq!(u.expected.as_deref(), Some("one of the union variants"));
    assert_eq!(u.inner_errors[0].message, "variant 0");
    assert_eq!(u.inner_errors[1].message, "variant 1");
    let v = error_json(&u);
    let arr = v["inner_errors"].as_array().unwrap();
    assert_eq!(arr.len(), 2);
    assert_eq!(arr[0]["code"], serde_json::Value::from("type_mismatch"));
    assert_eq!(arr[0]["message"], serde_json::Value::from("variant 0"));
    assert_eq!(arr[1]["code"], serde_json::Value::from("type_mismatch"));
    assert_eq!(arr[1]["message"], serde_json::Value::from("variant 1"));
}

#[test]
fn json_shape_full() {
    let inner = ZerxError::new(ErrorCode::UNKNOWN_ERROR(), "inner".to_string());
    let e = ZerxError::new(ErrorCode::TYPE_MISMATCH(), "outer".to_string())
        .at(vec!["x".into()])
        .received("number".to_string())
        .expected("string".to_string())
        .with_inner(vec![inner]);
    let v = error_json(&e);
    let obj = v.as_object().unwrap();
    let keys: std::collections::BTreeSet<&str> = obj.keys().map(String::as_str).collect();
    assert_eq!(
        keys,
        ["code", "expected", "inner_errors", "message", "path", "received"]
            .into_iter()
            .collect::<std::collections::BTreeSet<_>>()
    );
    assert_eq!(obj["code"], serde_json::Value::from("type_mismatch"));
    assert_eq!(obj["path"], serde_json::Value::Array(vec![serde_json::Value::from("x")]));
}

#[test]
fn json_shape_omission() {
    let e = ZerxError::new(ErrorCode::TYPE_MISMATCH(), "plain".to_string());
    let v = error_json(&e);
    let obj = v.as_object().unwrap();
    assert!(!obj.contains_key("received"));
    assert!(!obj.contains_key("expected"));
    assert!(!obj.contains_key("inner_errors"));
}

#[test]
fn json_fields_in_declaration_order() {
    let e = ZerxError::new(ErrorCode::REQUIRED(), "missing".to_string())
        .at(vec!["a".into(), "b".into()])
        .expected("string".to_string());
    match e.to_json() {
        JsonValue::Object(m) => {
            let keys: Vec<&str> = m.iter().map(|(k, _)| k.as_str()).collect();
            assert_eq!(keys, vec!["path", "code", "message", "expected"]);
        },
        _ => panic!("an error is a JSON object"),
    }
    let v = error_json(&e);
    assert_eq!(v["message"], serde_json::Value::from("missing"));
    assert_eq!(v["code"], serde_json::Value::from("required"));
    assert_eq!(v["path"], serde_json::Value::Array(vec![serde_json::Value::from("a"), serde_json::Value::from("b")]));
}

#[test]
fn display_formatting() {
    let e_root = ZerxError::new(ErrorCode::TYPE_MISMATCH(), "bad type".to_string());
    assert_eq!(e_root.to_display_string(), "(root): bad type");

    let e_path = ZerxError::new(ErrorCode::TYPE_MISMATCH(), "bad type".to_string())
        .at(vec!["a".into(), "b".into(), "0".into()]);
    assert_eq!(e_path.to_display_string(), "a/b/0: bad type");
}

#[test]
fn error_code_equality_and_extension() {
    let custom = ErrorCode::new("custom_code");
    assert_eq!(custom.as_str(), "custom_code");
    assert_eq!(ErrorCode::TYPE_MISMATCH(), ErrorCode::new("type_mismatch"));
    assert_ne!(ErrorCode::TYPE_MISMATCH(), ErrorCode::UNKNOWN_ERROR());
}

#[test]
fn prefixed_puts_segment_first() {
    let e = ZerxError::new(ErrorCode::REQUIRED(), "m".to_string())
        .at(vec!["b".into()])
        .prefixed("a".to_string());
    assert_eq!(e.path, vec!["a", "b"]);
}
