use zerx::{
    any, array, boolean, buffer, discriminated_union, enumerate, json, jsonschema, lazy, literal, null, number,
    object, record, string, tuple, union, uri, url, ExportOptions, Float, Hooks, JsonValue, Modify, NoHooks,
    Schema, ZerxError, ZerxValue, DRAFT_2020_12,
};

struct Host {
    lazies: Vec<Schema>,
}

impl Hooks for Host {
    fn refine(&self, _id: u64, _value: &ZerxValue) -> bool {
        false
    }

    fn resolve(&self, id: u64) -> Result<Schema, ZerxError> {
        Ok(self.lazies[id as usize].clone())
    }
}

fn value_json(v: &ZerxValue) -> serde_json::Value {
    match v {
        ZerxValue::Null => serde_json::Value::Null,
        ZerxValue::Bool(b) => serde_json::Value::Bool(*b),
        ZerxValue::I64(n) => serde_json::Value::from(*n),
        ZerxValue::U64(n) => serde_json::Value::from(*n),
        ZerxValue::I128(n) => i64::try_from(*n).map(serde_json::Value::from).unwrap_or(serde_json::Value::Null),
        ZerxValue::U128(n) => u64::try_from(*n).map(serde_json::Value::from).unwrap_or(serde_json::Value::Null),
        ZerxValue::F64(f) => serde_json::Number::from_f64(f64::from_bits(f.bits))
            .map(serde_json::Value::Number)
            .unwrap_or(serde_json::Value::Null),
        ZerxValue::String(s) => serde_json::Value::String(s.clone()),
        ZerxValue::Bytes(b) => serde_json::Value::Array(b.iter().map(|x| serde_json::Value::from(*x)).collect()),
        ZerxValue::Array(a) => serde_json::Value::Array(a.iter().map(value_json).collect()),
        ZerxValue::Object(m) => {
            let mut out = serde_json::Map::new();
            for (k, x) in m.iter() {
                out.insert(k.clone(), value_json(x));
            }
            serde_json::Value::Object(out)
        },
    }
}

fn doc_json(j: &JsonValue) -> serde_json::Value {
    match j {
        JsonValue::Bool(b) => serde_json::Value::Bool(*b),
        JsonValue::String(s) => serde_json::Value::String(s.clone()),
        JsonValue::Array(a) => serde_json::Value::Array(a.iter().map(doc_json).collect()),
        JsonValue::Object(m) => {
            let mut out = serde_json::Map::new();
            for (k, x) in m {
                out.insert(k.clone(), doc_json(x));
            }
            serde_json::Value::Object(out)
        },
        JsonValue::Value(v) => value_json(v),
    }
}

fn parse(text: &str) -> serde_json::Value {
    serde_json::from_str(text).unwrap()
}

fn js(schema: &Schema) -> serde_json::Value {
    doc_json(&schema.to_json_schema(&NoHooks))
}

fn get<'a>(v: &'a serde_json::Value, key: &str) -> Option<&'a serde_json::Value> {
    v.as_object()?.get(key)
}

fn s(x: &str) -> ZerxValue {
    ZerxValue::String(x.to_string())
}

fn fl(x: f64) -> Float {
    Float { bits: x.to_bits(), text: x.to_string() }
}

#[test]
fn scalars() {
    assert_eq!(js(&string().into()), parse(r#"{"type": "string"}"#));
    assert_eq!(js(&number().into()), parse(r#"{"type": "number"}"#));
    assert_eq!(js(&boolean().into()), parse(r#"{"type": "boolean"}"#));
    assert_eq!(js(&null().into()), parse(r#"{"type": "null"}"#));
    assert_eq!(js(&any().into()), parse("{}"));
}

#[test]
fn enum_export() {
    let e: Schema = enumerate(vec!["a", "b"]).into();
    assert_eq!(js(&e), parse(r#"{"enum": ["a", "b"]}"#));
}

#[test]
fn literal_export() {
    let sx: Schema = literal(s("x")).into();
    assert_eq!(js(&sx), parse(r#"{"const": "x"}"#));
    let si: Schema = literal(ZerxValue::I64(5)).into();
    assert_eq!(js(&si), parse(r#"{"const": 5}"#));
    let sn: Schema = literal(ZerxValue::Null).into();
    assert_eq!(js(&sn), parse(r#"{"const": null}"#));
}

#[test]
fn string_validators_merge() {
    let st: Schema = string().min(2).max(8).regex("^x").email().into();
    let v = js(&st);
    assert_eq!(get(&v, "type"), Some(&parse(r#""string""#)));
    assert_eq!(get(&v, "minLength"), Some(&parse("2")));
    assert_eq!(get(&v, "maxLength"), Some(&parse("8")));
    assert_eq!(get(&v, "pattern"), Some(&parse(r#""^x""#)));
    assert_eq!(get(&v, "format"), Some(&parse(r#""email""#)));
}

#[test]
fn number_validators() {
    let n: Schema = number().integer().min(fl(0.0)).max(fl(9.0)).into();
    let v = js(&n);
    assert_eq!(get(&v, "type"), Some(&parse(r#""integer""#)));
    assert_eq!(get(&v, "minimum"), Some(&parse("0.0")));
    assert_eq!(get(&v, "maximum"), Some(&parse("9.0")));
}

#[test]
fn array_export() {
    let a: Schema = array(string().into()).min(1).max(3).into();
    let v = js(&a);
    assert_eq!(get(&v, "type"), Some(&parse(r#""array""#)));
    assert_eq!(get(&v, "items"), Some(&parse(r#"{"type": "string"}"#)));
    assert_eq!(get(&v, "minItems"), Some(&parse("1")));
    assert_eq!(get(&v, "maxItems"), Some(&parse("3")));
}

#[test]
fn tuple_export() {
    let t: Schema = tuple(vec![number().into(), string().into()]).into();
    let v = js(&t);
    assert_eq!(get(&v, "type"), Some(&parse(r#""array""#)));
    assert_eq!(get(&v, "items"), Some(&parse("false")));
    assert_eq!(get(&v, "minItems"), Some(&parse("2")));
    assert_eq!(get(&v, "maxItems"), Some(&parse("2")));
    let prefix = get(&v, "prefixItems").unwrap().as_array().unwrap();
    assert_eq!(prefix.len(), 2);
    assert_eq!(prefix[0], parse(r#"{"type": "number"}"#));
    assert_eq!(prefix[1], parse(r#"{"type": "string"}"#));
}

#[test]
fn record_export() {
    let sj: Schema = record(json().into()).into();
    let v = js(&sj);
    assert_eq!(get(&v, "type"), Some(&parse(r#""object""#)));
    assert_eq!(get(&v, "format"), Some(&parse(r#""record""#)));
    assert_eq!(get(&v, "properties"), Some(&parse("{}")));
    assert_eq!(get(&v, "additionalProperties"), Some(&parse(r#"{"format": "json"}"#)));

    let sa: Schema = record(any().into()).into();
    let va = js(&sa);
    assert_eq!(get(&va, "additionalProperties"), Some(&parse("true")));
}

#[test]
fn object_required_and_additional() {
    let o: Schema = object(vec![
        ("a", string().into()),
        ("b", string().optional().into()),
        ("c", string().default(s("x")).into()),
    ])
    .into();
    let v = js(&o);
    assert_eq!(get(&v, "additionalProperties"), Some(&parse("false")));
    let req = get(&v, "required").unwrap().as_array().unwrap();
    assert_eq!(req, &[parse(r#""a""#)]);
    let props = get(&v, "properties").unwrap();
    assert_eq!(props["c"]["default"], parse(r#""x""#));

    let sp: Schema = object(vec![("a", string().into())]).passthrough().into();
    assert_eq!(get(&js(&sp), "additionalProperties"), Some(&parse("true")));

    let ss: Schema = object(vec![("a", string().into())]).strip().into();
    assert_eq!(get(&js(&ss), "additionalProperties"), Some(&parse("false")));

    let sparr: Schema = object(vec![("a", string().into()), ("b", string().into())]).partial().into();
    assert!(get(&js(&sparr), "required").is_none());
}

#[test]
fn buffer_mime() {
    let b: Schema = buffer().mime_format("image/png").into();
    assert_eq!(js(&b), parse(r#"{"type": "string", "format": "buffer", "contentMediaType": "image/png"}"#));
}

#[test]
fn special_type_markers() {
    assert_eq!(js(&uri().into()), parse(r#"{"type": "string", "format": "uri"}"#));
    assert_eq!(js(&url().into()), parse(r#"{"type": "string", "format": "url"}"#));
    assert_eq!(js(&json().into()), parse(r#"{"format": "json"}"#));
    assert_eq!(js(&jsonschema().into()), parse(r#"{"type": "object", "format": "jsonschema"}"#));
}

#[test]
fn user_format_cannot_clobber_markers() {
    let sb: Schema = buffer().format("date-time").into();
    assert_eq!(get(&js(&sb), "format"), Some(&parse(r#""buffer""#)));
    let sj: Schema = json().format("x").into();
    assert_eq!(get(&js(&sj), "format"), Some(&parse(r#""json""#)));
    let se: Schema = string().email().format("phone").into();
    assert_eq!(get(&js(&se), "format"), Some(&parse(r#""email""#)));
    let sp: Schema = string().format("date-time").into();
    assert_eq!(get(&js(&sp), "format"), Some(&parse(r#""date-time""#)));
}

#[test]
fn modifiers_export() {
    let m: Schema = string()
        .describe("desc")
        .deprecated()
        .read_only()
        .write_only()
        .title("Title")
        .example(s("ex"))
        .meta("x-internal", ZerxValue::Bool(true))
        .multiline(3)
        .into();
    let v = js(&m);
    assert_eq!(get(&v, "description"), Some(&parse(r#""desc""#)));
    assert_eq!(get(&v, "deprecated"), Some(&parse("true")));
    assert_eq!(get(&v, "readOnly"), Some(&parse("true")));
    assert_eq!(get(&v, "writeOnly"), Some(&parse("true")));
    assert_eq!(get(&v, "title"), Some(&parse(r#""Title""#)));
    assert_eq!(get(&v, "examples"), Some(&parse(r#"["ex"]"#)));
    assert_eq!(get(&v, "x-internal"), Some(&parse("true")));
    assert_eq!(get(&v, "x-ui-multiline"), Some(&parse("3")));
}

#[test]
fn meta_cannot_corrupt_shape() {
    let m: Schema = string()
        .meta("type", s("object"))
        .meta("description", s("evil"))
        .meta("x-ok", ZerxValue::I64(1))
        .into();
    let v = js(&m);
    assert_eq!(get(&v, "type"), Some(&parse(r#""string""#)));
    assert!(get(&v, "description").is_none());
    assert_eq!(get(&v, "x-ok"), Some(&parse("1")));

    let m2: Schema = string().meta("$ref", s("evil")).meta("properties", s("bad")).into();
    let v2 = js(&m2);
    assert!(get(&v2, "$ref").is_none());
    assert!(get(&v2, "properties").is_none());
}

#[test]
fn nullable_export() {
    let n: Schema = string().nullable().into();
    let v = js(&n);
    let any_of = get(&v, "anyOf").unwrap().as_array().unwrap();
    assert_eq!(any_of[0], parse(r#"{"type": "string"}"#));
    assert_eq!(any_of[1], parse(r#"{"type": "null"}"#));

    let n2: Schema = string().describe("d").nullable().into();
    let v2 = js(&n2);
    let any_of2 = get(&v2, "anyOf").unwrap().as_array().unwrap();
    assert_eq!(any_of2[0]["description"], parse(r#""d""#));
}

#[test]
fn union_variants() {
    let du: Schema = discriminated_union(
        "kind",
        vec![
            object(vec![("kind", literal(s("a")).into()), ("x", string().into())]).into(),
            object(vec![("kind", literal(s("b")).into()), ("y", number().into())]).into(),
        ],
    )
    .into();
    let v = js(&du);
    assert!(get(&v, "oneOf").is_some());
    let disc = get(&v, "discriminator").unwrap();
    assert_eq!(disc["propertyName"], parse(r#""kind""#));

    let pu: Schema = union(vec![string().into(), number().into()]).into();
    let vp = js(&pu);
    assert!(get(&vp, "anyOf").is_some());
    assert!(get(&vp, "oneOf").is_none());
}

#[test]
fn lazy_defs_ref() {
    let host = Host { lazies: vec![object(vec![("id", string().into())]).into()] };
    let l: Schema = lazy(0).into();
    let v = doc_json(&l.to_json_schema(&host));
    assert_eq!(get(&v, "$ref"), Some(&parse(r##""#/$defs/S1""##)));
    let defs = get(&v, "$defs").unwrap();
    assert!(defs.get("S1").is_some());
    assert_eq!(defs["S1"]["type"], parse(r#""object""#));
}

#[test]
fn cyclic_lazy_terminates() {
    let inner_lazy: Schema = lazy(0).optional().into();
    let node: Schema = object(vec![("next", inner_lazy)]).into();
    let host = Host { lazies: vec![node.clone()] };

    let v = doc_json(&node.to_json_schema(&host));
    let defs = get(&v, "$defs").unwrap().as_object().unwrap();
    assert_eq!(defs.len(), 1);
    let def_id = defs.keys().next().unwrap().clone();
    let expected_ref = format!("#/$defs/{def_id}");
    let def_body = defs.values().next().unwrap();
    let next_raw = &def_body["properties"]["next"];
    let next_ref_val =
        if let Some(any_of) = next_raw.get("anyOf") { &any_of.as_array().unwrap()[0] } else { next_raw };
    assert_eq!(next_ref_val.get("$ref"), Some(&serde_json::Value::String(expected_ref)));
}

#[test]
fn schema_option() {
    let st: Schema = string().into();
    let v1 = doc_json(&st.to_json_schema_with(&NoHooks, &ExportOptions { dialect: Some(DRAFT_2020_12.to_owned()) }));
    assert_eq!(get(&v1, "$schema"), Some(&serde_json::Value::String(DRAFT_2020_12.to_string())));
    let v2 = js(&st);
    assert!(get(&v2, "$schema").is_none());
}

#[test]
fn infallible_and_deterministic() {
    let host = Host { lazies: vec![string().into(), number().into()] };
    let o: Schema = object(vec![("a", lazy(0).into()), ("b", lazy(1).into())]).into();
    let v1 = doc_json(&o.to_json_schema(&host));
    let v2 = doc_json(&o.to_json_schema(&host));
    let defs = get(&v1, "$defs").unwrap().as_object().unwrap();
    assert_eq!(defs.len(), 2);
    assert_eq!(defs["S1"], parse(r#"{"type": "string"}"#));
    assert_eq!(defs["S2"], parse(r#"{"type": "number"}"#));
    assert_eq!(serde_json::to_string(&v1).unwrap(), serde_json::to_string(&v2).unwrap());
}

#[test]
fn defs_one_entry_per_lazy_in_first_met_order() {
    let host = Host { lazies: vec![array(lazy(0).into()).into(), number().into(), string().into()] };
    let o: Schema = object(vec![("x", lazy(2).into()), ("a", lazy(0).into()), ("b", lazy(0).into()), ("c", lazy(1).into())]).into();
    let v = doc_json(&o.to_json_schema(&host));
    let defs = get(&v, "$defs").unwrap().as_object().unwrap();
    assert_eq!(defs.len(), 3);
    assert_eq!(defs["S1"], parse(r#"{"type": "string"}"#));
    assert_eq!(defs["S2"], parse(r##"{"type": "array", "items": {"$ref": "#/$defs/S2"}}"##));
    assert_eq!(defs["S3"], parse(r#"{"type": "number"}"#));
    let props = get(&v, "properties").unwrap();
    assert_eq!(props["a"], parse(r##"{"$ref": "#/$defs/S2"}"##));
    assert_eq!(props["b"], parse(r##"{"$ref": "#/$defs/S2"}"##));
    assert_eq!(props["c"], parse(r##"{"$ref": "#/$defs/S3"}"##));
}

#[test]
fn deeply_nested_lazies_all_exported() {
    let mut lazies: Vec<Schema> = Vec::new();
    for k in 0..150u64 {
        lazies.push(array(lazy(k + 1).into()).into());
    }
    lazies.push(string().into());
    let host = Host { lazies };
    let root: Schema = lazy(0).into();
    let v = doc_json(&root.to_json_schema(&host));
    let defs = get(&v, "$defs").unwrap().as_object().unwrap();
    assert_eq!(defs.len(), 151);
    assert_eq!(defs["S150"], parse(r##"{"type": "array", "items": {"$ref": "#/$defs/S151"}}"##));
    assert_eq!(defs["S151"], parse(r#"{"type": "string"}"#));
}
