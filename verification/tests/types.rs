use zerx::{
    array, boolean, buffer, discriminated_union, enumerate, json, jsonschema, literal, null, number, object,
    record, string, tuple, union, uri, url, ErrorCode, Float, Modify, NoHooks, ObjectMap, ParseContext, Schema,
    SchemaKind, ZerxError, ZerxValue, MAX_PARSE_DEPTH,
};

fn s(x: &str) -> ZerxValue {
    ZerxValue::String(x.to_string())
}

fn u(n: u64) -> ZerxValue {
    ZerxValue::U64(n)
}

fn i(n: i64) -> ZerxValue {
    ZerxValue::I64(n)
}

fn fl(x: f64) -> Float {
    Float { bits: x.to_bits(), text: x.to_string() }
}

fn f(x: f64) -> ZerxValue {
    ZerxValue::F64(fl(x))
}

fn obj(entries: Vec<(&str, ZerxValue)>) -> ZerxValue {
    ZerxValue::Object(ObjectMap::from_entries(entries.into_iter().map(|(k, v)| (k.to_string(), v)).collect()))
}

fn arr(items: Vec<ZerxValue>) -> ZerxValue {
    ZerxValue::Array(items)
}

fn val<B: Into<Schema>>(builder: B, v: ZerxValue) -> Result<ZerxValue, ZerxError> {
    let schema: Schema = builder.into();
    schema.validate(&NoHooks, &v)
}

fn keys_of(v: &ZerxValue) -> Vec<String> {
    v.as_object().unwrap().iter().iter().map(|(k, _)| k.clone()).collect()
}

#[test]
fn string_type_check() {
    assert!(val(string(), s("hi")).is_ok());
    let err = val(string(), i(7)).unwrap_err();
    assert_eq!(err.code, ErrorCode::TYPE_MISMATCH());
    assert_eq!(err.expected.as_deref(), Some("string"));
    assert_eq!(err.received.as_deref(), Some("number"));

    let err2 = val(string(), ZerxValue::Bool(true)).unwrap_err();
    assert_eq!(err2.received.as_deref(), Some("boolean"));

    let err3 = val(string(), ZerxValue::Null).unwrap_err();
    assert_eq!(err3.received.as_deref(), Some("null"));
}

#[test]
fn string_min_max() {
    assert!(val(string().min(2), s("hi")).is_ok());
    assert!(val(string().min(2), s("ab")).is_ok());
    let err = val(string().min(2), s("h")).unwrap_err();
    assert_eq!(err.code, ErrorCode::STRING_TOO_SHORT());

    assert!(val(string().max(3), s("hey")).is_ok());
    let err2 = val(string().max(3), s("heyy")).unwrap_err();
    assert_eq!(err2.code, ErrorCode::STRING_TOO_LONG());
}

#[test]
fn string_regex_and_pattern() {
    assert!(val(string().regex(r"^\d{5}$"), s("12345")).is_ok());
    let err = val(string().regex(r"^\d{5}$"), s("abc")).unwrap_err();
    assert_eq!(err.code, ErrorCode::PATTERN_MISMATCH());

    assert!(val(string().pattern(r"^\d{5}$"), s("12345")).is_ok());
    let err2 = val(string().pattern(r"^\d{5}$"), s("abc")).unwrap_err();
    assert_eq!(err2.code, ErrorCode::PATTERN_MISMATCH());

    let err3 = val(string().regex("("), s("any")).unwrap_err();
    assert_eq!(err3.code, ErrorCode::PATTERN_INVALID());
}

#[test]
fn string_email_uuid() {
    assert!(val(string().email(), s("a@b.co")).is_ok());
    assert_eq!(val(string().email(), s("a@b")).unwrap_err().code, ErrorCode::INVALID_EMAIL());
    assert_eq!(val(string().email(), s("a b@c.d")).unwrap_err().code, ErrorCode::INVALID_EMAIL());

    let uuid_ok = "550e8400-e29b-41d4-a716-446655440000";
    let uuid_upper = "550E8400-E29B-41D4-A716-446655440000";
    assert!(val(string().uuid(), s(uuid_ok)).is_ok());
    assert!(val(string().uuid(), s(uuid_upper)).is_ok());
    assert_eq!(val(string().uuid(), s("too-short")).unwrap_err().code, ErrorCode::INVALID_UUID());
    assert_eq!(
        val(string().uuid(), s("550e8400-e29b-41d4-a716-44665544000X")).unwrap_err().code,
        ErrorCode::INVALID_UUID()
    );
}

#[test]
fn multiline_is_meta_hint() {
    let b = string().multiline(3);
    assert_eq!(b.0.modifiers.meta.get("x-ui-multiline"), Some(&ZerxValue::U64(3)));
    assert_eq!(b.0.validators.len(), 0);
    assert!(val(string().multiline(3), s("x")).is_ok());
}

#[test]
fn number_type_check() {
    assert!(val(number(), i(7)).is_ok());
    assert!(val(number(), u(7)).is_ok());
    assert!(val(number(), ZerxValue::I128(i128::MAX)).is_ok());
    assert!(val(number(), ZerxValue::U128(u128::MAX)).is_ok());
    assert!(val(number(), f(2.5)).is_ok());

    let err = val(number(), s("hi")).unwrap_err();
    assert_eq!(err.code, ErrorCode::TYPE_MISMATCH());
    assert_eq!(err.expected.as_deref(), Some("number"));

    let err2 = val(number(), ZerxValue::Bool(true)).unwrap_err();
    assert_eq!(err2.code, ErrorCode::TYPE_MISMATCH());

    let schema: Schema = number().into();
    let mut ctx = ParseContext::new();
    let nan_err = schema.parse_present(&NoHooks, &f(f64::NAN), &mut ctx).unwrap_err();
    assert_eq!(nan_err.code, ErrorCode::TYPE_MISMATCH());
    let inf_err = schema.parse_present(&NoHooks, &f(f64::INFINITY), &mut ctx).unwrap_err();
    assert_eq!(inf_err.code, ErrorCode::TYPE_MISMATCH());
}

#[test]
fn number_min_max() {
    assert!(val(number().min(fl(0.0)), i(0)).is_ok());
    assert!(val(number().min(fl(0.0)), i(5)).is_ok());
    let err = val(number().min(fl(0.0)), i(-1)).unwrap_err();
    assert_eq!(err.code, ErrorCode::NUMBER_TOO_SMALL());

    assert!(val(number().max(fl(9.0)), i(9)).is_ok());
    let err2 = val(number().max(fl(9.0)), i(10)).unwrap_err();
    assert_eq!(err2.code, ErrorCode::NUMBER_TOO_LARGE());
}

#[test]
fn number_int() {
    assert!(val(number().integer(), i(7)).is_ok());
    assert!(val(number().integer(), f(4.0)).is_ok());
    let err = val(number().integer(), f(2.5)).unwrap_err();
    assert_eq!(err.code, ErrorCode::NOT_INTEGER());
}

#[test]
fn boolean_type_check() {
    assert!(val(boolean(), ZerxValue::Bool(true)).is_ok());
    assert!(val(boolean(), ZerxValue::Bool(false)).is_ok());
    let err = val(boolean(), i(1)).unwrap_err();
    assert_eq!(err.code, ErrorCode::TYPE_MISMATCH());
    assert_eq!(err.expected.as_deref(), Some("boolean"));
    let err2 = val(boolean(), s("true")).unwrap_err();
    assert_eq!(err2.code, ErrorCode::TYPE_MISMATCH());
}

#[test]
fn enumerate_check() {
    let e = enumerate(vec!["user", "assistant", "system"]);
    assert!(val(e, s("assistant")).is_ok());

    let err = val(enumerate(vec!["user", "assistant", "system"]), s("other")).unwrap_err();
    assert_eq!(err.code, ErrorCode::INVALID_ENUM_VALUE());
    let exp = err.expected.as_deref().unwrap_or("");
    assert!(exp.contains("user"));
    assert!(exp.contains("assistant"));
    assert_eq!(err.received.as_deref(), Some("string"));

    let err2 = val(enumerate(vec!["user"]), i(7)).unwrap_err();
    assert_eq!(err2.code, ErrorCode::TYPE_MISMATCH());
}

#[test]
fn null_type_check() {
    assert!(val(null(), ZerxValue::Null).is_ok());
    let err = val(null(), i(0)).unwrap_err();
    assert_eq!(err.code, ErrorCode::TYPE_MISMATCH());
    assert_eq!(err.expected.as_deref(), Some("null"));
    let err2 = val(null(), ZerxValue::Bool(false)).unwrap_err();
    assert_eq!(err2.code, ErrorCode::TYPE_MISMATCH());
}

#[test]
fn composition() {
    let s1: Schema = string().min(3).optional().into();
    let s2: Schema = string().optional().min(3).into();

    let err1 = s1.validate(&NoHooks, &s("hi")).unwrap_err();
    assert_eq!(err1.code, ErrorCode::STRING_TOO_SHORT());
    let err2 = s2.validate(&NoHooks, &s("hi")).unwrap_err();
    assert_eq!(err2.code, ErrorCode::STRING_TOO_SHORT());

    assert!(s1.validate(&NoHooks, &s("hello")).is_ok());
    assert!(s2.validate(&NoHooks, &s("hello")).is_ok());

    let mut ctx = ParseContext::new();
    assert_eq!(s1.parse_field(&NoHooks, None, &mut ctx).unwrap(), None);

    let n: Schema = number().integer().min(fl(0.0)).max(fl(9.0)).into();
    assert!(n.validate(&NoHooks, &i(5)).is_ok());
    assert_eq!(n.validate(&NoHooks, &i(-1)).unwrap_err().code, ErrorCode::NUMBER_TOO_SMALL());
    assert_eq!(n.validate(&NoHooks, &f(2.5)).unwrap_err().code, ErrorCode::NOT_INTEGER());
}

#[test]
fn check_type_before_validators() {
    let schema: Schema = number().min(fl(5.0)).into();
    let err = schema.validate(&NoHooks, &s("hi")).unwrap_err();
    assert_eq!(err.code, ErrorCode::TYPE_MISMATCH());
}

#[test]
fn clone_immutability_with_validators() {
    let base = string().min(1);
    let s2: Schema = base.clone().max(5).into();
    let s1: Schema = base.into();
    assert_eq!(s1.validators.len(), 1);
    assert_eq!(s2.validators.len(), 2);
}

#[test]
fn schema_kind_debug() {
    let cases: Vec<(&str, Schema)> = vec![
        ("String", string().into()),
        ("Number", number().into()),
        ("Boolean", boolean().into()),
        ("Enum", enumerate(vec!["a"]).into()),
        ("Null", null().into()),
    ];
    for (expected, schema) in cases {
        let debug = format!("{:?}", schema);
        assert!(debug.contains(expected), "expected kind {expected} in debug output: {debug}");
    }
}

#[test]
fn object_type_check() {
    let o = object(vec![("a", number().into())]);
    let err = val(o.clone(), i(7)).unwrap_err();
    assert_eq!(err.code, ErrorCode::TYPE_MISMATCH());
    assert_eq!(err.expected.as_deref(), Some("object"));
    assert_eq!(val(o.clone(), s("hi")).unwrap_err().code, ErrorCode::TYPE_MISMATCH());
    assert_eq!(val(o, ZerxValue::Bool(true)).unwrap_err().code, ErrorCode::TYPE_MISMATCH());
}

#[test]
fn object_duplicate_key_semantics() {
    let o: Schema = object(vec![("a", string().into()), ("b", number().into()), ("a", number().into())]).into();
    let input = obj(vec![("a", u(1)), ("b", u(2))]);
    assert!(o.validate(&NoHooks, &input).is_ok());
    let ok = o.validate(&NoHooks, &input).unwrap();
    assert_eq!(keys_of(&ok), vec!["a", "b"]);
    if let SchemaKind::Object(ref body) = o.kind {
        assert_eq!(body.shape.len(), 2);
    }
}

#[test]
fn object_strict_default() {
    let o = object(vec![("a", number().into())]);
    let err = val(o.clone(), obj(vec![("a", i(1)), ("extra", i(2))])).unwrap_err();
    assert_eq!(err.code, ErrorCode::UNKNOWN_PROPERTY());
    assert!(!err.path.is_empty());

    let ok = val(o, obj(vec![("a", i(1))])).unwrap();
    let map = ok.as_object().unwrap();
    assert_eq!(map.get("a"), Some(&ZerxValue::I64(1)));
    assert_eq!(map.len(), 1);
}

#[test]
fn object_passthrough() {
    let o = object(vec![("a", number().into())]).passthrough();
    let ok = val(o, obj(vec![("a", i(1)), ("extra", s("x"))])).unwrap();
    let map = ok.as_object().unwrap();
    assert!(map.get("a").is_some());
    assert!(map.get("extra").is_some());
    assert_eq!(keys_of(&ok), vec!["a", "extra"]);
    assert_eq!(map.get("extra"), Some(&s("x")));
}

#[test]
fn object_strip() {
    let o = object(vec![("a", number().into())]).strip();
    let ok = val(o, obj(vec![("a", i(1)), ("extra", s("x"))])).unwrap();
    let map = ok.as_object().unwrap();
    assert!(map.get("a").is_some());
    assert!(map.get("extra").is_none());
}

#[test]
fn object_field_error_path() {
    let o = object(vec![("age", number().into())]);
    let err = val(o, obj(vec![("age", s("x"))])).unwrap_err();
    assert_eq!(err.code, ErrorCode::TYPE_MISMATCH());
    assert_eq!(err.path, vec!["age"]);

    let nested = object(vec![("user", object(vec![("age", number().into())]).into())]);
    let err2 = val(nested, obj(vec![("user", obj(vec![("age", s("x"))]))])).unwrap_err();
    assert_eq!(err2.path, vec!["user", "age"]);
}

#[test]
fn object_optional_default_required() {
    let schema = object(vec![
        ("a", number().optional().into()),
        ("b", number().default(ZerxValue::I64(5)).into()),
        ("c", number().into()),
    ]);
    let ok = val(schema.clone(), obj(vec![("c", i(1))])).unwrap();
    let map = ok.as_object().unwrap();
    assert!(map.get("a").is_none(), "optional absent field should be omitted");
    assert_eq!(map.get("b"), Some(&ZerxValue::I64(5)));
    assert_eq!(map.get("c"), Some(&ZerxValue::I64(1)));

    let err = val(schema, obj(vec![])).unwrap_err();
    assert_eq!(err.code, ErrorCode::REQUIRED());
    assert_eq!(err.path, vec!["c"]);
}

#[test]
fn array_type_and_element() {
    let a = array(number().into());
    assert!(val(a.clone(), arr(vec![i(1), i(2), i(3)])).is_ok());

    let err = val(a.clone(), i(7)).unwrap_err();
    assert_eq!(err.code, ErrorCode::TYPE_MISMATCH());
    assert_eq!(err.expected.as_deref(), Some("array"));

    let err2 = val(a, arr(vec![u(1), s("x"), u(3)])).unwrap_err();
    assert_eq!(err2.code, ErrorCode::TYPE_MISMATCH());
    assert_eq!(err2.path, vec!["1"]);
}

#[test]
fn array_min_max() {
    assert!(val(array(number().into()).min(2), arr(vec![i(1), i(2)])).is_ok());
    let err = val(array(number().into()).min(2), arr(vec![i(1)])).unwrap_err();
    assert_eq!(err.code, ErrorCode::ARRAY_TOO_SHORT());

    assert!(val(array(number().into()).max(2), arr(vec![i(1), i(2)])).is_ok());
    let err2 = val(array(number().into()).max(2), arr(vec![i(1), i(2), i(3)])).unwrap_err();
    assert_eq!(err2.code, ErrorCode::ARRAY_TOO_LONG());
}

#[test]
fn record_type_and_values() {
    let r = record(number().into());
    let ok = val(r.clone(), obj(vec![("x", u(1)), ("y", u(2))])).unwrap();
    let map = ok.as_object().unwrap();
    assert!(map.get("x").is_some());
    assert!(map.get("y").is_some());

    let err = val(r.clone(), i(7)).unwrap_err();
    assert_eq!(err.code, ErrorCode::TYPE_MISMATCH());
    assert_eq!(err.expected.as_deref(), Some("object"));

    let err2 = val(r, obj(vec![("x", u(1)), ("y", s("z"))])).unwrap_err();
    assert_eq!(err2.code, ErrorCode::TYPE_MISMATCH());
    assert_eq!(err2.path, vec!["y"]);
}

#[test]
fn tuple_validation() {
    let t = tuple(vec![string().into(), number().into()]);
    assert!(val(t.clone(), arr(vec![s("a"), i(1)])).is_ok());

    let err = val(t.clone(), arr(vec![s("a")])).unwrap_err();
    assert_eq!(err.code, ErrorCode::TUPLE_LENGTH_MISMATCH());

    let err2 = val(t, arr(vec![s("a"), s("b")])).unwrap_err();
    assert_eq!(err2.code, ErrorCode::TYPE_MISMATCH());
    assert_eq!(err2.path, vec!["1"]);

    let err3 = val(tuple(vec![string().into()]), i(7)).unwrap_err();
    assert_eq!(err3.code, ErrorCode::TYPE_MISMATCH());
    assert_eq!(err3.expected.as_deref(), Some("array"));
}

#[test]
fn union_matching() {
    let un = union(vec![number().into(), string().into()]);
    assert!(val(un.clone(), i(1)).is_ok());
    assert!(val(un.clone(), s("x")).is_ok());

    let err = val(un, ZerxValue::Bool(true)).unwrap_err();
    assert_eq!(err.code, ErrorCode::UNION_MISMATCH());
    assert_eq!(err.inner_errors.len(), 2);
}

#[test]
fn literal_matching() {
    assert!(val(literal(s("human")), s("human")).is_ok());
    assert_eq!(val(literal(s("human")), s("tool")).unwrap_err().code, ErrorCode::INVALID_LITERAL());
    assert_eq!(val(literal(s("human")), i(7)).unwrap_err().code, ErrorCode::INVALID_LITERAL());

    assert!(val(literal(ZerxValue::Bool(true)), ZerxValue::Bool(true)).is_ok());
    assert_eq!(
        val(literal(ZerxValue::Bool(true)), ZerxValue::Bool(false)).unwrap_err().code,
        ErrorCode::INVALID_LITERAL()
    );

    let lit: Schema = literal(i(5)).into();
    assert!(lit.parse_present(&NoHooks, &i(5), &mut ParseContext::new()).is_ok());
}

fn human_tool() -> zerx::DiscriminatedUnionSchema {
    discriminated_union(
        "kind",
        vec![
            object(vec![("kind", literal(s("human")).into()), ("session", string().into())]).into(),
            object(vec![("kind", literal(s("tool")).into()), ("tool", string().into())]).into(),
        ],
    )
}

#[test]
fn discriminated_union_happy_path() {
    let du = human_tool();
    assert!(val(du.clone(), obj(vec![("kind", s("human")), ("session", s("s"))])).is_ok());
    assert!(val(du.clone(), obj(vec![("kind", s("tool")), ("tool", s("t"))])).is_ok());

    let err = val(du.clone(), obj(vec![("kind", s("other"))])).unwrap_err();
    assert_eq!(err.code, ErrorCode::INVALID_DISCRIMINANT());

    let err2 = val(du.clone(), obj(vec![("session", s("s"))])).unwrap_err();
    assert_eq!(err2.code, ErrorCode::INVALID_DISCRIMINANT());

    let err3 = val(du.clone(), i(7)).unwrap_err();
    assert_eq!(err3.code, ErrorCode::TYPE_MISMATCH());

    let err4 = val(du, obj(vec![("kind", s("human")), ("session", u(7))])).unwrap_err();
    assert_eq!(err4.code, ErrorCode::TYPE_MISMATCH());
    assert_eq!(err4.path, vec!["session"]);
}

#[test]
fn discriminated_union_config_errors() {
    let invalid = ErrorCode::INVALID_DISCRIMINATED_UNION();
    let du_a = discriminated_union("kind", vec![number().into()]);
    assert_eq!(val(du_a.clone(), i(7)).unwrap_err().code, invalid);
    assert_eq!(val(du_a, obj(vec![("kind", s("x"))])).unwrap_err().code, invalid);

    let du_b = discriminated_union("kind", vec![object(vec![("kind", string().into())]).into()]);
    assert_eq!(val(du_b, obj(vec![("kind", s("x"))])).unwrap_err().code, invalid);

    let du_c = discriminated_union("kind", vec![object(vec![("kind", literal(s("human")).optional().into())]).into()]);
    assert_eq!(val(du_c, obj(vec![("kind", s("human"))])).unwrap_err().code, invalid);

    let du_c2 = discriminated_union(
        "kind",
        vec![object(vec![("kind", literal(s("human")).default(s("human")).into())]).into()],
    );
    assert_eq!(val(du_c2, obj(vec![("kind", s("human"))])).unwrap_err().code, invalid);

    let du_c3 = discriminated_union("kind", vec![object(vec![("kind", literal(s("human")).nullable().into())]).into()]);
    assert_eq!(val(du_c3, obj(vec![("kind", s("human"))])).unwrap_err().code, invalid);

    let du_d = discriminated_union(
        "kind",
        vec![
            object(vec![("kind", literal(s("human")).into())]).into(),
            object(vec![("kind", literal(s("human")).into())]).into(),
        ],
    );
    assert_eq!(val(du_d, obj(vec![("kind", s("human"))])).unwrap_err().code, invalid);

    let du_e = discriminated_union("kind", vec![number().into()]);
    assert_eq!(val(du_e, i(7)).unwrap_err().code, invalid);
}

#[test]
fn nesting_and_composition() {
    let schema = object(vec![
        ("tags", array(string().into()).max(2).into()),
        ("pair", tuple(vec![number().into(), number().into()]).into()),
        ("meta", record(number().into()).into()),
    ])
    .strip();

    let ok = val(
        schema.clone(),
        obj(vec![
            ("extra", s("dropped")),
            ("meta", obj(vec![("x", u(1))])),
            ("pair", arr(vec![u(1), u(2)])),
            ("tags", arr(vec![s("a"), s("b")])),
        ]),
    )
    .unwrap();
    assert!(ok.as_object().unwrap().get("extra").is_none());

    let err = val(
        schema,
        obj(vec![
            ("meta", obj(vec![("x", u(1))])),
            ("pair", arr(vec![u(1), s("x")])),
            ("tags", arr(vec![s("a"), s("b")])),
        ]),
    )
    .unwrap_err();
    assert_eq!(err.path, vec!["pair", "1"]);
}

#[test]
fn schema_kind_debug_t2() {
    let cases: Vec<(&str, Schema)> = vec![
        ("Object", object(vec![("a", number().into())]).into()),
        ("Array", array(number().into()).into()),
        ("Record", record(number().into()).into()),
        ("Tuple", tuple(vec![number().into()]).into()),
        ("Union", union(vec![number().into()]).into()),
        (
            "DiscriminatedUnion",
            discriminated_union("k", vec![object(vec![("k", literal(s("v")).into())]).into()]).into(),
        ),
        ("Literal", literal(s("x")).into()),
    ];
    for (expected, schema) in cases {
        let debug = format!("{:?}", schema);
        assert!(debug.contains(expected), "expected {expected} in: {debug}");
    }
}

#[test]
fn depth_guard_with_containers() {
    let mut schema: Schema = array(number().into()).into();
    for _ in 0..MAX_PARSE_DEPTH {
        let prev = schema.clone();
        schema = array(prev).into();
    }
    let mut v = arr(vec![]);
    for _ in 0..MAX_PARSE_DEPTH {
        v = arr(vec![v]);
    }
    let err = schema.validate(&NoHooks, &v).unwrap_err();
    assert_eq!(err.code, ErrorCode::PARSE_DEPTH_EXCEEDED());

    let mut ctx = ParseContext::new();
    let shallow: Schema = array(number().into()).into();
    assert!(shallow.parse_present(&NoHooks, &arr(vec![i(1)]), &mut ctx).is_ok());
}

#[test]
fn clone_immutability_object_mode() {
    let base = object(vec![("a", number().into())]);
    let passthrough: Schema = base.clone().passthrough().into();
    let strict: Schema = Schema::from(base);
    let input = obj(vec![("a", i(1)), ("x", i(2))]);
    assert!(passthrough.validate(&NoHooks, &input).is_ok());
    assert_eq!(strict.validate(&NoHooks, &input).unwrap_err().code, ErrorCode::UNKNOWN_PROPERTY());
}

#[test]
fn partial_makes_required_optional() {
    let schema = object(vec![("a", number().into()), ("b", string().into())]).partial();
    let ok = val(schema.clone(), obj(vec![])).unwrap();
    assert!(ok.as_object().unwrap().is_empty());
    let ok2 = val(schema, obj(vec![("a", u(1))])).unwrap();
    let m = ok2.as_object().unwrap();
    assert!(m.get("a").is_some());
    assert!(m.get("b").is_none());
}

#[test]
fn partial_validates_present_fields() {
    let schema = object(vec![("a", number().into()), ("b", string().into())]).partial();
    let err = val(schema, obj(vec![("a", s("x"))])).unwrap_err();
    assert_eq!(err.code, ErrorCode::TYPE_MISMATCH());
    assert_eq!(err.path, vec!["a"]);
}

#[test]
fn partial_preserves_default_precedence() {
    let schema =
        object(vec![("a", number().default(ZerxValue::I64(5)).into()), ("b", number().into())]).partial();
    let ok = val(schema, obj(vec![])).unwrap();
    let m = ok.as_object().unwrap();
    assert_eq!(m.get("a").and_then(|v| v.as_i64()), Some(5));
    assert!(m.get("b").is_none());
}

#[test]
fn extend_adds_required_field() {
    let schema = object(vec![("a", number().into())]).extend(vec![("b", string().into())]);
    let err = val(schema.clone(), obj(vec![("a", u(1))])).unwrap_err();
    assert_eq!(err.code, ErrorCode::REQUIRED());
    assert_eq!(err.path, vec!["b"]);
    let ok = val(schema, obj(vec![("a", u(1)), ("b", s("x"))])).unwrap();
    let m = ok.as_object().unwrap();
    assert!(m.get("a").is_some());
    assert!(m.get("b").is_some());
}

#[test]
fn extend_overwrites_duplicate_key() {
    let schema = object(vec![("a", number().into())]).extend(vec![("a", string().into())]);
    assert!(val(schema.clone(), obj(vec![("a", s("x"))])).is_ok());
    let err = val(schema, obj(vec![("a", u(1))])).unwrap_err();
    assert_eq!(err.code, ErrorCode::TYPE_MISMATCH());
    assert_eq!(err.path, vec!["a"]);
}

#[test]
fn extend_preserves_mode() {
    let schema = object(vec![("a", number().into())]).strip().extend(vec![("b", string().into())]);
    let ok = val(schema, obj(vec![("a", u(1)), ("b", s("x")), ("extra", u(9))])).unwrap();
    let m = ok.as_object().unwrap();
    assert!(m.get("extra").is_none());
    assert!(m.get("a").is_some());
    assert!(m.get("b").is_some());
}

#[test]
fn omit_removes_field() {
    let schema = object(vec![("a", number().into()), ("id", string().into())]).omit(vec!["id"]);
    let ok = val(schema.clone(), obj(vec![("a", u(1))])).unwrap();
    assert!(ok.as_object().unwrap().get("a").is_some());
    let err = val(schema.clone(), obj(vec![("a", u(1)), ("id", s("x"))])).unwrap_err();
    assert_eq!(err.code, ErrorCode::UNKNOWN_PROPERTY());
    assert_eq!(err.path, vec!["id"]);
    let s2 = schema.omit(vec!["nope"]);
    assert!(val(s2, obj(vec![("a", u(1))])).is_ok());
}

#[test]
fn omit_read_only_write_only() {
    let s_ro = object(vec![("a", number().into()), ("ro", string().read_only().into())]).omit_read_only();
    assert!(val(s_ro.clone(), obj(vec![("a", u(1))])).is_ok());
    let err = val(s_ro, obj(vec![("a", u(1)), ("ro", s("x"))])).unwrap_err();
    assert_eq!(err.code, ErrorCode::UNKNOWN_PROPERTY());
    assert_eq!(err.path, vec!["ro"]);

    let s_wo = object(vec![("a", number().into()), ("wo", string().write_only().into())]).omit_write_only();
    assert!(val(s_wo.clone(), obj(vec![("a", u(1))])).is_ok());
    let err2 = val(s_wo, obj(vec![("a", u(1)), ("wo", s("x"))])).unwrap_err();
    assert_eq!(err2.code, ErrorCode::UNKNOWN_PROPERTY());
    assert_eq!(err2.path, vec!["wo"]);
}

#[test]
fn strip_only_drops_unknown_key() {
    let schema = object(vec![("a", number().into())]).strip_only(vec!["junk"]);
    let ok = val(schema.clone(), obj(vec![("a", u(1)), ("junk", ZerxValue::Bool(true))])).unwrap();
    assert!(ok.as_object().unwrap().get("junk").is_none());
    let err = val(schema, obj(vec![("a", u(1)), ("other", u(1))])).unwrap_err();
    assert_eq!(err.code, ErrorCode::UNKNOWN_PROPERTY());
    assert_eq!(err.path, vec!["other"]);
}

#[test]
fn strip_only_redefaults_stripped_field() {
    let schema = object(vec![("a", number().default(ZerxValue::I64(5)).into())]).strip_only(vec!["a"]);
    let ok = val(schema, obj(vec![("a", u(99))])).unwrap();
    assert_eq!(ok.as_object().unwrap().get("a").and_then(|v| v.as_i64()), Some(5));
}

#[test]
fn strip_only_starves_required_field() {
    let schema = object(vec![("a", number().into())]).strip_only(vec!["a"]);
    let err = val(schema, obj(vec![("a", u(1))])).unwrap_err();
    assert_eq!(err.code, ErrorCode::REQUIRED());
    assert_eq!(err.path, vec!["a"]);
}

#[test]
fn strip_read_only_write_only() {
    let s_ro = object(vec![("a", number().into()), ("ro", string().read_only().optional().into())]).strip_read_only();
    let ok = val(s_ro, obj(vec![("a", u(1)), ("ro", s("x"))])).unwrap();
    let m = ok.as_object().unwrap();
    assert!(m.get("ro").is_none());
    assert!(m.get("a").is_some());

    let s_wo =
        object(vec![("a", number().into()), ("wo", string().write_only().optional().into())]).strip_write_only();
    let ok2 = val(s_wo, obj(vec![("a", u(1)), ("wo", s("x"))])).unwrap();
    let m2 = ok2.as_object().unwrap();
    assert!(m2.get("wo").is_none());
    assert!(m2.get("a").is_some());
}

#[test]
fn omit_read_only_then_strip_read_only_no_auto_strip() {
    let schema = object(vec![("a", number().into()), ("ro", string().read_only().into())])
        .omit_read_only()
        .strip_read_only();
    let err = val(schema, obj(vec![("a", u(1)), ("ro", s("x"))])).unwrap_err();
    assert_eq!(err.code, ErrorCode::UNKNOWN_PROPERTY());
    assert_eq!(err.path, vec!["ro"]);

    let s2 = object(vec![("a", number().into()), ("ro", string().read_only().into())])
        .omit_read_only()
        .strip_only(vec!["ro"]);
    let ok = val(s2, obj(vec![("a", u(1)), ("ro", s("x"))])).unwrap();
    assert!(ok.as_object().unwrap().get("ro").is_none());
    assert!(ok.as_object().unwrap().get("a").is_some());
}

#[test]
fn clone_immutability_partial() {
    let base = object(vec![("a", number().into())]);
    assert!(val(base.clone().partial(), obj(vec![])).is_ok());
    let err = val(base, obj(vec![])).unwrap_err();
    assert_eq!(err.code, ErrorCode::REQUIRED());
}

#[test]
fn object_utility_composition() {
    let schema = object(vec![("a", number().into()), ("id", string().into())])
        .omit(vec!["id"])
        .extend(vec![("b", string().into())])
        .strip();
    let ok = val(schema, obj(vec![("a", u(1)), ("b", s("x")), ("extra", u(7)), ("id", s("ignored"))])).unwrap();
    let m = ok.as_object().unwrap();
    assert!(m.get("a").is_some());
    assert!(m.get("b").is_some());
    assert!(m.get("id").is_none());
    assert!(m.get("extra").is_none());

    let s2 = object(vec![("inner", object(vec![("n", number().into())]).into())]).partial();
    let err = val(s2, obj(vec![("inner", obj(vec![("n", s("x"))]))])).unwrap_err();
    assert_eq!(err.code, ErrorCode::TYPE_MISMATCH());
    assert_eq!(err.path, vec!["inner", "n"]);
}

#[test]
fn buffer_accepts_bytes() {
    let ok = val(buffer(), ZerxValue::Bytes(vec![1, 2, 3])).unwrap();
    assert_eq!(ok, ZerxValue::Bytes(vec![1, 2, 3]));
}

#[test]
fn buffer_rejects_non_bytes() {
    let err = val(buffer(), arr(vec![u(1), u(2), u(3)])).unwrap_err();
    assert_eq!(err.code, ErrorCode::TYPE_MISMATCH());
    assert_eq!(err.expected.as_deref(), Some("buffer"));
    assert_eq!(err.received.as_deref(), Some("array"));

    let err2 = val(buffer(), s("hi")).unwrap_err();
    assert_eq!(err2.code, ErrorCode::TYPE_MISMATCH());
    assert_eq!(err2.received.as_deref(), Some("string"));

    let err3 = val(buffer(), i(7)).unwrap_err();
    assert_eq!(err3.code, ErrorCode::TYPE_MISMATCH());
    assert_eq!(err3.received.as_deref(), Some("number"));
}

#[test]
fn buffer_mime_stores_modifier() {
    let b = buffer().mime("image/png");
    assert_eq!(b.0.modifiers.mime.as_deref(), Some("image/png"));
    assert!(val(b, ZerxValue::Bytes(vec![0])).is_ok());
    let b2 = buffer().mime_format("image/png");
    assert_eq!(b2.0.modifiers.mime.as_deref(), Some("image/png"));
}

#[test]
fn uri_happy_and_sad() {
    assert!(val(uri(), s("https://example.com")).is_ok());
    assert!(val(uri(), s("mailto:a@b.co")).is_ok());
    assert!(val(uri(), s("urn:isbn:123")).is_ok());
    for bad in ["not a uri", "://nohost", ":path"] {
        let err = val(uri(), s(bad)).unwrap_err();
        assert_eq!(err.code, ErrorCode::INVALID_URI(), "expected INVALID_URI for {:?}", bad);
        assert_eq!(err.expected.as_deref(), Some("uri"));
    }
    let err_num = val(uri(), i(7)).unwrap_err();
    assert_eq!(err_num.code, ErrorCode::TYPE_MISMATCH());
    assert_eq!(err_num.expected.as_deref(), Some("uri"));
}

#[test]
fn url_happy_and_sad() {
    assert!(val(url(), s("http://example.com")).is_ok());
    assert!(val(url(), s("https://example.com:8080/path?q=1#frag")).is_ok());
    assert!(val(url(), s("http://localhost")).is_ok());
    for bad in ["ftp://example.com", "http://exa..mple.com", "http://nodot", "http://example.com:99999"] {
        let err = val(url(), s(bad)).unwrap_err();
        assert_eq!(err.code, ErrorCode::INVALID_URL(), "expected INVALID_URL for {:?}", bad);
        assert_eq!(err.expected.as_deref(), Some("url"));
    }
    let err_bool = val(url(), ZerxValue::Bool(true)).unwrap_err();
    assert_eq!(err_bool.code, ErrorCode::TYPE_MISMATCH());
    assert_eq!(err_bool.expected.as_deref(), Some("url"));
}

#[test]
fn json_accepts_anything() {
    assert_eq!(val(json(), i(7)).unwrap(), i(7));
    assert_eq!(val(json(), s("hi")).unwrap(), s("hi"));
    assert_eq!(val(json(), ZerxValue::Bool(true)).unwrap(), ZerxValue::Bool(true));
    assert_eq!(val(json(), ZerxValue::Null).unwrap(), ZerxValue::Null);
    assert_eq!(val(json(), arr(vec![i(1), i(2), i(3)])).unwrap(), arr(vec![i(1), i(2), i(3)]));
    assert_eq!(val(json(), ZerxValue::Bytes(vec![9, 8])).unwrap(), ZerxValue::Bytes(vec![9, 8]));
}

#[test]
fn jsonschema_accepts_anything() {
    let schema_obj = obj(vec![("type", s("string"))]);
    assert_eq!(val(jsonschema(), schema_obj.clone()).unwrap(), schema_obj);
    assert_eq!(val(jsonschema(), ZerxValue::Bool(true)).unwrap(), ZerxValue::Bool(true));
    assert_eq!(val(jsonschema(), i(42)).unwrap(), i(42));
}

#[test]
fn special_type_modifiers_compose() {
    let b: Schema = buffer().optional().into();
    let mut ctx = ParseContext::new();
    assert_eq!(b.parse_field(&NoHooks, None, &mut ctx).unwrap(), None);

    let ur: Schema = uri().describe("a URI field").into();
    assert_eq!(ur.modifiers.description.as_deref(), Some("a URI field"));

    let default_val = ZerxValue::Object(ObjectMap::new());
    let j: Schema = json().default(default_val.clone()).into();
    assert_eq!(j.modifiers.default, Some(default_val));
}

#[test]
fn schema_kind_debug_t4() {
    let cases: Vec<(&str, Schema)> = vec![
        ("Buffer", buffer().into()),
        ("Uri", uri().into()),
        ("Url", url().into()),
        ("Json", json().into()),
        ("JsonSchema", jsonschema().into()),
    ];
    for (expected, schema) in cases {
        let debug = format!("{:?}", schema);
        assert!(debug.contains(expected), "expected {expected} in: {debug}");
    }
}

#[test]
fn special_type_composition() {
    let schema = object(vec![
        ("avatar", buffer().mime("image/png").optional().into()),
        ("home", url().into()),
        ("meta", record(json().into()).into()),
    ]);
    let ok = val(schema.clone(), obj(vec![("home", s("http://example.com")), ("meta", obj(vec![("k", u(1))]))])).unwrap();
    let m = ok.as_object().unwrap();
    assert!(m.get("avatar").is_none());
    assert!(m.get("home").is_some());

    let err = val(schema, obj(vec![("home", s("ftp://bad")), ("meta", obj(vec![]))])).unwrap_err();
    assert_eq!(err.code, ErrorCode::INVALID_URL());
    assert_eq!(err.path, vec!["home"]);
}

#[test]
fn buffer_clone_immutability() {
    let base = buffer();
    let with_mime: Schema = base.clone().mime("image/png").into();
    let without: Schema = Schema::from(base);
    assert_eq!(with_mime.modifiers.mime.as_deref(), Some("image/png"));
    assert_eq!(without.modifiers.mime, None);
}
