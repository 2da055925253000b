use zerx::{
    array, buffer, discriminated_union, lazy, literal, number, object, record, string, union, ErrorCode, Hooks, LuaTable, LuaValue,
    Modify, NoHooks, ObjectMap, Schema, ZerxError, ZerxValue,
};

struct Recursive;

impl Hooks for Recursive {
    fn refine(&self, _id: u64, _value: &ZerxValue) -> bool {
        true
    }

    fn resolve(&self, _id: u64) -> Result<Schema, ZerxError> {
        Ok(array(lazy(0).into()).into())
    }
}

fn obj(entries: Vec<(&str, ZerxValue)>) -> ZerxValue {
    let mut m = ObjectMap::new();
    for (k, v) in entries {
        m.insert(k.to_string(), v);
    }
    ZerxValue::Object(m)
}

fn s(x: &str) -> ZerxValue {
    ZerxValue::String(x.to_string())
}

#[test]
fn strict_refuses_an_unknown_key_even_when_fields_are_invalid() {
    let schema: Schema = object(vec![("a", number().into())]).into();
    let err = schema.validate(&NoHooks, &obj(vec![("a", s("not a number")), ("typo", ZerxValue::I64(1))])).unwrap_err();
    assert_eq!(err.code, ErrorCode::UNKNOWN_PROPERTY());
    assert_eq!(err.path, vec!["typo".to_string()]);
}

#[test]
fn strict_accepts_a_key_stripped_before_the_mode_check() {
    let schema: Schema = object(vec![("a", number().into())]).strip_only(vec!["typo"]).into();
    let out = schema.validate(&NoHooks, &obj(vec![("a", ZerxValue::I64(2)), ("typo", ZerxValue::I64(1))])).unwrap();
    assert_eq!(out, obj(vec![("a", ZerxValue::I64(2))]));
}

#[test]
fn strip_keeps_declared_keys_only() {
    let schema: Schema = object(vec![("a", number().into()), ("b", string().optional().into())]).strip().into();
    let out = schema
        .validate(&NoHooks, &obj(vec![("x", ZerxValue::Bool(true)), ("a", ZerxValue::I64(2)), ("y", ZerxValue::Null)]))
        .unwrap();
    assert_eq!(out, obj(vec![("a", ZerxValue::I64(2))]));
}

#[test]
fn passthrough_keeps_unknown_keys_with_their_values() {
    let schema: Schema = object(vec![("a", number().into())]).passthrough().into();
    let out = schema
        .validate(&NoHooks, &obj(vec![("x", ZerxValue::Bool(true)), ("a", ZerxValue::I64(2)), ("y", ZerxValue::Null)]))
        .unwrap();
    assert_eq!(out.get("x"), Some(&ZerxValue::Bool(true)));
    assert_eq!(out.get("y"), Some(&ZerxValue::Null));
    assert_eq!(out.get("a"), Some(&ZerxValue::I64(2)));
}

#[test]
fn lua_string_node_reads_text_buffer_node_keeps_bytes() {
    let text: Schema = string().into();
    let raw: Schema = buffer().into();
    let b = LuaValue::Bytes("héllo".as_bytes().to_vec());
    assert_eq!(text.validate_lua(&NoHooks, &b).unwrap(), s("héllo"));
    assert_eq!(raw.validate_lua(&NoHooks, &b).unwrap(), ZerxValue::Bytes("héllo".as_bytes().to_vec()));
}

#[test]
fn lua_table_part_follows_the_schema() {
    let mixed = LuaValue::Table(LuaTable {
        array: vec![LuaValue::Integer(1)],
        hash: vec![(LuaValue::Bytes(b"k".to_vec()), LuaValue::Integer(2))],
    });
    let a: Schema = array(number().into()).into();
    let o: Schema = object(vec![]).passthrough().into();
    let r: Schema = record(number().into()).into();
    for schema in [a, o, r] {
        assert_eq!(schema.validate_lua(&NoHooks, &mixed).unwrap_err().code, ErrorCode::LUA_SHAPE_MISMATCH());
    }
}

#[test]
fn buffer_refuses_a_number_array() {
    let schema: Schema = buffer().into();
    let err = schema.validate(&NoHooks, &ZerxValue::Array(vec![ZerxValue::U64(1), ZerxValue::U64(2)])).unwrap_err();
    assert_eq!(err.code, ErrorCode::TYPE_MISMATCH());
    let nullable: Schema = buffer().nullable().into();
    assert_eq!(nullable.validate(&NoHooks, &ZerxValue::Null).unwrap(), ZerxValue::Null);
}

#[test]
fn nesting_past_the_limit_is_parse_depth_exceeded() {
    let schema: Schema = lazy(0).into();
    let mut v = ZerxValue::Array(vec![]);
    for _ in 0..150 {
        v = ZerxValue::Array(vec![v]);
    }
    assert_eq!(schema.validate(&Recursive, &v).unwrap_err().code, ErrorCode::PARSE_DEPTH_EXCEEDED());
    let mut shallow = ZerxValue::Array(vec![]);
    for _ in 0..10 {
        shallow = ZerxValue::Array(vec![shallow]);
    }
    assert!(schema.validate(&Recursive, &shallow).is_ok());
}

#[test]
fn a_defective_discriminated_union_refuses_everything() {
    let schema: Schema = discriminated_union("kind", vec![string().into()]).into();
    for v in [ZerxValue::I64(1), s("x"), obj(vec![("kind", s("a"))])] {
        assert_eq!(schema.validate(&NoHooks, &v).unwrap_err().code, ErrorCode::INVALID_DISCRIMINATED_UNION());
    }
    let nullable: Schema = discriminated_union("kind", vec![string().into()]).nullable().into();
    assert_eq!(nullable.validate(&NoHooks, &ZerxValue::Null).unwrap(), ZerxValue::Null);
}

#[test]
fn strict_with_a_strip_set_answers_like_strip() {
    let strict: Schema = object(vec![("a", number().into())]).strip_only(vec!["x"]).into();
    let strip: Schema = object(vec![("a", number().into())]).strip_only(vec!["x"]).strip().into();
    let input = obj(vec![("x", s("gone")), ("a", ZerxValue::I64(1))]);
    assert_eq!(strict.validate(&NoHooks, &input).unwrap(), strip.validate(&NoHooks, &input).unwrap());
    let bad = obj(vec![("x", s("gone")), ("a", s("not a number"))]);
    assert_eq!(
        strict.validate(&NoHooks, &bad).unwrap_err().code,
        strip.validate(&NoHooks, &bad).unwrap_err().code
    );
}

#[test]
fn a_missing_optional_property_is_omitted_not_null() {
    let schema: Schema = object(vec![("a", number().into()), ("b", string().optional().into())]).into();
    let out = schema.validate(&NoHooks, &obj(vec![("a", ZerxValue::I64(1))])).unwrap();
    assert_eq!(out, obj(vec![("a", ZerxValue::I64(1))]));
    let partial: Schema = object(vec![("a", number().into())]).partial().into();
    assert_eq!(partial.validate(&NoHooks, &obj(vec![])).unwrap(), obj(vec![]));
}

#[test]
fn a_default_fills_a_missing_property_but_not_an_explicit_null() {
    let schema: Schema = object(vec![("n", number().default(ZerxValue::I64(7)).into())]).into();
    assert_eq!(schema.validate(&NoHooks, &obj(vec![])).unwrap(), obj(vec![("n", ZerxValue::I64(7))]));
    let err = schema.validate(&NoHooks, &obj(vec![("n", ZerxValue::Null)])).unwrap_err();
    assert_eq!(err.code, ErrorCode::TYPE_MISMATCH());
    let nullable: Schema = object(vec![("n", number().nullable().default(ZerxValue::I64(7)).into())]).into();
    assert_eq!(nullable.validate(&NoHooks, &obj(vec![("n", ZerxValue::Null)])).unwrap(), obj(vec![("n", ZerxValue::Null)]));
}

#[test]
fn replace_never_creates_a_parent_and_never_deletes() {
    let schema: Schema = object(vec![
        ("a", object(vec![("b", number().into())]).optional().into()),
        ("c", number().into()),
        ("d", number().into()),
    ])
    .into();
    let without_a = obj(vec![("c", ZerxValue::I64(1)), ("d", ZerxValue::I64(2))]);
    let err = schema.replace(&NoHooks, &without_a, "/a/b", &ZerxValue::I64(3)).unwrap_err();
    assert_eq!(err.code, ErrorCode::MISSING_PARENT());
    let updated = schema.replace(&NoHooks, &without_a, "/c", &ZerxValue::I64(9)).unwrap();
    let keys: Vec<String> = updated.as_object().unwrap().iter().iter().map(|(k, _)| k.clone()).collect();
    assert_eq!(keys, vec!["c".to_string(), "d".to_string()]);
    assert_eq!(updated.get("c"), Some(&ZerxValue::I64(9)));
}

#[test]
fn a_copy_validates_alike() {
    let schema: Schema = object(vec![
        ("name", string().min(2).into()),
        ("tags", array(string().into()).into()),
        ("n", number().optional().into()),
    ])
    .strip_only(vec!["x"])
    .into();
    let copy = schema.clone();
    let values = vec![
        obj(vec![("name", s("ab")), ("tags", ZerxValue::Array(vec![s("t")]))]),
        obj(vec![("name", s("a")), ("tags", ZerxValue::Array(vec![]))]),
        obj(vec![("name", s("abc")), ("tags", ZerxValue::Array(vec![ZerxValue::I64(1)]))]),
        obj(vec![("name", s("abc")), ("tags", ZerxValue::Array(vec![])), ("x", ZerxValue::Null), ("y", ZerxValue::Null)]),
        ZerxValue::I64(3),
    ];
    for v in values {
        let a = schema.validate(&NoHooks, &v);
        let b = copy.validate(&NoHooks, &v);
        match (a, b) {
            (Ok(x), Ok(y)) => assert_eq!(x, y),
            (Err(x), Err(y)) => {
                assert_eq!(x.code, y.code);
                assert_eq!(x.path, y.path);
                assert_eq!(x.message, y.message);
            },
            _ => panic!("a copy answered differently"),
        }
    }
}

struct Rejecting;

impl Hooks for Rejecting {
    fn refine(&self, _id: u64, _value: &ZerxValue) -> bool {
        false
    }

    fn resolve(&self, _id: u64) -> Result<Schema, ZerxError> {
        Ok(string().into())
    }
}

#[test]
fn a_missing_required_property_fails() {
    let schema: Schema = object(vec![("a", number().into()), ("b", string().into())]).into();
    let err = schema.validate(&NoHooks, &obj(vec![("a", ZerxValue::I64(1))])).unwrap_err();
    assert_eq!(err.code, ErrorCode::REQUIRED());
    assert_eq!(err.path, vec!["b".to_string()]);
}

#[test]
fn a_nullable_schema_accepts_null_before_its_refinements() {
    let schema: Schema = number().min(zerx::Float { bits: 5f64.to_bits(), text: "5".to_string() }).refine(0, "never").nullable().into();
    assert_eq!(schema.validate(&Rejecting, &ZerxValue::Null).unwrap(), ZerxValue::Null);
    assert_eq!(schema.validate(&Rejecting, &ZerxValue::I64(9)).unwrap_err().code, ErrorCode::REFINEMENT_FAILED());
}

#[test]
fn a_union_takes_the_first_variant_that_accepts() {
    let schema: Schema = union(vec![
        literal(s("a")).into(),
        string().into(),
        number().into(),
    ])
    .into();
    assert_eq!(schema.validate(&NoHooks, &s("a")).unwrap(), s("a"));
    assert_eq!(schema.validate(&NoHooks, &ZerxValue::I64(2)).unwrap(), ZerxValue::I64(2));
    let err = schema.validate(&NoHooks, &ZerxValue::Bool(true)).unwrap_err();
    assert_eq!(err.code, ErrorCode::UNION_MISMATCH());
    assert_eq!(err.inner_errors.len(), 3);
}

#[test]
fn a_nullable_lazy_accepts_null_without_resolving() {
    let schema: Schema = lazy(0).nullable().into();
    assert_eq!(schema.validate(&NoHooks, &ZerxValue::Null).unwrap(), ZerxValue::Null);
    assert_eq!(schema.validate(&NoHooks, &ZerxValue::I64(1)).unwrap_err().code, ErrorCode::LAZY_UNRESOLVED());
    let resolved: Schema = lazy(0).nullable().into();
    assert_eq!(resolved.validate(&Rejecting, &ZerxValue::Null).unwrap(), ZerxValue::Null);
    assert_eq!(resolved.validate(&Rejecting, &s("x")).unwrap(), s("x"));
}
