use zerx::{
    array, boolean, buffer, discriminated_union, json, lazy, literal, null, number, object, record, string, tuple,
    union, ErrorCode, Float, Hooks, LuaTable, LuaValue, Modify, NoHooks, ObjectMap, Schema, ZerxError, ZerxValue,
    MAX_PARSE_DEPTH,
};

struct Host {
    lazies: Vec<Schema>,
}

impl Hooks for Host {
    fn refine(&self, _id: u64, _value: &ZerxValue) -> bool {
        false
    }

    fn resolve(&self, id: u64) -> Result<Schema, ZerxError> {
        Ok(self.lazies[id as usize].clone())
    }
}

fn s(x: &str) -> ZerxValue {
    ZerxValue::String(x.to_string())
}

fn fl(x: f64) -> Float {
    Float { bits: x.to_bits(), text: x.to_string() }
}

fn bytes(b: &[u8]) -> LuaValue {
    LuaValue::Bytes(b.to_vec())
}

fn table(array: Vec<LuaValue>, hash: Vec<(LuaValue, LuaValue)>) -> LuaValue {
    LuaValue::Table(LuaTable { array, hash })
}

fn hash_entry(key: &str, val: LuaValue) -> (LuaValue, LuaValue) {
    (LuaValue::Bytes(key.as_bytes().to_vec()), val)
}


#[test]
fn string_accepts_utf8_bytes() {
    let schema: Schema = string().into();
    let result = schema.validate_lua(&NoHooks, &bytes(b"hello")).unwrap();
    assert_eq!(result, ZerxValue::String("hello".to_string()));
}

#[test]
fn string_on_non_utf8_bytes_yields_type_mismatch() {
    let schema: Schema = string().into();
    let result = schema.validate_lua(&NoHooks, &bytes(&[0xFF, 0xFE]));
    let err = result.unwrap_err();
    assert_eq!(err.code, ErrorCode::TYPE_MISMATCH());
    assert_eq!(err.received.as_deref(), Some("bytes"));
}

#[test]
fn buffer_accepts_non_utf8_bytes() {
    let schema: Schema = buffer().into();
    let raw = vec![0xFF, 0xFE, 0x00];
    let result = schema.validate_lua(&NoHooks, &bytes(&raw)).unwrap();
    assert_eq!(result, ZerxValue::Bytes(raw));
}

#[test]
fn buffer_accepts_utf8_bytes_unchanged() {
    let schema: Schema = buffer().into();
    let raw = b"hello".to_vec();
    let result = schema.validate_lua(&NoHooks, &bytes(&raw)).unwrap();
    assert_eq!(result, ZerxValue::Bytes(raw));
}


#[test]
fn array_from_pure_sequence() {
    let schema: Schema = array(number().into()).into();
    let t = table(vec![LuaValue::Integer(1), LuaValue::Integer(2)], vec![]);
    let result = schema.validate_lua(&NoHooks, &t).unwrap();
    assert_eq!(
        result,
        ZerxValue::Array(vec![ZerxValue::I64(1), ZerxValue::I64(2)])
    );
}

#[test]
fn array_with_hash_part_yields_shape_mismatch() {
    let schema: Schema = array(number().into()).into();
    let t = table(
        vec![LuaValue::Integer(1)],
        vec![hash_entry("x", LuaValue::Integer(2))],
    );
    let err = schema.validate_lua(&NoHooks, &t).unwrap_err();
    assert_eq!(err.code, ErrorCode::LUA_SHAPE_MISMATCH());
}


#[test]
fn object_from_hash_only_table() {
    let schema: Schema = object(vec![("x", number().into())]).into();
    let t = table(vec![], vec![hash_entry("x", LuaValue::Integer(42))]);
    let result = schema.validate_lua(&NoHooks, &t).unwrap();
    let mut expected = ObjectMap::new();
    expected.insert("x".to_string(), ZerxValue::I64(42));
    assert_eq!(result, ZerxValue::Object(expected));
}

#[test]
fn object_with_array_part_yields_shape_mismatch() {
    let schema: Schema = object(vec![("x", number().into())]).into();
    let t = table(
        vec![LuaValue::Integer(1)],
        vec![hash_entry("x", LuaValue::Integer(2))],
    );
    let err = schema.validate_lua(&NoHooks, &t).unwrap_err();
    assert_eq!(err.code, ErrorCode::LUA_SHAPE_MISMATCH());
}

#[test]
fn object_non_string_hash_key_yields_invalid_key() {
    let schema: Schema = object(vec![("x", number().into())]).into();
    let t = table(
        vec![],
        vec![(LuaValue::Integer(1), LuaValue::Integer(42))],
    );
    let err = schema.validate_lua(&NoHooks, &t).unwrap_err();
    assert_eq!(err.code, ErrorCode::LUA_INVALID_KEY());
}

#[test]
fn object_non_utf8_hash_key_yields_invalid_key() {
    let schema: Schema = object(vec![("x", number().into())]).into();
    let t = table(
        vec![],
        vec![(LuaValue::Bytes(vec![0xFF, 0xFE]), LuaValue::Integer(42))],
    );
    let err = schema.validate_lua(&NoHooks, &t).unwrap_err();
    assert_eq!(err.code, ErrorCode::LUA_INVALID_KEY());
}

#[test]
fn record_from_hash_only_table() {
    let schema: Schema = record(number().into()).into();
    let t = table(
        vec![],
        vec![hash_entry("a", LuaValue::Integer(1)), hash_entry("b", LuaValue::Integer(2))],
    );
    let result = schema.validate_lua(&NoHooks, &t).unwrap();
    let mut expected = ObjectMap::new();
    expected.insert("a".to_string(), ZerxValue::I64(1));
    expected.insert("b".to_string(), ZerxValue::I64(2));
    assert_eq!(result, ZerxValue::Object(expected));
}

#[test]
fn record_with_array_part_yields_shape_mismatch() {
    let schema: Schema = record(number().into()).into();
    let t = table(vec![LuaValue::Integer(1)], vec![]);
    let err = schema.validate_lua(&NoHooks, &t).unwrap_err();
    assert_eq!(err.code, ErrorCode::LUA_SHAPE_MISMATCH());
}


#[test]
fn unknown_key_strict_yields_unknown_property() {
    let schema: Schema = object(vec![("x", number().into())]).into();
    let t = table(vec![], vec![hash_entry("y", LuaValue::Integer(1))]);
    let err = schema.validate_lua(&NoHooks, &t).unwrap_err();
    assert_eq!(err.code, ErrorCode::UNKNOWN_PROPERTY());
    assert_eq!(err.path, vec!["y"]);
}

#[test]
fn missing_optional_field_omitted() {
    let schema: Schema = object(vec![("x", number().optional().into())]).into();
    let t = table(vec![], vec![]);
    let result = schema.validate_lua(&NoHooks, &t).unwrap();
    assert_eq!(result, ZerxValue::Object(ObjectMap::new()));
}

#[test]
fn missing_defaulted_field_gets_default() {
    let schema: Schema =
        object(vec![("x", number().default(ZerxValue::I64(99)).into())]).into();
    let t = table(vec![], vec![]);
    let result = schema.validate_lua(&NoHooks, &t).unwrap();
    let mut expected = ObjectMap::new();
    expected.insert("x".to_string(), ZerxValue::I64(99));
    assert_eq!(result, ZerxValue::Object(expected));
}


#[test]
fn precedence_unknown_key_beats_nested_value_error() {
    let inner = object(vec![("z", number().into())]).into();
    let schema: Schema = object(vec![("a", inner)]).into();
    let mixed_table = table(
        vec![LuaValue::Integer(1)],
        vec![hash_entry("z", LuaValue::Integer(2))],
    );
    let t = table(
        vec![],
        vec![
            hash_entry("x", LuaValue::Integer(99)),
            hash_entry("a", mixed_table),
        ],
    );
    let err = schema.validate_lua(&NoHooks, &t).unwrap_err();
    assert_eq!(err.code, ErrorCode::UNKNOWN_PROPERTY(), "expected UNKNOWN_PROPERTY on 'x', got {:?}", err);
    assert_eq!(err.path, vec!["x"]);
}


#[test]
fn precedence_tuple_length_beats_element_error() {
    let schema: Schema = tuple(vec![string().into(), number().into()]).into();
    let t = table(
        vec![
            bytes(b"hello"),
            LuaValue::Integer(1),
            table(vec![LuaValue::Integer(1)], vec![hash_entry("x", LuaValue::Integer(2))]),
        ],
        vec![],
    );
    let err = schema.validate_lua(&NoHooks, &t).unwrap_err();
    assert_eq!(err.code, ErrorCode::TUPLE_LENGTH_MISMATCH(), "expected TUPLE_LENGTH_MISMATCH, got {:?}", err);
}


#[test]
fn precedence_discriminator_beats_body_error() {
    let schema: Schema = discriminated_union(
        "kind",
        vec![
            object(vec![
                ("kind", literal(s("a")).into()),
                ("data", number().into()),
            ])
            .into(),
        ],
    )
    .into();
    let mixed = table(
        vec![LuaValue::Integer(1)],
        vec![hash_entry("x", LuaValue::Integer(2))],
    );
    let t = table(
        vec![],
        vec![
            hash_entry("data", mixed),
        ],
    );
    let err = schema.validate_lua(&NoHooks, &t).unwrap_err();
    assert_eq!(err.code, ErrorCode::INVALID_DISCRIMINANT(), "expected INVALID_DISCRIMINANT, got {:?}", err);
}


#[test]
fn integer_to_number() {
    let schema: Schema = number().into();
    let result = schema.validate_lua(&NoHooks, &LuaValue::Integer(7)).unwrap();
    assert_eq!(result, ZerxValue::I64(7));
}

#[test]
fn integer_to_number_int() {
    let schema: Schema = number().integer().into();
    let result = schema.validate_lua(&NoHooks, &LuaValue::Integer(7)).unwrap();
    assert_eq!(result, ZerxValue::I64(7));
}

#[test]
fn float_with_fract_under_int_constraint_fails() {
    let schema: Schema = number().integer().into();
    let err = schema.validate_lua(&NoHooks, &LuaValue::Float(fl(1.5))).unwrap_err();
    assert_eq!(err.code, ErrorCode::NOT_INTEGER());
}

#[test]
fn boolean_value() {
    let schema: Schema = boolean().into();
    let result = schema.validate_lua(&NoHooks, &LuaValue::Boolean(true)).unwrap();
    assert_eq!(result, ZerxValue::Bool(true));
}

#[test]
fn nil_under_nullable_string() {
    let schema: Schema = string().nullable().into();
    let result = schema.validate_lua(&NoHooks, &LuaValue::Nil).unwrap();
    assert_eq!(result, ZerxValue::Null);
}

#[test]
fn nil_under_non_nullable_string_fails() {
    let schema: Schema = string().into();
    let err = schema.validate_lua(&NoHooks, &LuaValue::Nil).unwrap_err();
    assert_eq!(err.code, ErrorCode::TYPE_MISMATCH());
}


#[test]
fn nested_buffer_and_string_fields() {
    let schema: Schema = object(vec![
        ("name", string().into()),
        ("data", buffer().into()),
    ])
    .into();
    let raw = vec![0xFF, 0xFE];
    let t = table(
        vec![],
        vec![
            hash_entry("name", bytes(b"alice")),
            (LuaValue::Bytes(b"data".to_vec()), LuaValue::Bytes(raw.clone())),
        ],
    );
    let result = schema.validate_lua(&NoHooks, &t).unwrap();
    let mut expected = ObjectMap::new();
    expected.insert("name".to_string(), ZerxValue::String("alice".to_string()));
    expected.insert("data".to_string(), ZerxValue::Bytes(raw));
    assert_eq!(result, ZerxValue::Object(expected));
}


#[test]
fn union_utf8_bytes_resolves_string_first() {
    let schema: Schema = union(vec![string().into(), buffer().into()]).into();
    let result = schema.validate_lua(&NoHooks, &bytes(b"hello")).unwrap();
    assert_eq!(result, ZerxValue::String("hello".to_string()));
}

#[test]
fn union_non_utf8_bytes_falls_through_to_buffer() {
    let schema: Schema = union(vec![string().into(), buffer().into()]).into();
    let raw = vec![0xFF, 0xFE];
    let result = schema.validate_lua(&NoHooks, &bytes(&raw)).unwrap();
    assert_eq!(result, ZerxValue::Bytes(raw));
}


#[test]
fn discriminated_union_bytes_string_discriminator() {
    let schema: Schema = discriminated_union(
        "kind",
        vec![
            object(vec![
                ("kind", literal(s("foo")).into()),
                ("val", number().into()),
            ])
            .into(),
            object(vec![
                ("kind", literal(s("bar")).into()),
                ("val", string().into()),
            ])
            .into(),
        ],
    )
    .into();
    let t = table(
        vec![],
        vec![
            hash_entry("kind", bytes(b"foo")),
            hash_entry("val", LuaValue::Integer(42)),
        ],
    );
    let result = schema.validate_lua(&NoHooks, &t).unwrap();
    let mut expected = ObjectMap::new();
    expected.insert("kind".to_string(), ZerxValue::String("foo".to_string()));
    expected.insert("val".to_string(), ZerxValue::I64(42));
    assert_eq!(result, ZerxValue::Object(expected));
}

#[test]
fn discriminated_union_boolean_discriminator() {
    let schema: Schema = discriminated_union(
        "active",
        vec![
            object(vec![
                ("active", literal(ZerxValue::Bool(true)).into()),
                ("val", number().into()),
            ])
            .into(),
            object(vec![
                ("active", literal(ZerxValue::Bool(false)).into()),
                ("val", string().into()),
            ])
            .into(),
        ],
    )
    .into();
    let t = table(
        vec![],
        vec![
            (LuaValue::Bytes(b"active".to_vec()), LuaValue::Boolean(true)),
            hash_entry("val", LuaValue::Integer(99)),
        ],
    );
    let result = schema.validate_lua(&NoHooks, &t).unwrap();
    let mut expected = ObjectMap::new();
    expected.insert("active".to_string(), ZerxValue::Bool(true));
    expected.insert("val".to_string(), ZerxValue::I64(99));
    assert_eq!(result, ZerxValue::Object(expected));
}

#[test]
fn discriminated_union_integer_discriminator() {
    let schema: Schema = discriminated_union(
        "code",
        vec![
            object(vec![
                ("code", literal(ZerxValue::I64(1)).into()),
                ("msg", string().into()),
            ])
            .into(),
            object(vec![
                ("code", literal(ZerxValue::I64(2)).into()),
                ("msg", string().into()),
            ])
            .into(),
        ],
    )
    .into();
    let t = table(
        vec![],
        vec![
            (LuaValue::Bytes(b"code".to_vec()), LuaValue::Integer(2)),
            hash_entry("msg", bytes(b"ok")),
        ],
    );
    let result = schema.validate_lua(&NoHooks, &t).unwrap();
    let mut expected = ObjectMap::new();
    expected.insert("code".to_string(), ZerxValue::I64(2));
    expected.insert("msg".to_string(), ZerxValue::String("ok".to_string()));
    assert_eq!(result, ZerxValue::Object(expected));
}

#[test]
fn discriminated_union_wrong_discriminator_yields_invalid_discriminant() {
    let schema: Schema = discriminated_union(
        "kind",
        vec![
            object(vec![("kind", literal(s("foo")).into()), ("val", number().into())]).into(),
        ],
    )
    .into();
    let t = table(
        vec![],
        vec![hash_entry("kind", bytes(b"bar")), hash_entry("val", LuaValue::Integer(1))],
    );
    let err = schema.validate_lua(&NoHooks, &t).unwrap_err();
    assert_eq!(err.code, ErrorCode::INVALID_DISCRIMINANT());
}

#[test]
fn discriminated_union_absent_discriminator_yields_invalid_discriminant() {
    let schema: Schema = discriminated_union(
        "kind",
        vec![object(vec![("kind", literal(s("foo")).into())]).into()],
    )
    .into();
    let t = table(vec![], vec![]);
    let err = schema.validate_lua(&NoHooks, &t).unwrap_err();
    assert_eq!(err.code, ErrorCode::INVALID_DISCRIMINANT());
}


#[test]
fn discriminator_mixed_table_value_yields_invalid_discriminant_not_shape_mismatch() {
    let schema: Schema = discriminated_union(
        "kind",
        vec![object(vec![("kind", literal(s("foo")).into()), ("val", number().into())]).into()],
    )
    .into();
    let mixed = table(
        vec![LuaValue::Integer(1)],
        vec![hash_entry("x", LuaValue::Integer(2))],
    );
    let t = table(
        vec![],
        vec![(LuaValue::Bytes(b"kind".to_vec()), mixed)],
    );
    let err = schema.validate_lua(&NoHooks, &t).unwrap_err();
    assert_eq!(err.code, ErrorCode::INVALID_DISCRIMINANT(), "expected INVALID_DISCRIMINANT, got {:?}", err);
}

#[test]
fn discriminator_float_value_yields_invalid_discriminant() {
    let schema: Schema = discriminated_union(
        "kind",
        vec![object(vec![("kind", literal(s("foo")).into())]).into()],
    )
    .into();
    let t = table(
        vec![],
        vec![(LuaValue::Bytes(b"kind".to_vec()), LuaValue::Float(fl(1.5)))],
    );
    let err = schema.validate_lua(&NoHooks, &t).unwrap_err();
    assert_eq!(err.code, ErrorCode::INVALID_DISCRIMINANT());
}


#[test]
fn lazy_wrapped_object_validates() {
    let host = Host { lazies: vec![object(vec![("x", number().into())]).into()] };
    let schema: Schema = lazy(0).into();
    let t = table(vec![], vec![hash_entry("x", LuaValue::Integer(5))]);
    let result = schema.validate_lua(&host, &t).unwrap();
    let mut expected = ObjectMap::new();
    expected.insert("x".to_string(), ZerxValue::I64(5));
    assert_eq!(result, ZerxValue::Object(expected));
}

#[test]
fn depth_exceeded_yields_parse_depth_exceeded() {
    let mut schema: Schema = null().into();
    for _ in 0..=(MAX_PARSE_DEPTH + 1) {
        schema = array(schema).into();
    }

    let mut val = LuaValue::Nil;
    for _ in 0..=(MAX_PARSE_DEPTH + 1) {
        val = table(vec![val], vec![]);
    }

    let err = schema.validate_lua(&NoHooks, &val).unwrap_err();
    assert_eq!(err.code, ErrorCode::PARSE_DEPTH_EXCEEDED(), "expected PARSE_DEPTH_EXCEEDED, got {:?}", err);
}


#[test]
fn any_hash_only_nested_table_free_converts() {
    let schema: Schema = json().into();
    let inner = table(vec![], vec![hash_entry("n", LuaValue::Integer(1))]);
    let t = table(vec![], vec![hash_entry("inner", inner)]);
    let result = schema.validate_lua(&NoHooks, &t).unwrap();
    let mut inner_expected = ObjectMap::new();
    inner_expected.insert("n".to_string(), ZerxValue::I64(1));
    let mut expected = ObjectMap::new();
    expected.insert(
        "inner".to_string(),
        ZerxValue::Object(inner_expected),
    );
    assert_eq!(result, ZerxValue::Object(expected));
}

#[test]
fn any_bytes_key_table_yields_invalid_key() {
    let schema: Schema = json().into();
    let t = table(
        vec![],
        vec![(LuaValue::Integer(1), LuaValue::Integer(2))],
    );
    let err = schema.validate_lua(&NoHooks, &t).unwrap_err();
    assert_eq!(err.code, ErrorCode::LUA_INVALID_KEY());
}

#[test]
fn any_mixed_table_yields_shape_mismatch() {
    let schema: Schema = json().into();
    let t = table(
        vec![LuaValue::Integer(1)],
        vec![hash_entry("x", LuaValue::Integer(2))],
    );
    let err = schema.validate_lua(&NoHooks, &t).unwrap_err();
    assert_eq!(err.code, ErrorCode::LUA_SHAPE_MISMATCH());
}

#[test]
fn any_empty_table_yields_empty_array() {
    let schema: Schema = json().into();
    let t = table(vec![], vec![]);
    let result = schema.validate_lua(&NoHooks, &t).unwrap();
    assert_eq!(result, ZerxValue::Array(vec![]));
}


#[test]
fn port_bytes_decode_utf8_for_string_schema() {
    let schema: Schema = string().into();
    assert!(schema.validate_lua(&NoHooks, &bytes(b"zerx")).is_ok());
}

#[test]
fn port_buffer_keeps_raw_bytes() {
    let schema: Schema = buffer().into();
    let raw = b"\x00\x01\x02".to_vec();
    let result = schema.validate_lua(&NoHooks, &bytes(&raw)).unwrap();
    assert_eq!(result, ZerxValue::Bytes(raw));
}

#[test]
fn port_discriminant_bytes_selects_string_literal_variant() {
    let schema: Schema = discriminated_union(
        "t",
        vec![
            object(vec![("t", literal(s("ok")).into()), ("v", number().into())]).into(),
            object(vec![("t", literal(s("err")).into()), ("v", string().into())]).into(),
        ],
    )
    .into();
    let t = table(
        vec![],
        vec![
            hash_entry("t", bytes(b"err")),
            hash_entry("v", bytes(b"bad")),
        ],
    );
    let result = schema.validate_lua(&NoHooks, &t).unwrap();
    let mut expected = ObjectMap::new();
    expected.insert("t".to_string(), ZerxValue::String("err".to_string()));
    expected.insert("v".to_string(), ZerxValue::String("bad".to_string()));
    assert_eq!(result, ZerxValue::Object(expected));
}

#[test]
fn port_strict_rejects_non_string_key() {
    let schema: Schema = object(vec![("x", number().into())]).into();
    let t = table(
        vec![],
        vec![(LuaValue::Integer(1), LuaValue::Integer(42))],
    );
    let err = schema.validate_lua(&NoHooks, &t).unwrap_err();
    assert_eq!(err.code, ErrorCode::LUA_INVALID_KEY());
}
