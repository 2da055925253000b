use zerx::{
    any, array, discriminated_union, lazy, literal, number, object, record, string, tuple, union, ErrorCode, Hooks,
    Modify, NoHooks, ObjectMap, Schema, ZerxError, ZerxValue,
};

struct Host {
    refines: Vec<Box<dyn Fn(&ZerxValue) -> bool>>,
    lazies: Vec<Schema>,
}

impl Hooks for Host {
    fn refine(&self, id: u64, value: &ZerxValue) -> bool {
        (self.refines[id as usize])(value)
    }

    fn resolve(&self, id: u64) -> Result<Schema, ZerxError> {
        Ok(self.lazies[id as usize].clone())
    }
}

fn make_obj(pairs: &[(&str, ZerxValue)]) -> ZerxValue {
    let mut map = ObjectMap::new();
    for (k, v) in pairs {
        map.insert(k.to_string(), v.clone());
    }
    ZerxValue::Object(map)
}

fn make_arr(items: Vec<ZerxValue>) -> ZerxValue {
    ZerxValue::Array(items)
}

fn s(x: &str) -> ZerxValue {
    ZerxValue::String(x.to_string())
}

fn i(n: i64) -> ZerxValue {
    ZerxValue::I64(n)
}

#[test]
fn parse_delta_object_field_ok() {
    let schema: Schema = object(vec![("age", number().into())]).into();
    assert_eq!(schema.parse_delta(&NoHooks, "/age", &i(30)).unwrap(), i(30));
}

#[test]
fn parse_delta_object_field_type_mismatch() {
    let schema: Schema = object(vec![("age", number().into())]).into();
    let err = schema.parse_delta(&NoHooks, "/age", &s("x")).unwrap_err();
    assert_eq!(err.code, ErrorCode::TYPE_MISMATCH());
}

#[test]
fn parse_delta_unknown_key() {
    let schema: Schema = object(vec![("age", number().into())]).into();
    let err = schema.parse_delta(&NoHooks, "/bogus", &i(0)).unwrap_err();
    assert_eq!(err.code, ErrorCode::UNKNOWN_PROPERTY());
    assert_eq!(err.path, vec!["bogus"]);
}

#[test]
fn parse_delta_nested_object() {
    let schema: Schema = object(vec![("a", object(vec![("b", number().into())]).into())]).into();
    assert_eq!(schema.parse_delta(&NoHooks, "/a/b", &i(42)).unwrap(), i(42));
}

#[test]
fn parse_delta_array_item() {
    let schema: Schema = array(number().into()).into();
    assert_eq!(schema.parse_delta(&NoHooks, "/0", &i(99)).unwrap(), i(99));
}

#[test]
fn parse_delta_array_non_numeric_index() {
    let schema: Schema = array(number().into()).into();
    let err = schema.parse_delta(&NoHooks, "/x", &i(0)).unwrap_err();
    assert_eq!(err.code, ErrorCode::INVALID_POINTER());
}

#[test]
fn parse_delta_tuple_ok() {
    let schema: Schema = tuple(vec![string().into(), number().into()]).into();
    assert_eq!(schema.parse_delta(&NoHooks, "/1", &i(7)).unwrap(), i(7));
}

#[test]
fn parse_delta_tuple_out_of_range() {
    let schema: Schema = tuple(vec![string().into(), number().into()]).into();
    let err = schema.parse_delta(&NoHooks, "/5", &i(0)).unwrap_err();
    assert_eq!(err.code, ErrorCode::INDEX_OUT_OF_RANGE());
}

#[test]
fn parse_delta_record_value() {
    let schema: Schema = record(number().into()).into();
    assert_eq!(schema.parse_delta(&NoHooks, "/anything", &i(3)).unwrap(), i(3));
}

#[test]
fn parse_delta_descend_into_scalar() {
    let schema: Schema = object(vec![("name", string().into())]).into();
    let err = schema.parse_delta(&NoHooks, "/name/0", &s("x")).unwrap_err();
    assert_eq!(err.code, ErrorCode::INVALID_PATH());
}

#[test]
fn parse_delta_empty_pointer_root_ok() {
    let schema: Schema = string().into();
    assert_eq!(schema.parse_delta(&NoHooks, "", &s("hello")).unwrap(), s("hello"));
}

#[test]
fn parse_delta_empty_pointer_root_fail() {
    let schema: Schema = string().into();
    let err = schema.parse_delta(&NoHooks, "", &i(42)).unwrap_err();
    assert_eq!(err.code, ErrorCode::TYPE_MISMATCH());
}

#[test]
fn parse_delta_union_descent_fails() {
    let schema: Schema = union(vec![string().into(), number().into()]).into();
    let err = schema.parse_delta(&NoHooks, "/0", &s("x")).unwrap_err();
    assert_eq!(err.code, ErrorCode::UNION_PATH_REQUIRES_INSTANCE());
}

#[test]
fn parse_delta_union_target_itself_ok() {
    let outer: Schema = object(vec![("u", union(vec![string().into(), number().into()]).into())]).into();
    assert!(outer.parse_delta(&NoHooks, "/u", &s("hello")).is_ok());
    assert!(outer.parse_delta(&NoHooks, "/u", &i(99)).is_ok());
}

#[test]
fn parse_delta_discriminated_union_descent_fails() {
    let schema: Schema = discriminated_union(
        "type",
        vec![
            object(vec![("type", literal(s("cat")).into()), ("name", string().into())]).into(),
            object(vec![("type", literal(s("dog")).into()), ("breed", string().into())]).into(),
        ],
    )
    .into();
    let err = schema.parse_delta(&NoHooks, "/type", &s("cat")).unwrap_err();
    assert_eq!(err.code, ErrorCode::UNION_PATH_REQUIRES_INSTANCE());
    let err2 = schema.parse_delta(&NoHooks, "/name", &s("Whiskers")).unwrap_err();
    assert_eq!(err2.code, ErrorCode::UNION_PATH_REQUIRES_INSTANCE());
}

#[test]
fn parse_delta_lazy_schema() {
    let leaf: Schema = object(vec![("leaf", string().into())]).into();
    let top: Schema = object(vec![("x", number().into()), ("child", lazy(1).into())]).into();
    let host = Host { refines: Vec::new(), lazies: vec![top, leaf] };
    let schema: Schema = lazy(0).into();
    assert_eq!(schema.parse_delta(&host, "/child/leaf", &s("hello")).unwrap(), s("hello"));
}

#[test]
fn parse_delta_any_schema() {
    let schema: Schema = object(vec![("data", any().into())]).into();
    assert!(schema.parse_delta(&NoHooks, "/data", &i(42)).is_ok());
    let err = schema.parse_delta(&NoHooks, "/data/key", &i(0)).unwrap_err();
    assert_eq!(err.code, ErrorCode::INVALID_PATH());
}

#[test]
fn replace_object_leaf() {
    let schema: Schema = object(vec![("name", string().into()), ("age", number().into())]).into();
    let instance = make_obj(&[("name", s("Alice")), ("age", i(30))]);
    let result = schema.replace(&NoHooks, &instance, "/age", &i(31)).unwrap();
    let obj = result.as_object().unwrap();
    assert_eq!(obj.get("age"), Some(&i(31)));
    assert_eq!(obj.get("name"), Some(&s("Alice")));
    let keys: Vec<&str> = obj.iter().iter().map(|(k, _)| k.as_str()).collect();
    assert_eq!(keys, vec!["name", "age"]);
}

#[test]
fn replace_nested_object() {
    let schema: Schema =
        object(vec![("profile", object(vec![("city", string().into()), ("zip", string().into())]).into())]).into();
    let instance = make_obj(&[("profile", make_obj(&[("city", s("Paris")), ("zip", s("75000"))]))]);
    let result = schema.replace(&NoHooks, &instance, "/profile/city", &s("Berlin")).unwrap();
    assert_eq!(result.get("profile").and_then(|v| v.get("city")).unwrap(), &s("Berlin"));
    assert_eq!(result.get("profile").and_then(|v| v.get("zip")).unwrap(), &s("75000"));
}

#[test]
fn replace_array_element() {
    let schema: Schema = array(number().into()).into();
    let instance = make_arr(vec![i(1), i(2), i(3)]);
    let result = schema.replace(&NoHooks, &instance, "/1", &i(99)).unwrap();
    let a = result.as_array().unwrap();
    assert_eq!(a[0], i(1));
    assert_eq!(a[1], i(99));
    assert_eq!(a[2], i(3));
}

#[test]
fn replace_tuple_element() {
    let schema: Schema = tuple(vec![string().into(), number().into()]).into();
    let instance = make_arr(vec![s("hello"), i(10)]);
    let result = schema.replace(&NoHooks, &instance, "/0", &s("world")).unwrap();
    let a = result.as_array().unwrap();
    assert_eq!(a[0], s("world"));
    assert_eq!(a[1], i(10));
}

#[test]
fn replace_record_value() {
    let schema: Schema = record(number().into()).into();
    let instance = make_obj(&[("a", i(1)), ("b", i(2))]);
    let result = schema.replace(&NoHooks, &instance, "/a", &i(99)).unwrap();
    assert_eq!(result.get("a"), Some(&i(99)));
    assert_eq!(result.get("b"), Some(&i(2)));
}

#[test]
fn replace_instance_immutable() {
    let schema: Schema = object(vec![("x", number().into())]).into();
    let instance = make_obj(&[("x", i(1))]);
    let _result = schema.replace(&NoHooks, &instance, "/x", &i(2)).unwrap();
    let result2 = schema.replace(&NoHooks, &instance, "/x", &i(3)).unwrap();
    assert_eq!(result2.get("x"), Some(&i(3)));
    assert_eq!(instance.get("x"), Some(&i(1)));
}

#[test]
fn replace_missing_parent_intermediate() {
    let schema: Schema = object(vec![("a", object(vec![("b", number().into())]).into())]).into();
    let instance = make_obj(&[("a", make_obj(&[]))]);
    let err = schema.replace(&NoHooks, &instance, "/a/b", &i(42)).unwrap_err();
    assert_eq!(err.code, ErrorCode::MISSING_PARENT());
}

#[test]
fn replace_missing_parent_final_key() {
    let schema: Schema = object(vec![("c", number().optional().into())]).into();
    let instance = make_obj(&[]);
    let err = schema.replace(&NoHooks, &instance, "/c", &i(10)).unwrap_err();
    assert_eq!(err.code, ErrorCode::MISSING_PARENT());
    assert!(instance.get("c").is_none());
}

#[test]
fn replace_index_out_of_range() {
    let schema: Schema = array(number().into()).into();
    let instance = make_arr(vec![i(1), i(2)]);
    let err = schema.replace(&NoHooks, &instance, "/5", &i(0)).unwrap_err();
    assert_eq!(err.code, ErrorCode::INDEX_OUT_OF_RANGE());
}

#[test]
fn replace_invalid_pointer_non_numeric_index() {
    let schema: Schema = array(number().into()).into();
    let instance = make_arr(vec![i(1)]);
    let err = schema.replace(&NoHooks, &instance, "/abc", &i(0)).unwrap_err();
    assert_eq!(err.code, ErrorCode::INVALID_POINTER());
}

#[test]
fn replace_invalid_path_scalar() {
    let schema: Schema = object(vec![("x", number().into())]).into();
    let instance = make_obj(&[("x", i(1))]);
    let err = schema.replace(&NoHooks, &instance, "/x/0", &i(0)).unwrap_err();
    assert_eq!(err.code, ErrorCode::INVALID_PATH());
}

#[test]
fn replace_empty_pointer_root_ok() {
    let schema: Schema = number().into();
    let result = schema.replace(&NoHooks, &i(1), "", &i(42)).unwrap();
    assert_eq!(result, i(42));
}

#[test]
fn replace_empty_pointer_root_type_mismatch() {
    let schema: Schema = number().into();
    let err = schema.replace(&NoHooks, &i(1), "", &s("not_a_number")).unwrap_err();
    assert_eq!(err.code, ErrorCode::TYPE_MISMATCH());
}

#[test]
fn replace_refine_cross_field() {
    let host = Host {
        refines: vec![Box::new(|v| {
            let Some(obj) = v.as_object() else {
                return true;
            };
            let priority = obj.get("priority").and_then(|v| v.as_i64()).unwrap_or(0);
            let role = obj.get("role").and_then(|v| v.as_str()).unwrap_or("");
            priority < 9 || role == "system"
        })],
        lazies: Vec::new(),
    };
    let schema: Schema = object(vec![("priority", number().into()), ("role", string().into())])
        .refine(0, "priority must be < 9 unless role is system")
        .into();
    let instance = make_obj(&[("priority", i(5)), ("role", s("user"))]);
    let ok = schema.replace(&host, &instance, "/priority", &i(7)).unwrap();
    assert_eq!(ok.get("priority"), Some(&i(7)));

    let err = schema.replace(&host, &instance, "/priority", &i(10)).unwrap_err();
    assert_eq!(err.code, ErrorCode::REFINEMENT_FAILED());

    let instance2 = make_obj(&[("priority", i(10)), ("role", s("system"))]);
    assert!(schema.replace(&host, &instance2, "/priority", &i(10)).is_ok());
}

#[test]
fn replace_default_applied_after_replace() {
    let schema: Schema =
        object(vec![("name", string().into()), ("count", number().default(i(0)).into())]).into();
    let instance = make_obj(&[("name", s("Alice"))]);
    let result = schema.replace(&NoHooks, &instance, "/name", &s("Bob")).unwrap();
    assert_eq!(result.get("name"), Some(&s("Bob")));
    assert_eq!(result.get("count"), Some(&i(0)));
}

#[test]
fn replace_strict_mode_enforced_after_replace() {
    let schema: Schema =
        object(vec![("name", string().into()), ("profile", object(vec![("city", string().into())]).into())]).into();
    let instance = make_obj(&[("name", s("Alice")), ("profile", make_obj(&[("city", s("Paris"))]))]);

    let extra_profile = make_obj(&[("city", s("Berlin")), ("extra", s("oops"))]);
    let err = schema.replace(&NoHooks, &instance, "/profile", &extra_profile).unwrap_err();
    assert_eq!(err.code, ErrorCode::UNKNOWN_PROPERTY());
    assert_eq!(err.path, vec!["profile", "extra"]);

    let good_profile = make_obj(&[("city", s("Berlin"))]);
    let ok = schema.replace(&NoHooks, &instance, "/profile", &good_profile).unwrap();
    assert_eq!(ok.get("profile").and_then(|p| p.get("city")), Some(&s("Berlin")));

    let err2 = schema.replace(&NoHooks, &instance, "/profile/city", &i(42)).unwrap_err();
    assert_eq!(err2.code, ErrorCode::TYPE_MISMATCH());
    assert_eq!(err2.path, vec!["profile", "city"]);
}

#[test]
fn parse_delta_follows_long_lazy_chain() {
    let mut lazies: Vec<Schema> = Vec::new();
    for k in 0..150u64 {
        lazies.push(lazy(k + 1).into());
    }
    lazies.push(object(vec![("a", string().into())]).into());
    let host = Host { refines: Vec::new(), lazies };
    let schema: Schema = lazy(0).into();
    let err = schema.parse_delta(&host, "/missing", &s("x")).unwrap_err();
    assert_eq!(err.code, ErrorCode::UNKNOWN_PROPERTY());
    assert_eq!(err.path, vec!["missing"]);
    assert_eq!(schema.parse_delta(&host, "/a", &s("x")).unwrap(), s("x"));
}
