use zerx::{Float, ObjectMap, ZerxValue};

fn fl(x: f64) -> Float {
    Float { bits: x.to_bits(), text: x.to_string() }
}

#[test]
fn accessors() {
    assert!(ZerxValue::Null.is_null());
    assert!(!ZerxValue::Bool(true).is_null());

    assert_eq!(ZerxValue::Bool(true).as_bool(), Some(true));
    assert_eq!(ZerxValue::I64(1).as_bool(), None);

    assert_eq!(ZerxValue::I64(-1).as_i64(), Some(-1));
    assert_eq!(ZerxValue::U64(1).as_i64(), None);

    assert_eq!(ZerxValue::U64(5).as_u64(), Some(5));
    assert_eq!(ZerxValue::I64(5).as_u64(), None);

    assert_eq!(ZerxValue::F64(fl(1.5)).as_float().map(|f| f64::from_bits(f.bits)), Some(1.5));
    assert_eq!(ZerxValue::I64(1).as_float(), None);

    assert_eq!(ZerxValue::String("s".into()).as_str(), Some("s"));
    assert_eq!(ZerxValue::I64(1).as_str(), None);

    assert_eq!(ZerxValue::Bytes(vec![0]).as_bytes(), Some([0u8].as_slice()));
    assert_eq!(ZerxValue::I64(1).as_bytes(), None);

    let arr = ZerxValue::Array(vec![ZerxValue::Null]);
    assert!(arr.as_array().is_some());
    assert_eq!(ZerxValue::Null.as_array(), None);

    let mut m = ObjectMap::new();
    m.insert("k".to_string(), ZerxValue::Bool(true));
    let obj = ZerxValue::Object(m);
    assert!(obj.as_object().is_some());
    assert_eq!(ZerxValue::Null.as_object(), None);

    assert_eq!(obj.get("k"), Some(&ZerxValue::Bool(true)));
    assert_eq!(obj.get("x"), None);
    assert_eq!(ZerxValue::Null.get("k"), None);

    let arr2 = ZerxValue::Array(vec![ZerxValue::I64(10), ZerxValue::I64(20)]);
    assert_eq!(arr2.get_index(0), Some(&ZerxValue::I64(10)));
    assert_eq!(arr2.get_index(5), None);
    assert_eq!(ZerxValue::Null.get_index(0), None);
}

#[test]
fn map_semantics() {
    let mut m = ObjectMap::new();
    m.insert("x".to_string(), ZerxValue::I64(1));
    m.insert("y".to_string(), ZerxValue::I64(2));
    m.insert("x".to_string(), ZerxValue::I64(99));
    assert_eq!(m.len(), 2);
    assert_eq!(m.get("x"), Some(&ZerxValue::I64(99)));
    let keys: Vec<&str> = m.iter().iter().map(|(k, _)| k.as_str()).collect();
    assert_eq!(keys, vec!["x", "y"]);
    assert_eq!(m.get("absent"), None);
}

#[test]
fn map_insert_then_get_gives_the_value() {
    let mut m = ObjectMap::new();
    m.insert("a".to_string(), ZerxValue::Bool(false));
    m.insert("b".to_string(), ZerxValue::Null);
    assert_eq!(m.get("a"), Some(&ZerxValue::Bool(false)));
    assert_eq!(m.get("b"), Some(&ZerxValue::Null));
    m.insert("a".to_string(), ZerxValue::U64(7));
    assert_eq!(m.get("a"), Some(&ZerxValue::U64(7)));
    assert_eq!(m.get("b"), Some(&ZerxValue::Null));
    assert!(!m.is_empty());
    assert!(ObjectMap::new().is_empty());
}

#[test]
fn map_from_entries_keeps_first_position_last_value() {
    let m = ObjectMap::from_entries(vec![
        ("p".to_string(), ZerxValue::I64(1)),
        ("q".to_string(), ZerxValue::I64(2)),
        ("p".to_string(), ZerxValue::I64(3)),
    ]);
    assert_eq!(m.len(), 2);
    assert_eq!(m.get("p"), Some(&ZerxValue::I64(3)));
    assert_eq!(m.position("q"), Some(1));
    assert_eq!(m.position("z"), None);
}

#[test]
fn wide_integer_accessors() {
    assert_eq!(ZerxValue::I128(-5).as_i128(), Some(-5));
    assert_eq!(ZerxValue::I64(-5).as_i128(), None);
    assert_eq!(ZerxValue::U128(u128::MAX).as_u128(), Some(u128::MAX));
    assert_eq!(ZerxValue::U64(1).as_u128(), None);
}

#[test]
fn conversions_into_values() {
    assert_eq!(ZerxValue::from(true), ZerxValue::Bool(true));
    assert_eq!(ZerxValue::from(-3i64), ZerxValue::I64(-3));
    assert_eq!(ZerxValue::from(3u64), ZerxValue::U64(3));
    assert_eq!(ZerxValue::from(-3i128), ZerxValue::I128(-3));
    assert_eq!(ZerxValue::from(3u128), ZerxValue::U128(3));
    assert_eq!(ZerxValue::from("hi".to_string()), ZerxValue::String("hi".to_string()));
    assert_eq!(ZerxValue::from(fl(2.5)), ZerxValue::F64(fl(2.5)));
}

#[test]
fn deep_clone_is_equal() {
    let mut m = ObjectMap::new();
    m.insert("k".to_string(), ZerxValue::Array(vec![ZerxValue::Bytes(vec![1, 2]), ZerxValue::F64(fl(0.5))]));
    let v = ZerxValue::Object(m);
    assert_eq!(v.deep_clone(), v);
}
