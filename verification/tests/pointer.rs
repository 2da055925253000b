use zerx::pointer::{parse_index, parse_pointer};
use zerx::ErrorCode;

#[test]
fn pointer_root() {
    assert_eq!(parse_pointer("").unwrap(), Vec::<String>::new());
}

#[test]
fn pointer_single_segment() {
    assert_eq!(parse_pointer("/a").unwrap(), vec!["a"]);
}

#[test]
fn pointer_multi_segment() {
    assert_eq!(parse_pointer("/a/b/0").unwrap(), vec!["a", "b", "0"]);
}

#[test]
fn pointer_slash_alone() {
    assert_eq!(parse_pointer("/").unwrap(), vec![""]);
}

#[test]
fn pointer_trailing_slash() {
    assert_eq!(parse_pointer("/a/").unwrap(), vec!["a", ""]);
}

#[test]
fn pointer_unescape_slash() {
    assert_eq!(parse_pointer("/a~1b").unwrap(), vec!["a/b"]);
}

#[test]
fn pointer_unescape_tilde() {
    assert_eq!(parse_pointer("/m~0n").unwrap(), vec!["m~n"]);
}

#[test]
fn pointer_unescape_order() {
    assert_eq!(parse_pointer("/~01").unwrap(), vec!["~1"]);
}

#[test]
fn pointer_no_leading_slash() {
    let err = parse_pointer("a/b").unwrap_err();
    assert_eq!(err.code, ErrorCode::INVALID_POINTER());
    assert_eq!(err.message, "JSON Pointer must be empty or start with '/'; got \"a/b\"");
}

#[test]
fn pointer_double_slash_and_mixed_escapes() {
    assert_eq!(parse_pointer("//x~0~1y~").unwrap(), vec!["", "x~/y~"]);
}

#[test]
fn index_plain_digits() {
    assert_eq!(parse_index("42", &vec![]).unwrap(), 42);
    assert_eq!(parse_index("007", &vec![]).unwrap(), 7);
}

#[test]
fn index_rejects_sign_and_empty() {
    let consumed = vec!["items".to_string()];
    let e = parse_index("-1", &consumed).unwrap_err();
    assert_eq!(e.code, ErrorCode::INVALID_POINTER());
    assert_eq!(e.path, vec!["items"]);
    assert!(parse_index("", &consumed).is_err());
    assert!(parse_index("+1", &consumed).is_err());
    assert!(parse_index(" 1", &consumed).is_err());
}

#[test]
fn index_out_of_range() {
    let e = parse_index("99999999999999999999999999", &vec![]).unwrap_err();
    assert_eq!(e.code, ErrorCode::INVALID_POINTER());
    assert!(e.message.starts_with("array/tuple index is out of representable range"));
}

#[test]
fn pointer_round_trip_of_escaped_tokens() {
    let cases: Vec<Vec<&str>> = vec![
        vec![""],
        vec!["a", ""],
        vec!["a", "b", "0"],
        vec!["a/b"],
        vec!["m~n"],
        vec!["~1", "/~0/", "", "x~"],
    ];
    for segs in cases {
        let p: String = segs.iter().map(|s| format!("/{}", s.replace('~', "~0").replace('/', "~1"))).collect();
        let expected: Vec<String> = segs.iter().map(|s| s.to_string()).collect();
        assert_eq!(parse_pointer(&p).unwrap(), expected, "pointer {}", p);
    }
}
