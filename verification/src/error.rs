use vstd::prelude::*;
use crate::text::{owned, concat, concat3, usize_to_string, join_strings, decimal, join};

verus! {

/// Stable machine-readable error code, a lowercase snake-case word.
#[derive(Debug, PartialEq, Eq)]
pub struct ErrorCode {
    text: String,
}

impl View for ErrorCode {
    type V = Seq<char>;

    closed spec fn view(&self) -> Seq<char> {
        self.text@
    }
}

impl Clone for ErrorCode {
    fn clone(&self) -> (r: Self)
        ensures
            r@ == self@,
    {
        ErrorCode { text: self.text.clone() }
    }
}

impl ErrorCode {
    /// Builds the code whose text is `s`.
    pub fn new(s: &str) -> (r: ErrorCode)
        ensures
            r@ == s@,
    {
        ErrorCode { text: owned(s) }
    }

    /// Builds the code whose text is the owned string `s`.
    pub fn from_string(s: String) -> (r: ErrorCode)
        ensures
            r@ == s@,
    {
        ErrorCode { text: s }
    }

    /// The code's text.
    pub fn as_str(&self) -> (r: &str)
        ensures
            r@ == self@,
    {
        self.text.as_str()
    }

    /// Whether two codes have the same text.
    pub fn same(&self, other: &ErrorCode) -> (r: bool)
        ensures
            r == (self@ == other@),
    {
        self.text == other.text
    }
}

/// The mathematical content of a [`ZerxError`].
pub struct ErrorView {
    pub path: Seq<Seq<char>>,
    pub code: Seq<char>,
    pub message: Seq<char>,
    pub received: Option<Seq<char>>,
    pub expected: Option<Seq<char>>,
    pub inner: Seq<ErrorView>,
}

/// Structured, serialisable validation error returned by every fallible operation.
#[derive(Debug)]
pub struct ZerxError {
    pub path: Vec<String>,
    pub code: ErrorCode,
    pub message: String,
    pub received: Option<String>,
    pub expected: Option<String>,
    pub inner_errors: Vec<ZerxError>,
}

pub open spec fn opt_view(o: Option<String>) -> Option<Seq<char>> {
    match o {
        Some(s) => Some(s@),
        None => None,
    }
}

pub open spec fn strings_view(v: Seq<String>) -> Seq<Seq<char>> {
    v.map_values(|s: String| s@)
}

pub open spec fn empty_error_view() -> ErrorView {
    ErrorView {
        path: Seq::empty(),
        code: Seq::empty(),
        message: Seq::empty(),
        received: None,
        expected: None,
        inner: Seq::empty(),
    }
}

pub open spec fn error_view(e: ZerxError) -> ErrorView
    decreases e,
{
    ErrorView {
        path: strings_view(e.path@),
        code: e.code@,
        message: e.message@,
        received: opt_view(e.received),
        expected: opt_view(e.expected),
        inner: Seq::new(
            e.inner_errors@.len(),
            |i: int|
                if 0 <= i < e.inner_errors@.len() {
                    error_view(e.inner_errors@[i])
                } else {
                    empty_error_view()
                },
        ),
    }
}


/// The catalogue of codes raised by this library.
#[allow(non_snake_case)]
impl ErrorCode {
    pub fn UNKNOWN_ERROR() -> (r: ErrorCode)
        ensures
            r@ == "unknown_error"@,
    {
        ErrorCode::new("unknown_error")
    }

    pub fn TYPE_MISMATCH() -> (r: ErrorCode)
        ensures
            r@ == "type_mismatch"@,
    {
        ErrorCode::new("type_mismatch")
    }

    pub fn UNION_MISMATCH() -> (r: ErrorCode)
        ensures
            r@ == "union_mismatch"@,
    {
        ErrorCode::new("union_mismatch")
    }

    pub fn SERIALIZATION_FAILED() -> (r: ErrorCode)
        ensures
            r@ == "serialization_failed"@,
    {
        ErrorCode::new("serialization_failed")
    }

    pub fn PARSE_DEPTH_EXCEEDED() -> (r: ErrorCode)
        ensures
            r@ == "parse_depth_exceeded"@,
    {
        ErrorCode::new("parse_depth_exceeded")
    }

    pub fn REQUIRED() -> (r: ErrorCode)
        ensures
            r@ == "required"@,
    {
        ErrorCode::new("required")
    }

    pub fn REFINEMENT_FAILED() -> (r: ErrorCode)
        ensures
            r@ == "refinement_failed"@,
    {
        ErrorCode::new("refinement_failed")
    }

    pub fn LAZY_REENTRANCE() -> (r: ErrorCode)
        ensures
            r@ == "lazy_reentrance"@,
    {
        ErrorCode::new("lazy_reentrance")
    }

    pub fn STRING_TOO_SHORT() -> (r: ErrorCode)
        ensures
            r@ == "string_too_short"@,
    {
        ErrorCode::new("string_too_short")
    }

    pub fn STRING_TOO_LONG() -> (r: ErrorCode)
        ensures
            r@ == "string_too_long"@,
    {
        ErrorCode::new("string_too_long")
    }

    pub fn PATTERN_MISMATCH() -> (r: ErrorCode)
        ensures
            r@ == "pattern_mismatch"@,
    {
        ErrorCode::new("pattern_mismatch")
    }

    pub fn PATTERN_INVALID() -> (r: ErrorCode)
        ensures
            r@ == "pattern_invalid"@,
    {
        ErrorCode::new("pattern_invalid")
    }

    pub fn INVALID_EMAIL() -> (r: ErrorCode)
        ensures
            r@ == "invalid_email"@,
    {
        ErrorCode::new("invalid_email")
    }

    pub fn INVALID_UUID() -> (r: ErrorCode)
        ensures
            r@ == "invalid_uuid"@,
    {
        ErrorCode::new("invalid_uuid")
    }

    pub fn NUMBER_TOO_SMALL() -> (r: ErrorCode)
        ensures
            r@ == "number_too_small"@,
    {
        ErrorCode::new("number_too_small")
    }

    pub fn NUMBER_TOO_LARGE() -> (r: ErrorCode)
        ensures
            r@ == "number_too_large"@,
    {
        ErrorCode::new("number_too_large")
    }

    pub fn NOT_INTEGER() -> (r: ErrorCode)
        ensures
            r@ == "not_integer"@,
    {
        ErrorCode::new("not_integer")
    }

    pub fn INVALID_ENUM_VALUE() -> (r: ErrorCode)
        ensures
            r@ == "invalid_enum_value"@,
    {
        ErrorCode::new("invalid_enum_value")
    }

    pub fn UNKNOWN_PROPERTY() -> (r: ErrorCode)
        ensures
            r@ == "unknown_property"@,
    {
        ErrorCode::new("unknown_property")
    }

    pub fn ARRAY_TOO_SHORT() -> (r: ErrorCode)
        ensures
            r@ == "array_too_short"@,
    {
        ErrorCode::new("array_too_short")
    }

    pub fn ARRAY_TOO_LONG() -> (r: ErrorCode)
        ensures
            r@ == "array_too_long"@,
    {
        ErrorCode::new("array_too_long")
    }

    pub fn TUPLE_LENGTH_MISMATCH() -> (r: ErrorCode)
        ensures
            r@ == "tuple_length_mismatch"@,
    {
        ErrorCode::new("tuple_length_mismatch")
    }

    pub fn INVALID_LITERAL() -> (r: ErrorCode)
        ensures
            r@ == "invalid_literal"@,
    {
        ErrorCode::new("invalid_literal")
    }

    pub fn INVALID_DISCRIMINANT() -> (r: ErrorCode)
        ensures
            r@ == "invalid_discriminant"@,
    {
        ErrorCode::new("invalid_discriminant")
    }

    pub fn INVALID_DISCRIMINATED_UNION() -> (r: ErrorCode)
        ensures
            r@ == "invalid_discriminated_union"@,
    {
        ErrorCode::new("invalid_discriminated_union")
    }

    pub fn INVALID_URI() -> (r: ErrorCode)
        ensures
            r@ == "invalid_uri"@,
    {
        ErrorCode::new("invalid_uri")
    }

    pub fn INVALID_URL() -> (r: ErrorCode)
        ensures
            r@ == "invalid_url"@,
    {
        ErrorCode::new("invalid_url")
    }

    pub fn INVALID_POINTER() -> (r: ErrorCode)
        ensures
            r@ == "invalid_pointer"@,
    {
        ErrorCode::new("invalid_pointer")
    }

    pub fn INVALID_PATH() -> (r: ErrorCode)
        ensures
            r@ == "invalid_path"@,
    {
        ErrorCode::new("invalid_path")
    }

    pub fn INDEX_OUT_OF_RANGE() -> (r: ErrorCode)
        ensures
            r@ == "index_out_of_range"@,
    {
        ErrorCode::new("index_out_of_range")
    }

    pub fn UNION_PATH_REQUIRES_INSTANCE() -> (r: ErrorCode)
        ensures
            r@ == "union_path_requires_instance"@,
    {
        ErrorCode::new("union_path_requires_instance")
    }

    pub fn MISSING_PARENT() -> (r: ErrorCode)
        ensures
            r@ == "missing_parent"@,
    {
        ErrorCode::new("missing_parent")
    }

    pub fn LUA_INVALID_KEY() -> (r: ErrorCode)
        ensures
            r@ == "lua_invalid_key"@,
    {
        ErrorCode::new("lua_invalid_key")
    }

    pub fn LUA_SHAPE_MISMATCH() -> (r: ErrorCode)
        ensures
            r@ == "lua_shape_mismatch"@,
    {
        ErrorCode::new("lua_shape_mismatch")
    }

    pub fn POLICY_UNKNOWN() -> (r: ErrorCode)
        ensures
            r@ == "policy_unknown"@,
    {
        ErrorCode::new("policy_unknown")
    }

    pub fn IMPORT_MALFORMED() -> (r: ErrorCode)
        ensures
            r@ == "import_malformed"@,
    {
        ErrorCode::new("import_malformed")
    }

    pub fn LAZY_UNRESOLVED() -> (r: ErrorCode)
        ensures
            r@ == "lazy_unresolved"@,
    {
        ErrorCode::new("lazy_unresolved")
    }

}

pub open spec fn errors_view(v: Seq<ZerxError>) -> Seq<ErrorView> {
    Seq::new(v.len(), |i: int| error_view(v[i]))
}

pub proof fn lemma_error_view(e: ZerxError)
    ensures
        error_view(e) == (ErrorView {
            path: strings_view(e.path@),
            code: e.code@,
            message: e.message@,
            received: opt_view(e.received),
            expected: opt_view(e.expected),
            inner: errors_view(e.inner_errors@),
        }),
{
    let ev = error_view(e);
    assert(ev.inner =~= errors_view(e.inner_errors@));
}

/// A fresh error: empty path, no descriptors, no inner errors.
pub open spec fn ev_new(code: Seq<char>, message: Seq<char>) -> ErrorView {
    ErrorView {
        path: Seq::empty(),
        code,
        message,
        received: None,
        expected: None,
        inner: Seq::empty(),
    }
}

pub open spec fn ev_at(e: ErrorView, path: Seq<Seq<char>>) -> ErrorView {
    ErrorView { path, ..e }
}

pub open spec fn ev_received(e: ErrorView, r: Seq<char>) -> ErrorView {
    ErrorView { received: Some(r), ..e }
}

pub open spec fn ev_expected(e: ErrorView, x: Seq<char>) -> ErrorView {
    ErrorView { expected: Some(x), ..e }
}

pub open spec fn ev_with_inner(e: ErrorView, inner: Seq<ErrorView>) -> ErrorView {
    ErrorView { inner, ..e }
}

/// `e` with `seg` put in front of its path.
pub open spec fn ev_prefix(e: ErrorView, seg: Seq<char>) -> ErrorView {
    ErrorView { path: e.path.insert(0, seg), ..e }
}

/// The aggregate error for a union none of whose variants matched.
pub open spec fn ev_union(path: Seq<Seq<char>>, inner: Seq<ErrorView>) -> ErrorView {
    ErrorView {
        path,
        code: "union_mismatch"@,
        message: "no union variant matched ("@ + decimal(inner.len()) + " alternatives)"@,
        received: None,
        expected: Some("one of the union variants"@),
        inner,
    }
}

/// The one-line human-readable rendering of an error.
pub open spec fn ev_display(e: ErrorView) -> Seq<char> {
    if e.path.len() == 0 {
        "(root): "@ + e.message
    } else {
        join(e.path, "/"@) + ": "@ + e.message
    }
}

impl ZerxError {
    /// Minimal constructor: empty path, no descriptors, no inner errors.
    pub fn new(code: ErrorCode, message: String) -> (r: ZerxError)
        ensures
            error_view(r) == ev_new(code@, message@),
    {
        let r = ZerxError {
            path: Vec::new(),
            code,
            message,
            received: None,
            expected: None,
            inner_errors: Vec::new(),
        };
        proof {
            lemma_error_view(r);
            assert(strings_view(r.path@) =~= Seq::empty());
            assert(errors_view(r.inner_errors@) =~= Seq::empty());
        }
        r
    }

    /// Sets the path segments.
    pub fn at(self, path: Vec<String>) -> (r: ZerxError)
        ensures
            error_view(r) == ev_at(error_view(self), strings_view(path@)),
    {
        proof {
            lemma_error_view(self);
        }
        let r = ZerxError { path, ..self };
        proof {
            lemma_error_view(r);
        }
        r
    }

    /// Sets the `received` descriptor.
    pub fn received(self, received: String) -> (r: ZerxError)
        ensures
            error_view(r) == ev_received(error_view(self), received@),
    {
        proof {
            lemma_error_view(self);
        }
        let r = ZerxError { received: Some(received), ..self };
        proof {
            lemma_error_view(r);
        }
        r
    }

    /// Sets the `expected` descriptor.
    pub fn expected(self, expected: String) -> (r: ZerxError)
        ensures
            error_view(r) == ev_expected(error_view(self), expected@),
    {
        proof {
            lemma_error_view(self);
        }
        let r = ZerxError { expected: Some(expected), ..self };
        proof {
            lemma_error_view(r);
        }
        r
    }

    /// Attaches nested / per-variant errors.
    pub fn with_inner(self, inner: Vec<ZerxError>) -> (r: ZerxError)
        ensures
            error_view(r) == ev_with_inner(error_view(self), errors_view(inner@)),
    {
        proof {
            lemma_error_view(self);
        }
        let r = ZerxError { inner_errors: inner, ..self };
        proof {
            lemma_error_view(r);
        }
        r
    }

    /// Aggregates per-variant errors into a single `union_mismatch` error.
    pub fn union(path: Vec<String>, inner: Vec<ZerxError>) -> (r: ZerxError)
        ensures
            error_view(r) == ev_union(strings_view(path@), errors_view(inner@)),
    {
        let n = usize_to_string(inner.len());
        let message = concat3("no union variant matched (", n.as_str(), " alternatives)");
        let r = ZerxError {
            path,
            code: ErrorCode::UNION_MISMATCH(),
            message,
            received: None,
            expected: Some(owned("one of the union variants")),
            inner_errors: inner,
        };
        proof {
            lemma_error_view(r);
        }
        r
    }

    /// Puts `segment` in front of the path.
    pub fn prefixed(self, segment: String) -> (r: ZerxError)
        ensures
            error_view(r) == ev_prefix(error_view(self), segment@),
    {
        proof {
            lemma_error_view(self);
        }
        let mut r = self;
        r.path.insert(0, segment);
        proof {
            lemma_error_view(r);
            assert(strings_view(r.path@) =~= strings_view(self.path@).insert(0, segment@));
        }
        r
    }

    /// Human-readable rendering: `(root): <message>`, or the path joined by `/`, `: `,
    /// then the message.
    pub fn to_display_string(&self) -> (r: String)
        ensures
            r@ == ev_display(error_view(*self)),
    {
        proof {
            lemma_error_view(*self);
        }
        if self.path.len() == 0 {
            concat("(root): ", self.message.as_str())
        } else {
            let p = join_strings(&self.path, "/");
            concat3(p.as_str(), ": ", self.message.as_str())
        }
    }
}

} // verus!
