//! Validation: parsing a value against a schema.
use vstd::prelude::*;
use crate::error::{ZerxError, ErrorCode, ErrorView, error_view, errors_view, strings_view, ev_new, ev_expected, ev_received, ev_prefix, ev_union};
use crate::value::{ZerxValue, Val, ObjectMap, lemma_array_view, lemma_object_view, values_view, entries_view, map_get, map_insert};
use crate::schema::{
    Schema, SchemaKind, Validator, ObjectBody, ObjectMode, DiscriminantKey, DiscriminatorState,
    DiscriminatedUnionBody, Refinement, Hooks, ParseContext, MAX_PARSE_DEPTH,
};
use crate::semantics::{
    sem_present, sem_body, sem_inner, sem_object, sem_field, sem_discriminated, array_upto, tuple_upto,
    record_upto, union_upto, fields_upto, field_input, unknown_upto, is_unknown, passthrough_upto,
    unknown_property, tuple_length_error, prestrip, flagged_keys, shape_has, DKey, dkey_view, dkey_of,
    dkey_lookup, type_tag, literal_descriptor, val_eq, mismatch, strs, lemma_strs_push, check_kind, numeric_bits, check_validator,
    validators_upto, refine_upto, refine_all, depth_exceeded, fuel,
};
use crate::text::{owned, concat, concat3, usize_to_string, u128_to_string, i128_to_string, join_strings, decimal};
use crate::float;
use crate::checks::{is_valid_email, is_valid_uuid, is_valid_uri, is_valid_url, regex_match};

verus! {

impl ParseContext {
    /// A context at depth zero.
    pub fn new() -> (r: ParseContext)
        ensures
            r.depth == 0,
    {
        ParseContext { depth: 0 }
    }

    /// Enters one nesting level, or fails with `parse_depth_exceeded` (leaving the depth
    /// unchanged) when that would exceed [`MAX_PARSE_DEPTH`].
    pub fn enter(&mut self) -> (r: Result<(), ZerxError>)
        ensures
            old(self).depth + 1 > MAX_PARSE_DEPTH ==> final(self).depth == old(self).depth
                && (r matches Err(e) && error_view(e) == depth_exceeded()),
            old(self).depth + 1 <= MAX_PARSE_DEPTH ==> final(self).depth == old(self).depth + 1
                && r is Ok,
    {
        if self.depth >= MAX_PARSE_DEPTH {
            Err(ZerxError::new(ErrorCode::PARSE_DEPTH_EXCEEDED(), owned("parse depth exceeded maximum of 100")))
        } else {
            self.depth = self.depth + 1;
            Ok(())
        }
    }

    /// Leaves one nesting level.
    pub fn exit(&mut self)
        requires
            old(self).depth > 0,
        ensures
            final(self).depth == old(self).depth - 1,
    {
        self.depth = self.depth - 1;
    }
}

/// The compact type tag of a value.
pub fn type_tag_of(v: &ZerxValue) -> (r: &'static str)
    ensures
        r@ == type_tag(v@),
{
    match v {
        ZerxValue::Null => "null",
        ZerxValue::Bool(_) => "boolean",
        ZerxValue::I64(_) | ZerxValue::U64(_) | ZerxValue::I128(_) | ZerxValue::U128(_)
        | ZerxValue::F64(_) => "number",
        ZerxValue::String(_) => "string",
        ZerxValue::Bytes(_) => "bytes",
        ZerxValue::Array(_) => "array",
        ZerxValue::Object(_) => "object",
    }
}

/// How a literal constant is shown in `expected`.
pub fn literal_descriptor_of(v: &ZerxValue) -> (r: String)
    ensures
        r@ == literal_descriptor(v@),
{
    match v {
        ZerxValue::Bool(b) => if *b { owned("true") } else { owned("false") },
        ZerxValue::String(s) => concat3("\"", s.as_str(), "\""),
        ZerxValue::I64(n) => i128_to_string(*n as i128),
        ZerxValue::U64(n) => u128_to_string(*n as u128),
        ZerxValue::I128(n) => i128_to_string(*n),
        ZerxValue::U128(n) => u128_to_string(*n),
        ZerxValue::F64(f) => f.text.clone(),
        _ => owned(type_tag_of(v)),
    }
}

fn bytes_equal(a: &Vec<u8>, b: &Vec<u8>) -> (r: bool)
    ensures
        r == (a@ == b@),
{
    if a.len() != b.len() {
        return false;
    }
    let mut i: usize = 0;
    while i < a.len()
        invariant
            i <= a@.len(),
            a@.len() == b@.len(),
            forall|j: int| 0 <= j < i ==> a@[j] == b@[j],
        decreases a.len() - i,
    {
        if a[i] != b[i] {
            return false;
        }
        i += 1;
    }
    assert(a@ =~= b@);
    true
}

/// Structural equality with floating-point equality on floats.
pub fn values_equal(a: &ZerxValue, b: &ZerxValue) -> (r: bool)
    ensures
        r == val_eq(a@, b@),
    decreases a,
{
    match (a, b) {
        (ZerxValue::Null, ZerxValue::Null) => true,
        (ZerxValue::Bool(x), ZerxValue::Bool(y)) => *x == *y,
        (ZerxValue::I64(x), ZerxValue::I64(y)) => *x == *y,
        (ZerxValue::U64(x), ZerxValue::U64(y)) => *x == *y,
        (ZerxValue::I128(x), ZerxValue::I128(y)) => *x == *y,
        (ZerxValue::U128(x), ZerxValue::U128(y)) => *x == *y,
        (ZerxValue::F64(x), ZerxValue::F64(y)) => float::eq(x.bits, y.bits),
        (ZerxValue::String(x), ZerxValue::String(y)) => *x == *y,
        (ZerxValue::Bytes(x), ZerxValue::Bytes(y)) => bytes_equal(x, y),
        (ZerxValue::Array(x), ZerxValue::Array(y)) => {
            proof {
                lemma_array_view(*x);
                lemma_array_view(*y);
            }
            if x.len() != y.len() {
                return false;
            }
            let mut i: usize = 0;
            while i < x.len()
                invariant
                    i <= x@.len(),
                    x@.len() == y@.len(),
                    a@ == Val::Arr(values_view(x@)),
                    b@ == Val::Arr(values_view(y@)),
                    *a == ZerxValue::Array(*x),
                    forall|j: int| 0 <= j < i ==> val_eq(values_view(x@)[j], values_view(y@)[j]),
                decreases x.len() - i,
            {
                assert(decreases_to!(*a => x@[i as int]));
                if !values_equal(&x[i], &y[i]) {
                    assert(!val_eq(values_view(x@)[i as int], values_view(y@)[i as int]));
                    return false;
                }
                i += 1;
            }
            true
        },
        (ZerxValue::Object(x), ZerxValue::Object(y)) => {
            proof {
                lemma_object_view(*x);
                lemma_object_view(*y);
            }
            if x.entries.len() != y.entries.len() {
                return false;
            }
            let mut i: usize = 0;
            while i < x.entries.len()
                invariant
                    i <= x.entries@.len(),
                    x.entries@.len() == y.entries@.len(),
                    a@ == Val::Obj(entries_view(x.entries@)),
                    b@ == Val::Obj(entries_view(y.entries@)),
                    *a == ZerxValue::Object(*x),
                    forall|j: int| 0 <= j < i ==> (#[trigger] entries_view(x.entries@)[j]).0 == entries_view(y.entries@)[j].0
                        && val_eq(entries_view(x.entries@)[j].1, entries_view(y.entries@)[j].1),
                decreases x.entries.len() - i,
            {
                assert(decreases_to!(*a => x.entries@[i as int].1));
                if x.entries[i].0 != y.entries[i].0 {
                    assert(entries_view(x.entries@)[i as int].0 != entries_view(y.entries@)[i as int].0);
                    return false;
                }
                if !values_equal(&x.entries[i].1, &y.entries[i].1) {
                    assert(!val_eq(entries_view(x.entries@)[i as int].1, entries_view(y.entries@)[i as int].1));
                    return false;
                }
                i += 1;
            }
            true
        },
        _ => false,
    }
}


/// Whether an exec outcome carries exactly the spec outcome.
pub open spec fn unit_result_is(r: Result<(), ZerxError>, s: Result<(), ErrorView>) -> bool {
    match (r, s) {
        (Ok(_), Ok(_)) => true,
        (Err(e), Err(ev)) => error_view(e) == ev,
        _ => false,
    }
}

/// Whether an exec parse outcome carries exactly the spec outcome.
pub open spec fn value_result_is(r: Result<ZerxValue, ZerxError>, s: Result<Val, ErrorView>) -> bool {
    match (r, s) {
        (Ok(v), Ok(w)) => v@ == w,
        (Err(e), Err(ev)) => error_view(e) == ev,
        _ => false,
    }
}

fn mismatch_error(message: &str, expected: &str, v: &ZerxValue) -> (r: ZerxError)
    ensures
        error_view(r) == mismatch(message@, expected@, v@),
{
    ZerxError::new(ErrorCode::TYPE_MISMATCH(), owned(message))
        .expected(owned(expected))
        .received(owned(type_tag_of(v)))
}

pub(crate) fn strings_contain(set: &Vec<String>, s: &String) -> (r: bool)
    ensures
        r == strs(set@).contains(s@),
{
    let mut i: usize = 0;
    while i < set.len()
        invariant
            i <= set@.len(),
            forall|j: int| 0 <= j < i ==> set@[j]@ != s@,
        decreases set.len() - i,
    {
        if set[i] == *s {
            assert(strs(set@)[i as int] == s@);
            return true;
        }
        i += 1;
    }
    assert forall|j: int| 0 <= j < strs(set@).len() implies strs(set@)[j] != s@ by {
        assert(strs(set@)[j] == set@[j]@);
    }
    false
}

/// The type check of a schema kind.
pub fn check_type(kind: &SchemaKind, v: &ZerxValue) -> (r: Result<(), ZerxError>)
    ensures
        unit_result_is(r, check_kind(*kind, v@)),
{
    match kind {
        SchemaKind::Any | SchemaKind::Lazy(_) | SchemaKind::Union(_) | SchemaKind::Json
        | SchemaKind::JsonSchema => Ok(()),
        SchemaKind::String => match v {
            ZerxValue::String(_) => Ok(()),
            _ => Err(mismatch_error("expected string", "string", v)),
        },
        SchemaKind::Number => match v {
            ZerxValue::I64(_) | ZerxValue::U64(_) | ZerxValue::I128(_) | ZerxValue::U128(_) => Ok(()),
            ZerxValue::F64(f) => if float::is_finite(f.bits) {
                Ok(())
            } else {
                Err(mismatch_error("expected finite number", "number", v))
            },
            _ => Err(mismatch_error("expected number", "number", v)),
        },
        SchemaKind::Boolean => match v {
            ZerxValue::Bool(_) => Ok(()),
            _ => Err(mismatch_error("expected boolean", "boolean", v)),
        },
        SchemaKind::Enum(set) => match v {
            ZerxValue::String(s) => if strings_contain(set, s) {
                Ok(())
            } else {
                let allowed = join_strings(set, ", ");
                Err(ZerxError::new(ErrorCode::INVALID_ENUM_VALUE(), owned("value is not an allowed enum value"))
                    .expected(allowed)
                    .received(owned(type_tag_of(v))))
            },
            _ => Err(mismatch_error("expected string (enum)", "string (enum)", v)),
        },
        SchemaKind::Null => match v {
            ZerxValue::Null => Ok(()),
            _ => Err(mismatch_error("expected null", "null", v)),
        },
        SchemaKind::Object(_) | SchemaKind::Record(_) => match v {
            ZerxValue::Object(_) => Ok(()),
            _ => Err(mismatch_error("expected object", "object", v)),
        },
        SchemaKind::Array(_) | SchemaKind::Tuple(_) => match v {
            ZerxValue::Array(_) => Ok(()),
            _ => Err(mismatch_error("expected array", "array", v)),
        },
        SchemaKind::DiscriminatedUnion(body) => match &body.state {
            DiscriminatorState::Invalid(msg) => Err(ZerxError::new(ErrorCode::INVALID_DISCRIMINATED_UNION(), msg.clone())),
            DiscriminatorState::Valid { .. } => match v {
                ZerxValue::Object(_) => Ok(()),
                _ => Err(mismatch_error("expected object", "object", v)),
            },
        },
        SchemaKind::Literal(c) => if values_equal(v, c) {
            Ok(())
        } else {
            Err(ZerxError::new(ErrorCode::INVALID_LITERAL(), owned("value does not match literal constant"))
                .expected(literal_descriptor_of(c))
                .received(owned(type_tag_of(v))))
        },
        SchemaKind::Buffer => match v {
            ZerxValue::Bytes(_) => Ok(()),
            _ => Err(mismatch_error("expected buffer", "buffer", v)),
        },
        SchemaKind::Uri => match v {
            ZerxValue::String(s) => if is_valid_uri(s.as_str()) {
                Ok(())
            } else {
                Err(ZerxError::new(ErrorCode::INVALID_URI(), owned("string is not a valid URI")).expected(owned("uri")))
            },
            _ => Err(mismatch_error("expected uri", "uri", v)),
        },
        SchemaKind::Url => match v {
            ZerxValue::String(s) => if is_valid_url(s.as_str()) {
                Ok(())
            } else {
                Err(ZerxError::new(ErrorCode::INVALID_URL(), owned("string is not a valid URL")).expected(owned("url")))
            },
            _ => Err(mismatch_error("expected url", "url", v)),
        },
    }
}

/// A number as `f64` bits, as a numeric bound compares it.
pub fn numeric_as_bits(v: &ZerxValue) -> (r: Option<u64>)
    ensures
        r == numeric_bits(v@),
{
    match v {
        ZerxValue::I64(n) => Some(float::i128_to_f64_bits(*n as i128)),
        ZerxValue::U64(n) => Some(float::i128_to_f64_bits(*n as i128)),
        ZerxValue::I128(n) => Some(float::i128_to_f64_bits(*n)),
        ZerxValue::U128(n) => {
            let b = float::u128_to_f64_bits(*n);
            Some(b)
        },
        ZerxValue::F64(f) => Some(f.bits),
        _ => None,
    }
}

/// One validator on one value.
pub fn run_validator(vd: &Validator, v: &ZerxValue) -> (r: Result<(), ZerxError>)
    ensures
        unit_result_is(r, check_validator(*vd, v@)),
{
    match vd {
        Validator::MinLength(n) => match v {
            ZerxValue::String(s) => {
                let len = crate::text::chars_of(s.as_str()).len();
                if len < *n {
                    Err(ZerxError::new(ErrorCode::STRING_TOO_SHORT(), concat("string length is less than minimum ", usize_to_string(*n).as_str())))
                } else {
                    Ok(())
                }
            },
            _ => Ok(()),
        },
        Validator::MaxLength(n) => match v {
            ZerxValue::String(s) => {
                let len = crate::text::chars_of(s.as_str()).len();
                if len > *n {
                    Err(ZerxError::new(ErrorCode::STRING_TOO_LONG(), concat("string length exceeds maximum ", usize_to_string(*n).as_str())))
                } else {
                    Ok(())
                }
            },
            _ => Ok(()),
        },
        Validator::Pattern(p) => match v {
            ZerxValue::String(s) => match regex_match(p.as_str(), s.as_str()) {
                Err(msg) => Err(ZerxError::new(ErrorCode::PATTERN_INVALID(), concat("pattern is invalid: ", msg.as_str()))),
                Ok(false) => Err(ZerxError::new(ErrorCode::PATTERN_MISMATCH(), owned("string does not match pattern"))),
                Ok(true) => Ok(()),
            },
            _ => Ok(()),
        },
        Validator::Email => match v {
            ZerxValue::String(s) => if is_valid_email(s.as_str()) {
                Ok(())
            } else {
                Err(ZerxError::new(ErrorCode::INVALID_EMAIL(), owned("string is not a valid email address")))
            },
            _ => Ok(()),
        },
        Validator::Uuid => match v {
            ZerxValue::String(s) => if is_valid_uuid(s.as_str()) {
                Ok(())
            } else {
                Err(ZerxError::new(ErrorCode::INVALID_UUID(), owned("string is not a valid UUID")))
            },
            _ => Ok(()),
        },
        Validator::MinValue(bound) => match numeric_as_bits(v) {
            Some(x) => if float::lt(x, bound.bits) {
                Err(ZerxError::new(ErrorCode::NUMBER_TOO_SMALL(), concat("number is less than minimum ", bound.text.as_str())))
            } else {
                Ok(())
            },
            None => Ok(()),
        },
        Validator::MaxValue(bound) => match numeric_as_bits(v) {
            Some(x) => if float::lt(bound.bits, x) {
                Err(ZerxError::new(ErrorCode::NUMBER_TOO_LARGE(), concat("number exceeds maximum ", bound.text.as_str())))
            } else {
                Ok(())
            },
            None => Ok(()),
        },
        Validator::Int => match v {
            ZerxValue::F64(f) => if float::is_integral(f.bits) {
                Ok(())
            } else {
                Err(ZerxError::new(ErrorCode::NOT_INTEGER(), owned("number is not an integer")))
            },
            _ => Ok(()),
        },
        Validator::ArrayMinLength(n) => match v {
            ZerxValue::Array(a) => {
                proof {
                    lemma_array_view(*a);
                }
                if a.len() < *n {
                    let m = concat3("array length ", usize_to_string(a.len()).as_str(), " is less than minimum ");
                    Err(ZerxError::new(ErrorCode::ARRAY_TOO_SHORT(), concat(m.as_str(), usize_to_string(*n).as_str())))
                } else {
                    Ok(())
                }
            },
            _ => Ok(()),
        },
        Validator::ArrayMaxLength(n) => match v {
            ZerxValue::Array(a) => {
                proof {
                    lemma_array_view(*a);
                }
                if a.len() > *n {
                    let m = concat3("array length ", usize_to_string(a.len()).as_str(), " exceeds maximum ");
                    Err(ZerxError::new(ErrorCode::ARRAY_TOO_LONG(), concat(m.as_str(), usize_to_string(*n).as_str())))
                } else {
                    Ok(())
                }
            },
            _ => Ok(()),
        },
    }
}

/// All validators in storage order; the first failure wins.
pub fn run_validators(vs: &Vec<Validator>, v: &ZerxValue) -> (r: Result<(), ZerxError>)
    ensures
        unit_result_is(r, validators_upto(vs@, v@, vs@.len() as int)),
{
    let mut i: usize = 0;
    while i < vs.len()
        invariant
            i <= vs@.len(),
            validators_upto(vs@, v@, i as int) is Ok,
        decreases vs.len() - i,
    {
        match run_validator(&vs[i], v) {
            Ok(()) => {},
            Err(e) => {
                proof {
                    lemma_validators_err_persists(vs@, v@, (i + 1) as int, vs@.len() as int);
                }
                return Err(e);
            },
        }
        i += 1;
    }
    Ok(())
}

proof fn lemma_validators_err_persists(vs: Seq<Validator>, v: Val, i: int, n: int)
    requires
        1 <= i <= n,
        validators_upto(vs, v, i) is Err,
    ensures
        validators_upto(vs, v, n) == validators_upto(vs, v, i),
    decreases n - i,
{
    if n > i {
        lemma_validators_err_persists(vs, v, i, n - 1);
    }
}

/// The refinements of a schema on an output value; the first to reject wins.
pub fn run_refine<H: Hooks>(h: &H, s: &Schema, out: ZerxValue) -> (r: Result<ZerxValue, ZerxError>)
    ensures
        value_result_is(r, refine_all(h, *s, out@)),
{
    let rs = &s.modifiers.refine;
    let mut i: usize = 0;
    while i < rs.len()
        invariant
            i <= rs@.len(),
            rs@ == s.modifiers.refine@,
            refine_upto(h, rs@, out@, i as int) == Ok::<Val, ErrorView>(out@),
        decreases rs.len() - i,
    {
        if !h.refine(rs[i].id, &out) {
            let e = ZerxError::new(ErrorCode::REFINEMENT_FAILED(), rs[i].message.clone());
            proof {
                lemma_refine_err_persists(h, rs@, out@, (i + 1) as int, rs@.len() as int);
            }
            return Err(e);
        }
        i += 1;
    }
    Ok(out)
}

proof fn lemma_refine_err_persists<H: Hooks>(h: &H, rs: Seq<Refinement>, out: Val, i: int, n: int)
    requires
        1 <= i <= n,
        refine_upto(h, rs, out, i) is Err,
    ensures
        refine_upto(h, rs, out, n) == refine_upto(h, rs, out, i),
    decreases n - i,
{
    if n > i {
        lemma_refine_err_persists(h, rs, out, i, n - 1);
    }
}


// ---------------------------------------------------------------------------
// Fold lemmas: once a left fold fails (or, for unions, succeeds) it stays so.
// ---------------------------------------------------------------------------

proof fn lemma_array_err<H: Hooks>(h: &H, item: Schema, items: Seq<Val>, i: int, n: int, d: int)
    requires
        1 <= i <= n,
        array_upto(h, item, items, i, d) is Err,
    ensures
        array_upto(h, item, items, n, d) == array_upto(h, item, items, i, d),
    decreases n - i,
{
    if n > i {
        lemma_array_err(h, item, items, i, n - 1, d);
    }
}

proof fn lemma_tuple_err<H: Hooks>(h: &H, schemas: Seq<Schema>, items: Seq<Val>, i: int, n: int, d: int)
    requires
        1 <= i <= n,
        tuple_upto(h, schemas, items, i, d) is Err,
    ensures
        tuple_upto(h, schemas, items, n, d) == tuple_upto(h, schemas, items, i, d),
    decreases n - i,
{
    if n > i {
        lemma_tuple_err(h, schemas, items, i, n - 1, d);
    }
}

proof fn lemma_record_err<H: Hooks>(h: &H, vs: Schema, input: Seq<(Seq<char>, Val)>, i: int, n: int, d: int)
    requires
        1 <= i <= n,
        record_upto(h, vs, input, i, d) is Err,
    ensures
        record_upto(h, vs, input, n, d) == record_upto(h, vs, input, i, d),
    decreases n - i,
{
    if n > i {
        lemma_record_err(h, vs, input, i, n - 1, d);
    }
}

proof fn lemma_union_ok<H: Hooks>(h: &H, variants: Seq<Schema>, v: Val, i: int, n: int, d: int)
    requires
        1 <= i <= n,
        union_upto(h, variants, v, i, d) is Ok,
    ensures
        union_upto(h, variants, v, n, d) == union_upto(h, variants, v, i, d),
    decreases n - i,
{
    if n > i {
        lemma_union_ok(h, variants, v, i, n - 1, d);
    }
}

proof fn lemma_fields_err<H: Hooks>(h: &H, body: ObjectBody, input: Seq<(Seq<char>, Val)>, i: int, n: int, d: int)
    requires
        1 <= i <= n,
        fields_upto(h, body, input, i, d) is Err,
    ensures
        fields_upto(h, body, input, n, d) == fields_upto(h, body, input, i, d),
    decreases n - i,
{
    if n > i {
        lemma_fields_err(h, body, input, i, n - 1, d);
    }
}

proof fn lemma_unknown_found(body: ObjectBody, input: Seq<(Seq<char>, Val)>, i: int, n: int)
    requires
        1 <= i <= n,
        unknown_upto(body, input, i) is Some,
    ensures
        unknown_upto(body, input, n) == unknown_upto(body, input, i),
    decreases n - i,
{
    if n > i {
        lemma_unknown_found(body, input, i, n - 1);
    }
}

proof fn lemma_dkey_lookup_prefix(entries: Seq<(DiscriminantKey, usize)>, k: DKey, i: int, n: int)
    requires
        1 <= i <= n <= entries.len(),
        dkey_lookup(entries.take(i), k) is Some,
    ensures
        dkey_lookup(entries.take(n), k) == dkey_lookup(entries.take(i), k),
    decreases n - i,
{
    if n > i {
        lemma_dkey_lookup_prefix(entries, k, i, n - 1);
        assert(entries.take(n).drop_last() =~= entries.take(n - 1));
    }
}

// ---------------------------------------------------------------------------
// Helpers for objects and discriminated unions
// ---------------------------------------------------------------------------

/// Keys stripped from the input before validation: the explicit keys, then the
/// read-only and write-only fields when those switches are on.
pub fn effective_prestrip(body: &ObjectBody) -> (r: Vec<String>)
    ensures
        strs(r@) == prestrip(*body),
{
    let mut keys: Vec<String> = Vec::new();
    let mut i: usize = 0;
    while i < body.prestrip_keys.len()
        invariant
            i <= body.prestrip_keys@.len(),
            strs(keys@) == strs(body.prestrip_keys@.take(i as int)),
        decreases body.prestrip_keys.len() - i,
    {
        let ghost prev = keys@;
        keys.push(body.prestrip_keys[i].clone());
        proof {
            lemma_strs_push(prev, body.prestrip_keys@[i as int]);
            assert(body.prestrip_keys@.take(i + 1) =~= body.prestrip_keys@.take(i as int).push(body.prestrip_keys@[i as int]));
            lemma_strs_push(body.prestrip_keys@.take(i as int), body.prestrip_keys@[i as int]);
        }
        i += 1;
    }
    assert(body.prestrip_keys@.take(body.prestrip_keys@.len() as int) =~= body.prestrip_keys@);
    let ghost base = strs(keys@);
    if body.prestrip_read_only {
        let mut j: usize = 0;
        while j < body.shape.len()
            invariant
                j <= body.shape@.len(),
                strs(keys@) == base + flagged_keys(body.shape@.take(j as int), true),
            decreases body.shape.len() - j,
        {
            proof {
                assert(body.shape@.take(j + 1).drop_last() =~= body.shape@.take(j as int));
            }
            if body.shape[j].1.modifiers.read_only {
                let ghost prev = keys@;
                keys.push(body.shape[j].0.clone());
                proof {
                    lemma_strs_push(prev, body.shape@[j as int].0);
                    assert(strs(keys@) =~= base + flagged_keys(body.shape@.take(j + 1), true));
                }
            } else {
                proof {
                    assert(strs(keys@) =~= base + flagged_keys(body.shape@.take(j + 1), true));
                }
            }
            j += 1;
        }
        assert(body.shape@.take(body.shape@.len() as int) =~= body.shape@);
    } else {
        assert(strs(keys@) =~= base + Seq::<Seq<char>>::empty());
    }
    let ghost mid = strs(keys@);
    if body.prestrip_write_only {
        let mut j: usize = 0;
        while j < body.shape.len()
            invariant
                j <= body.shape@.len(),
                strs(keys@) == mid + flagged_keys(body.shape@.take(j as int), false),
            decreases body.shape.len() - j,
        {
            proof {
                assert(body.shape@.take(j + 1).drop_last() =~= body.shape@.take(j as int));
            }
            if body.shape[j].1.modifiers.write_only {
                let ghost prev = keys@;
                keys.push(body.shape[j].0.clone());
                proof {
                    lemma_strs_push(prev, body.shape@[j as int].0);
                    assert(strs(keys@) =~= mid + flagged_keys(body.shape@.take(j + 1), false));
                }
            } else {
                proof {
                    assert(strs(keys@) =~= mid + flagged_keys(body.shape@.take(j + 1), false));
                }
            }
            j += 1;
        }
        assert(body.shape@.take(body.shape@.len() as int) =~= body.shape@);
    } else {
        assert(strs(keys@) =~= mid + Seq::<Seq<char>>::empty());
    }
    keys
}

pub(crate) fn shape_has_key(shape: &Vec<(String, Schema)>, k: &String) -> (r: bool)
    ensures
        r == shape_has(shape@, k@),
{
    let mut i: usize = 0;
    while i < shape.len()
        invariant
            i <= shape@.len(),
            forall|j: int| 0 <= j < i ==> (#[trigger] shape@[j]).0@ != k@,
        decreases shape.len() - i,
    {
        if shape[i].0 == *k {
            return true;
        }
        i += 1;
    }
    false
}

/// The discriminator key a value provides.
pub fn discriminant_key(v: &ZerxValue) -> (r: Option<DiscriminantKey>)
    ensures
        match r {
            Some(k) => dkey_of(v@) == Some(dkey_view(k)),
            None => dkey_of(v@) is None,
        },
{
    match v {
        ZerxValue::Bool(b) => Some(DiscriminantKey::Bool(*b)),
        ZerxValue::String(s) => Some(DiscriminantKey::Str(s.clone())),
        ZerxValue::I64(n) => Some(DiscriminantKey::Int(*n as i128)),
        ZerxValue::U64(n) => Some(DiscriminantKey::Int(*n as i128)),
        ZerxValue::I128(n) => Some(DiscriminantKey::Int(*n)),
        ZerxValue::U128(n) => if *n <= 0x7fff_ffff_ffff_ffff_ffff_ffff_ffff_ffffu128 {
            Some(DiscriminantKey::Int(*n as i128))
        } else {
            None
        },
        _ => None,
    }
}

/// Whether two discriminator keys are the same.
pub fn same_key(a: &DiscriminantKey, b: &DiscriminantKey) -> (r: bool)
    ensures
        r == (dkey_view(*a) == dkey_view(*b)),
{
    match (a, b) {
        (DiscriminantKey::Bool(x), DiscriminantKey::Bool(y)) => *x == *y,
        (DiscriminantKey::Int(x), DiscriminantKey::Int(y)) => *x == *y,
        (DiscriminantKey::Str(x), DiscriminantKey::Str(y)) => *x == *y,
        _ => false,
    }
}

/// The variant registered for a discriminator key.
pub fn lookup_key(entries: &Vec<(DiscriminantKey, usize)>, k: &DiscriminantKey) -> (r: Option<usize>)
    ensures
        r == dkey_lookup(entries@, dkey_view(*k)),
{
    let mut i: usize = 0;
    while i < entries.len()
        invariant
            i <= entries@.len(),
            dkey_lookup(entries@.take(i as int), dkey_view(*k)) is None,
        decreases entries.len() - i,
    {
        proof {
            assert(entries@.take(i + 1).drop_last() =~= entries@.take(i as int));
        }
        if same_key(&entries[i].0, k) {
            proof {
                lemma_dkey_lookup_prefix(entries@, dkey_view(*k), i + 1, entries@.len() as int);
                assert(entries@.take(entries@.len() as int) =~= entries@);
            }
            return Some(entries[i].1);
        }
        i += 1;
    }
    assert(entries@.take(entries@.len() as int) =~= entries@);
    None
}

pub open spec fn raw_view(raw: Option<&ZerxValue>) -> Option<Val> {
    match raw {
        Some(x) => Some(x@),
        None => None,
    }
}

pub open spec fn field_result_is(r: Result<Option<ZerxValue>, ZerxError>, s: Result<Option<Val>, ErrorView>) -> bool {
    match (r, s) {
        (Ok(Some(v)), Ok(Some(w))) => v@ == w,
        (Ok(None), Ok(None)) => true,
        (Err(e), Err(ev)) => error_view(e) == ev,
        _ => false,
    }
}

// ---------------------------------------------------------------------------
// The parse flow
// ---------------------------------------------------------------------------

/// Hooks for schemas that use neither refinements nor lazy parts: no predicate is
/// registered, so a refinement never passes, and no lazy schema resolves.
pub struct NoHooks;

impl Hooks for NoHooks {
    fn refine(&self, id: u64, value: &ZerxValue) -> (r: bool) {
        false
    }

    fn resolve(&self, id: u64) -> (r: Result<Schema, ZerxError>) {
        Err(ZerxError::new(ErrorCode::LAZY_UNRESOLVED(), owned("lazy schema has no resolver")))
    }
}

impl Schema {
    /// Validates `value` against this schema from the top level; `hooks` answers the
    /// refinements and lazy parts the schema refers to.
    pub fn validate<H: Hooks>(&self, hooks: &H, value: &ZerxValue) -> (r: Result<ZerxValue, ZerxError>)
        ensures
            value_result_is(r, sem_present(hooks, *self, value@, 0)),
    {
        let mut ctx = ParseContext::new();
        self.parse_present(hooks, value, &mut ctx)
    }

    /// Parses a present value: depth guard, then the parse step.
    pub fn parse_present<H: Hooks>(&self, h: &H, value: &ZerxValue, ctx: &mut ParseContext) -> (r: Result<ZerxValue, ZerxError>)
        ensures
            value_result_is(r, sem_present(h, *self, value@, old(ctx).depth as int)),
            final(ctx).depth == old(ctx).depth,
        decreases fuel(old(ctx).depth as int), 0int, 0int,
    {
        match ctx.enter() {
            Err(e) => return Err(e),
            Ok(()) => {},
        }
        let result = self.parse_present_body(h, value, ctx);
        ctx.exit();
        result
    }

    fn parse_present_body<H: Hooks>(&self, h: &H, value: &ZerxValue, ctx: &mut ParseContext) -> (r: Result<ZerxValue, ZerxError>)
        requires
            1 <= old(ctx).depth <= MAX_PARSE_DEPTH,
        ensures
            value_result_is(r, sem_body(h, *self, value@, old(ctx).depth as int)),
            final(ctx).depth == old(ctx).depth,
        decreases fuel(old(ctx).depth as int), 3int, 0int,
    {
        if self.modifiers.nullable {
            if let ZerxValue::Null = value {
                return Ok(ZerxValue::Null);
            }
        }
        if let SchemaKind::Lazy(id) = &self.kind {
            let inner = match h.resolve(*id) {
                Err(e) => return Err(e),
                Ok(s) => s,
            };
            let output = match inner.parse_present(h, value, ctx) {
                Err(e) => return Err(e),
                Ok(o) => o,
            };
            return run_refine(h, self, output);
        }
        match check_type(&self.kind, value) {
            Err(e) => return Err(e),
            Ok(()) => {},
        }
        match run_validators(&self.validators, value) {
            Err(e) => return Err(e),
            Ok(()) => {},
        }
        let output = match parse_inner(&self.kind, h, value, ctx) {
            Err(e) => return Err(e),
            Ok(o) => o,
        };
        run_refine(h, self, output)
    }

    /// A property of an object: absent values take the default, then `optional` omits
    /// them, else they are `required`; present values are parsed.
    pub fn parse_field<H: Hooks>(&self, h: &H, raw: Option<&ZerxValue>, ctx: &mut ParseContext) -> (r: Result<Option<ZerxValue>, ZerxError>)
        ensures
            field_result_is(r, sem_field(h, *self, raw_view(raw), old(ctx).depth as int)),
            final(ctx).depth == old(ctx).depth,
        decreases fuel(old(ctx).depth as int), 1int, 0int,
    {
        match raw {
            None => match &self.modifiers.default {
                Some(def) => {
                    let d = def.clone();
                    match self.parse_present(h, &d, ctx) {
                        Ok(o) => Ok(Some(o)),
                        Err(e) => Err(e),
                    }
                },
                None => if self.modifiers.optional {
                    Ok(None)
                } else {
                    Err(ZerxError::new(ErrorCode::REQUIRED(), owned("required field is missing")))
                },
            },
            Some(v) => match self.parse_present(h, v, ctx) {
                Ok(o) => Ok(Some(o)),
                Err(e) => Err(e),
            },
        }
    }
}

fn parse_inner<H: Hooks>(kind: &SchemaKind, h: &H, value: &ZerxValue, ctx: &mut ParseContext) -> (r: Result<ZerxValue, ZerxError>)
    ensures
        value_result_is(r, sem_inner(h, *kind, value@, old(ctx).depth as int)),
        final(ctx).depth == old(ctx).depth,
    decreases fuel(old(ctx).depth as int), 2int, 0int,
{
    match kind {
        SchemaKind::Object(body) => match value {
            ZerxValue::Object(m) => {
                proof {
                    lemma_object_view(*m);
                }
                parse_object(body, h, m, ctx)
            },
            _ => Ok(value.clone()),
        },
        SchemaKind::Array(item) => match value {
            ZerxValue::Array(items) => {
                proof {
                    lemma_array_view(*items);
                }
                parse_array(item, h, items, ctx)
            },
            _ => Ok(value.clone()),
        },
        SchemaKind::Record(vs) => match value {
            ZerxValue::Object(m) => {
                proof {
                    lemma_object_view(*m);
                }
                parse_record(vs, h, m, ctx)
            },
            _ => Ok(value.clone()),
        },
        SchemaKind::Tuple(items) => match value {
            ZerxValue::Array(a) => {
                proof {
                    lemma_array_view(*a);
                }
                parse_tuple(items, h, a, ctx)
            },
            _ => Ok(value.clone()),
        },
        SchemaKind::Union(variants) => parse_union(variants, h, value, ctx),
        SchemaKind::DiscriminatedUnion(body) => parse_discriminated_union(body, h, value, ctx),
        _ => Ok(value.clone()),
    }
}

fn parse_array<H: Hooks>(item: &Schema, h: &H, items: &Vec<ZerxValue>, ctx: &mut ParseContext) -> (r: Result<ZerxValue, ZerxError>)
    ensures
        value_result_is(r, match array_upto(h, *item, values_view(items@), items@.len() as int, old(ctx).depth as int) {
            Ok(out) => Ok(Val::Arr(out)),
            Err(e) => Err(e),
        }),
        final(ctx).depth == old(ctx).depth,
    decreases fuel(old(ctx).depth as int), 1int, 0int,
{
    let ghost d = ctx.depth as int;
    let ghost vals = values_view(items@);
    let mut out: Vec<ZerxValue> = Vec::new();
    proof {
        assert(values_view(out@) =~= Seq::<Val>::empty());
    }
    let mut i: usize = 0;
    while i < items.len()
        invariant
            i <= items@.len(),
            ctx.depth == d,
            d == old(ctx).depth,
            vals == values_view(items@),
            array_upto(h, *item, vals, i as int, d) == Ok::<Seq<Val>, ErrorView>(values_view(out@)),
        decreases items.len() - i,
    {
        match item.parse_present(h, &items[i], ctx) {
            Ok(v) => {
                let ghost prev = out@;
                out.push(v);
                proof {
                    assert(values_view(out@) =~= values_view(prev).push(v@));
                }
            },
            Err(e) => {
                let e2 = e.prefixed(usize_to_string(i));
                proof {
                    lemma_array_err(h, *item, vals, (i + 1) as int, items@.len() as int, d);
                }
                return Err(e2);
            },
        }
        i += 1;
    }
    let r = ZerxValue::Array(out);
    proof {
        lemma_array_view(out);
    }
    Ok(r)
}

fn parse_tuple<H: Hooks>(schemas: &Vec<Schema>, h: &H, items: &Vec<ZerxValue>, ctx: &mut ParseContext) -> (r: Result<ZerxValue, ZerxError>)
    ensures
        value_result_is(r, if items@.len() != schemas@.len() {
            Err(tuple_length_error(schemas@.len(), items@.len()))
        } else {
            match tuple_upto(h, schemas@, values_view(items@), items@.len() as int, old(ctx).depth as int) {
                Ok(out) => Ok(Val::Arr(out)),
                Err(e) => Err(e),
            }
        }),
        final(ctx).depth == old(ctx).depth,
    decreases fuel(old(ctx).depth as int), 1int, 0int,
{
    if items.len() != schemas.len() {
        let n = usize_to_string(schemas.len());
        let got = usize_to_string(items.len());
        let m1 = concat3("expected array of length ", n.as_str(), ", got ");
        let msg = concat(m1.as_str(), got.as_str());
        let e = ZerxError::new(ErrorCode::TUPLE_LENGTH_MISMATCH(), msg)
            .expected(concat("array of length ", n.as_str()))
            .received(concat("array of length ", got.as_str()));
        return Err(e);
    }
    let ghost d = ctx.depth as int;
    let ghost vals = values_view(items@);
    let mut out: Vec<ZerxValue> = Vec::new();
    proof {
        assert(values_view(out@) =~= Seq::<Val>::empty());
    }
    let mut i: usize = 0;
    while i < items.len()
        invariant
            i <= items@.len(),
            items@.len() == schemas@.len(),
            ctx.depth == d,
            d == old(ctx).depth,
            vals == values_view(items@),
            tuple_upto(h, schemas@, vals, i as int, d) == Ok::<Seq<Val>, ErrorView>(values_view(out@)),
        decreases items.len() - i,
    {
        match schemas[i].parse_present(h, &items[i], ctx) {
            Ok(v) => {
                let ghost prev = out@;
                out.push(v);
                proof {
                    assert(values_view(out@) =~= values_view(prev).push(v@));
                }
            },
            Err(e) => {
                let e2 = e.prefixed(usize_to_string(i));
                proof {
                    lemma_tuple_err(h, schemas@, vals, (i + 1) as int, items@.len() as int, d);
                }
                return Err(e2);
            },
        }
        i += 1;
    }
    let r = ZerxValue::Array(out);
    proof {
        lemma_array_view(out);
    }
    Ok(r)
}

fn parse_record<H: Hooks>(vs: &Schema, h: &H, input: &ObjectMap, ctx: &mut ParseContext) -> (r: Result<ZerxValue, ZerxError>)
    ensures
        value_result_is(r, match record_upto(h, *vs, input@, input@.len() as int, old(ctx).depth as int) {
            Ok(out) => Ok(Val::Obj(out)),
            Err(e) => Err(e),
        }),
        final(ctx).depth == old(ctx).depth,
    decreases fuel(old(ctx).depth as int), 1int, 0int,
{
    proof {
        lemma_object_view(*input);
    }
    let ghost d = ctx.depth as int;
    let entries = &input.entries;
    let mut out = ObjectMap::new();
    let mut i: usize = 0;
    while i < entries.len()
        invariant
            i <= entries@.len(),
            ctx.depth == d,
            d == old(ctx).depth,
            *entries == input.entries,
            input@ == entries_view(entries@),
            record_upto(h, *vs, input@, i as int, d) == Ok::<Seq<(Seq<char>, Val)>, ErrorView>(out@),
        decreases entries.len() - i,
    {
        match vs.parse_present(h, &entries[i].1, ctx) {
            Ok(v) => {
                out.insert(entries[i].0.clone(), v);
            },
            Err(e) => {
                let e2 = e.prefixed(entries[i].0.clone());
                proof {
                    lemma_record_err(h, *vs, input@, (i + 1) as int, entries@.len() as int, d);
                }
                return Err(e2);
            },
        }
        i += 1;
    }
    let r = ZerxValue::Object(out);
    proof {
        lemma_object_view(out);
    }
    Ok(r)
}

fn parse_union<H: Hooks>(variants: &Vec<Schema>, h: &H, value: &ZerxValue, ctx: &mut ParseContext) -> (r: Result<ZerxValue, ZerxError>)
    ensures
        value_result_is(r, match union_upto(h, variants@, value@, variants@.len() as int, old(ctx).depth as int) {
            Ok(out) => Ok(out),
            Err(errs) => Err(ev_union(Seq::empty(), errs)),
        }),
        final(ctx).depth == old(ctx).depth,
    decreases fuel(old(ctx).depth as int), 1int, 0int,
{
    let ghost d = ctx.depth as int;
    let mut errs: Vec<ZerxError> = Vec::new();
    proof {
        assert(errors_view(errs@) =~= Seq::<ErrorView>::empty());
    }
    let mut i: usize = 0;
    while i < variants.len()
        invariant
            i <= variants@.len(),
            ctx.depth == d,
            d == old(ctx).depth,
            union_upto(h, variants@, value@, i as int, d) == Err::<Val, Seq<ErrorView>>(errors_view(errs@)),
        decreases variants.len() - i,
    {
        match variants[i].parse_present(h, value, ctx) {
            Ok(v) => {
                proof {
                    lemma_union_ok(h, variants@, value@, (i + 1) as int, variants@.len() as int, d);
                }
                return Ok(v);
            },
            Err(e) => {
                let ghost prev = errs@;
                errs.push(e);
                proof {
                    assert(errors_view(errs@) =~= errors_view(prev).push(error_view(e)));
                }
            },
        }
        i += 1;
    }
    let path: Vec<String> = Vec::new();
    proof {
        assert(strings_view(path@) =~= Seq::<Seq<char>>::empty());
    }
    Err(ZerxError::union(path, errs))
}

fn parse_discriminated_union<H: Hooks>(body: &DiscriminatedUnionBody, h: &H, value: &ZerxValue, ctx: &mut ParseContext) -> (r: Result<ZerxValue, ZerxError>)
    ensures
        value_result_is(r, sem_discriminated(h, *body, value@, old(ctx).depth as int)),
        final(ctx).depth == old(ctx).depth,
    decreases fuel(old(ctx).depth as int), 1int, 0int,
{
    let (entries, allowed) = match &body.state {
        DiscriminatorState::Invalid(msg) => {
            return Err(ZerxError::new(ErrorCode::INVALID_DISCRIMINATED_UNION(), msg.clone()));
        },
        DiscriminatorState::Valid { entries, allowed } => (entries, allowed),
    };
    let input = match value {
        ZerxValue::Object(m) => m,
        _ => return Ok(value.clone()),
    };
    proof {
        lemma_object_view(*input);
    }
    let disc_value = match input.get(body.key.as_str()) {
        Some(v) => v,
        None => {
            let msg = concat3("discriminator field '", body.key.as_str(), "' is missing");
            return Err(ZerxError::new(ErrorCode::INVALID_DISCRIMINANT(), msg).expected(join_strings(allowed, ", ")));
        },
    };
    let key = match discriminant_key(disc_value) {
        Some(k) => k,
        None => {
            let msg = concat3("discriminator field '", body.key.as_str(), "' has a non-keyable value");
            return Err(ZerxError::new(ErrorCode::INVALID_DISCRIMINANT(), msg)
                .expected(join_strings(allowed, ", "))
                .received(owned(type_tag_of(disc_value))));
        },
    };
    match lookup_key(entries, &key) {
        Some(i) => {
            if i < body.variants.len() {
                return body.variants[i].parse_present(h, value, ctx);
            }
        },
        None => {},
    }
    let msg = concat3("no variant matched discriminator '", body.key.as_str(), "'");
    Err(ZerxError::new(ErrorCode::INVALID_DISCRIMINANT(), msg)
        .expected(join_strings(allowed, ", "))
        .received(owned(type_tag_of(disc_value))))
}

/// The index of the first input entry that is neither stripped nor named by the shape.
fn find_unknown(body: &ObjectBody, strip: &Vec<String>, input: &ObjectMap) -> (r: Option<usize>)
    requires
        strs(strip@) == prestrip(*body),
    ensures
        match r {
            Some(i) => i < input@.len() && unknown_upto(*body, input@, input@.len() as int) == Some(i as int),
            None => unknown_upto(*body, input@, input@.len() as int) is None,
        },
{
    proof {
        lemma_object_view(*input);
    }
    let entries = &input.entries;
    let mut i: usize = 0;
    while i < entries.len()
        invariant
            i <= entries@.len(),
            *entries == input.entries,
            input@ == entries_view(entries@),
            strs(strip@) == prestrip(*body),
            unknown_upto(*body, input@, i as int) is None,
        decreases entries.len() - i,
    {
        let key = &entries[i].0;
        if !strings_contain(strip, key) && !shape_has_key(&body.shape, key) {
            proof {
                lemma_unknown_found(*body, input@, (i + 1) as int, entries@.len() as int);
            }
            return Some(i);
        }
        i += 1;
    }
    None
}

/// Parses shape field `j` and adds what it yields to `output`.
fn parse_shape_field<H: Hooks>(
    body: &ObjectBody,
    h: &H,
    input: &ObjectMap,
    strip: &Vec<String>,
    j: usize,
    output: &mut ObjectMap,
    ctx: &mut ParseContext,
) -> (r: Result<(), ZerxError>)
    requires
        j < body.shape@.len(),
        strs(strip@) == prestrip(*body),
        fields_upto(h, *body, input@, j as int, old(ctx).depth as int) == Ok::<Seq<(Seq<char>, Val)>, ErrorView>(old(output)@),
    ensures
        final(ctx).depth == old(ctx).depth,
        match r {
            Ok(()) => fields_upto(h, *body, input@, j + 1, old(ctx).depth as int) == Ok::<Seq<(Seq<char>, Val)>, ErrorView>(final(output)@),
            Err(e) => fields_upto(h, *body, input@, j + 1, old(ctx).depth as int) == Err::<Seq<(Seq<char>, Val)>, ErrorView>(error_view(e)),
        },
    decreases fuel(old(ctx).depth as int), 1int, 1int,
{
    let key = &body.shape[j].0;
    let field = &body.shape[j].1;
    let raw: Option<&ZerxValue> = if strings_contain(strip, key) { None } else { input.get(key.as_str()) };
    assert(raw_view(raw) == field_input(*body, input@, key@));
    match field.parse_field(h, raw, ctx) {
        Ok(Some(v)) => {
            output.insert(key.clone(), v);
            Ok(())
        },
        Ok(None) => Ok(()),
        Err(e) => {
            let skip = body.all_optional && raw.is_none() && e.code.same(&ErrorCode::REQUIRED());
            if skip {
                Ok(())
            } else {
                Err(e.prefixed(key.clone()))
            }
        },
    }
}

fn parse_object<H: Hooks>(body: &ObjectBody, h: &H, input: &ObjectMap, ctx: &mut ParseContext) -> (r: Result<ZerxValue, ZerxError>)
    ensures
        value_result_is(r, sem_object(h, *body, input@, old(ctx).depth as int)),
        final(ctx).depth == old(ctx).depth,
    decreases fuel(old(ctx).depth as int), 1int, 2int,
{
    proof {
        lemma_object_view(*input);
    }
    let ghost d = ctx.depth as int;
    let strip = effective_prestrip(body);
    let entries = &input.entries;
    if let ObjectMode::Strict = body.mode {
        if let Some(i) = find_unknown(body, &strip, input) {
            let key = &entries[i].0;
            let e = ZerxError::new(ErrorCode::UNKNOWN_PROPERTY(), concat3("unknown property '", key.as_str(), "'"))
                .expected(owned("property not in schema"))
                .received(owned(type_tag_of(&entries[i].1)))
                .prefixed(key.clone());
            assert(input@[i as int] == (key@, entries@[i as int].1@));
            return Err(e);
        }
    }
    let mut output = ObjectMap::new();
    let mut j: usize = 0;
    while j < body.shape.len()
        invariant
            j <= body.shape@.len(),
            ctx.depth == d,
            d == old(ctx).depth,
            strs(strip@) == prestrip(*body),
            fields_upto(h, *body, input@, j as int, d) == Ok::<Seq<(Seq<char>, Val)>, ErrorView>(output@),
            body.mode is Strict ==> unknown_upto(*body, input@, input@.len() as int) is None,
        decreases body.shape.len() - j,
    {
        match parse_shape_field(body, h, input, &strip, j, &mut output, ctx) {
            Ok(()) => {},
            Err(e) => {
                proof {
                    lemma_fields_err(h, *body, input@, (j + 1) as int, body.shape@.len() as int, d);
                }
                return Err(e);
            },
        }
        j += 1;
    }
    let ghost acc = output@;
    if let ObjectMode::Passthrough = body.mode {
        let mut k: usize = 0;
        while k < entries.len()
            invariant
                k <= entries@.len(),
                *entries == input.entries,
                input@ == entries_view(entries@),
                strs(strip@) == prestrip(*body),
                output@ == passthrough_upto(*body, input@, acc, k as int),
            decreases entries.len() - k,
        {
            let key = &entries[k].0;
            if !strings_contain(&strip, key) && !shape_has_key(&body.shape, key) {
                output.insert(key.clone(), entries[k].1.clone());
            }
            k += 1;
        }
    }
    let r = ZerxValue::Object(output);
    proof {
        lemma_object_view(output);
    }
    Ok(r)
}

} // verus!
