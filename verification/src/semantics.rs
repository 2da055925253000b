//! The meaning of validation: what parsing a value against a schema yields.
use vstd::prelude::*;
use crate::error::{ErrorView, ev_new, ev_expected, ev_received, ev_prefix, ev_union};
use crate::value::{Val, key_pos, map_get, map_insert};
use crate::schema::{
    Schema, SchemaKind, Validator, ObjectBody, ObjectMode, DiscriminantKey, DiscriminatorState,
    DiscriminatedUnionBody, Refinement, Hooks, MAX_PARSE_DEPTH,
};
use crate::text::{decimal, signed_decimal, join};
use crate::float::{f64_is_finite, f64_eq, f64_lt, f64_is_integral, int_to_f64_bits};
use crate::checks::{
    spec_is_valid_email, spec_is_valid_uuid, spec_is_valid_uri, spec_is_valid_url,
    regex_compiles, regex_is_match, regex_error_text,
};

verus! {

// ---------------------------------------------------------------------------
// Descriptors
// ---------------------------------------------------------------------------

/// The compact type tag of a value, used in `received`.
pub open spec fn type_tag(v: Val) -> Seq<char> {
    match v {
        Val::Null => "null"@,
        Val::Bool(_) => "boolean"@,
        Val::I64(_) | Val::U64(_) | Val::I128(_) | Val::U128(_) | Val::F64(_, _) => "number"@,
        Val::Str(_) => "string"@,
        Val::Bytes(_) => "bytes"@,
        Val::Arr(_) => "array"@,
        Val::Obj(_) => "object"@,
    }
}

/// How a literal constant is shown in `expected`.
pub open spec fn literal_descriptor(v: Val) -> Seq<char> {
    match v {
        Val::Bool(b) => if b { "true"@ } else { "false"@ },
        Val::Str(s) => "\""@ + s + "\""@,
        Val::I64(n) => signed_decimal(n as int),
        Val::U64(n) => decimal(n as nat),
        Val::I128(n) => signed_decimal(n as int),
        Val::U128(n) => decimal(n as nat),
        Val::F64(_, text) => text,
        _ => type_tag(v),
    }
}

/// Structural equality of values, with floating-point equality on floats (NaN equals
/// nothing, `-0` equals `+0`).
pub open spec fn val_eq(a: Val, b: Val) -> bool
    decreases a,
{
    match (a, b) {
        (Val::Null, Val::Null) => true,
        (Val::Bool(x), Val::Bool(y)) => x == y,
        (Val::I64(x), Val::I64(y)) => x == y,
        (Val::U64(x), Val::U64(y)) => x == y,
        (Val::I128(x), Val::I128(y)) => x == y,
        (Val::U128(x), Val::U128(y)) => x == y,
        (Val::F64(x, _), Val::F64(y, _)) => f64_eq(x, y),
        (Val::Str(x), Val::Str(y)) => x == y,
        (Val::Bytes(x), Val::Bytes(y)) => x == y,
        (Val::Arr(x), Val::Arr(y)) => x.len() == y.len() && forall|i: int|
            0 <= i < x.len() ==> val_eq(#[trigger] x[i], y[i]),
        (Val::Obj(x), Val::Obj(y)) => x.len() == y.len() && forall|i: int|
            0 <= i < x.len() ==> (#[trigger] x[i]).0 == y[i].0 && val_eq(x[i].1, y[i].1),
        _ => false,
    }
}

// ---------------------------------------------------------------------------
// Type checks
// ---------------------------------------------------------------------------

/// A `type_mismatch` error with its message, `expected` and the received type tag.
pub open spec fn mismatch(message: Seq<char>, expected: Seq<char>, v: Val) -> ErrorView {
    ev_received(ev_expected(ev_new("type_mismatch"@, message), expected), type_tag(v))
}

pub open spec fn strs(v: Seq<String>) -> Seq<Seq<char>> {
    v.map_values(|s: String| s@)
}

pub proof fn lemma_strs_push(v: Seq<String>, x: String)
    ensures
        strs(v.push(x)) == strs(v).push(x@),
{
    assert(strs(v.push(x)) =~= strs(v).push(x@));
}

/// The type check of a schema kind.
pub open spec fn check_kind(k: SchemaKind, v: Val) -> Result<(), ErrorView> {
    match k {
        SchemaKind::Any | SchemaKind::Lazy(_) | SchemaKind::Union(_) | SchemaKind::Json
        | SchemaKind::JsonSchema => Ok(()),
        SchemaKind::String => match v {
            Val::Str(_) => Ok(()),
            _ => Err(mismatch("expected string"@, "string"@, v)),
        },
        SchemaKind::Number => match v {
            Val::I64(_) | Val::U64(_) | Val::I128(_) | Val::U128(_) => Ok(()),
            Val::F64(b, _) => if f64_is_finite(b) {
                Ok(())
            } else {
                Err(mismatch("expected finite number"@, "number"@, v))
            },
            _ => Err(mismatch("expected number"@, "number"@, v)),
        },
        SchemaKind::Boolean => match v {
            Val::Bool(_) => Ok(()),
            _ => Err(mismatch("expected boolean"@, "boolean"@, v)),
        },
        SchemaKind::Enum(set) => match v {
            Val::Str(s) => if strs(set@).contains(s) {
                Ok(())
            } else {
                Err(ev_received(ev_expected(
                    ev_new("invalid_enum_value"@, "value is not an allowed enum value"@),
                    join(strs(set@), ", "@),
                ), type_tag(v)))
            },
            _ => Err(mismatch("expected string (enum)"@, "string (enum)"@, v)),
        },
        SchemaKind::Null => match v {
            Val::Null => Ok(()),
            _ => Err(mismatch("expected null"@, "null"@, v)),
        },
        SchemaKind::Object(_) | SchemaKind::Record(_) => match v {
            Val::Obj(_) => Ok(()),
            _ => Err(mismatch("expected object"@, "object"@, v)),
        },
        SchemaKind::Array(_) | SchemaKind::Tuple(_) => match v {
            Val::Arr(_) => Ok(()),
            _ => Err(mismatch("expected array"@, "array"@, v)),
        },
        SchemaKind::DiscriminatedUnion(body) => match body.state {
            DiscriminatorState::Invalid(msg) => Err(ev_new("invalid_discriminated_union"@, msg@)),
            DiscriminatorState::Valid { .. } => match v {
                Val::Obj(_) => Ok(()),
                _ => Err(mismatch("expected object"@, "object"@, v)),
            },
        },
        SchemaKind::Literal(c) => if val_eq(v, c@) {
            Ok(())
        } else {
            Err(ev_received(ev_expected(
                ev_new("invalid_literal"@, "value does not match literal constant"@),
                literal_descriptor(c@),
            ), type_tag(v)))
        },
        SchemaKind::Buffer => match v {
            Val::Bytes(_) => Ok(()),
            _ => Err(mismatch("expected buffer"@, "buffer"@, v)),
        },
        SchemaKind::Uri => match v {
            Val::Str(s) => if spec_is_valid_uri(s) {
                Ok(())
            } else {
                Err(ev_expected(ev_new("invalid_uri"@, "string is not a valid URI"@), "uri"@))
            },
            _ => Err(mismatch("expected uri"@, "uri"@, v)),
        },
        SchemaKind::Url => match v {
            Val::Str(s) => if spec_is_valid_url(s) {
                Ok(())
            } else {
                Err(ev_expected(ev_new("invalid_url"@, "string is not a valid URL"@), "url"@))
            },
            _ => Err(mismatch("expected url"@, "url"@, v)),
        },
    }
}

// ---------------------------------------------------------------------------
// Validators
// ---------------------------------------------------------------------------

/// A number as `f64` bits, the way a numeric bound compares it.
pub open spec fn numeric_bits(v: Val) -> Option<u64> {
    match v {
        Val::I64(n) => Some(int_to_f64_bits(n as int)),
        Val::U64(n) => Some(int_to_f64_bits(n as int)),
        Val::I128(n) => Some(int_to_f64_bits(n as int)),
        Val::U128(n) => Some(int_to_f64_bits(n as int)),
        Val::F64(b, _) => Some(b),
        _ => None,
    }
}

/// One validator on one value; values of other types pass.
pub open spec fn check_validator(vd: Validator, v: Val) -> Result<(), ErrorView> {
    match vd {
        Validator::MinLength(n) => match v {
            Val::Str(s) => if s.len() < n {
                Err(ev_new("string_too_short"@, "string length is less than minimum "@ + decimal(n as nat)))
            } else {
                Ok(())
            },
            _ => Ok(()),
        },
        Validator::MaxLength(n) => match v {
            Val::Str(s) => if s.len() > n {
                Err(ev_new("string_too_long"@, "string length exceeds maximum "@ + decimal(n as nat)))
            } else {
                Ok(())
            },
            _ => Ok(()),
        },
        Validator::Pattern(p) => match v {
            Val::Str(s) => if !regex_compiles(p@) {
                Err(ev_new("pattern_invalid"@, "pattern is invalid: "@ + regex_error_text(p@)))
            } else if !regex_is_match(p@, s) {
                Err(ev_new("pattern_mismatch"@, "string does not match pattern"@))
            } else {
                Ok(())
            },
            _ => Ok(()),
        },
        Validator::Email => match v {
            Val::Str(s) => if spec_is_valid_email(s) {
                Ok(())
            } else {
                Err(ev_new("invalid_email"@, "string is not a valid email address"@))
            },
            _ => Ok(()),
        },
        Validator::Uuid => match v {
            Val::Str(s) => if spec_is_valid_uuid(s) {
                Ok(())
            } else {
                Err(ev_new("invalid_uuid"@, "string is not a valid UUID"@))
            },
            _ => Ok(()),
        },
        Validator::MinValue(bound) => match numeric_bits(v) {
            Some(x) => if f64_lt(x, bound.bits) {
                Err(ev_new("number_too_small"@, "number is less than minimum "@ + bound.text@))
            } else {
                Ok(())
            },
            None => Ok(()),
        },
        Validator::MaxValue(bound) => match numeric_bits(v) {
            Some(x) => if f64_lt(bound.bits, x) {
                Err(ev_new("number_too_large"@, "number exceeds maximum "@ + bound.text@))
            } else {
                Ok(())
            },
            None => Ok(()),
        },
        Validator::Int => match v {
            Val::F64(b, _) => if f64_is_integral(b) {
                Ok(())
            } else {
                Err(ev_new("not_integer"@, "number is not an integer"@))
            },
            _ => Ok(()),
        },
        Validator::ArrayMinLength(n) => match v {
            Val::Arr(a) => if a.len() < n {
                Err(ev_new("array_too_short"@, "array length "@ + decimal(a.len()) + " is less than minimum "@ + decimal(n as nat)))
            } else {
                Ok(())
            },
            _ => Ok(()),
        },
        Validator::ArrayMaxLength(n) => match v {
            Val::Arr(a) => if a.len() > n {
                Err(ev_new("array_too_long"@, "array length "@ + decimal(a.len()) + " exceeds maximum "@ + decimal(n as nat)))
            } else {
                Ok(())
            },
            _ => Ok(()),
        },
    }
}

/// The first `n` validators, in order: the first failure, or success.
pub open spec fn validators_upto(vs: Seq<Validator>, v: Val, n: int) -> Result<(), ErrorView>
    decreases n,
{
    if n <= 0 {
        Ok(())
    } else {
        match validators_upto(vs, v, n - 1) {
            Err(e) => Err(e),
            Ok(_) => check_validator(vs[n - 1], v),
        }
    }
}

/// The first `n` refinements on an output value: the first to reject, or the value.
pub open spec fn refine_upto<H: Hooks>(h: &H, rs: Seq<Refinement>, out: Val, n: int) -> Result<Val, ErrorView>
    decreases n,
{
    if n <= 0 {
        Ok(out)
    } else {
        match refine_upto(h, rs, out, n - 1) {
            Err(e) => Err(e),
            Ok(_) => if h.spec_refine(rs[n - 1].id, out) {
                Ok(out)
            } else {
                Err(ev_new("refinement_failed"@, rs[n - 1].message@))
            },
        }
    }
}

pub open spec fn refine_all<H: Hooks>(h: &H, s: Schema, out: Val) -> Result<Val, ErrorView> {
    refine_upto(h, s.modifiers.refine@, out, s.modifiers.refine@.len() as int)
}

// ---------------------------------------------------------------------------
// Objects: stripping and unknown keys
// ---------------------------------------------------------------------------

/// The keys of shape fields whose flag (read-only when `ro`, else write-only) is set.
pub open spec fn flagged_keys(shape: Seq<(String, Schema)>, ro: bool) -> Seq<Seq<char>>
    decreases shape.len(),
{
    if shape.len() == 0 {
        Seq::empty()
    } else {
        let rest = flagged_keys(shape.drop_last(), ro);
        let f = shape.last();
        if (ro && f.1.modifiers.read_only) || (!ro && f.1.modifiers.write_only) {
            rest.push(f.0@)
        } else {
            rest
        }
    }
}

/// Keys removed from the input before anything else looks at it.
pub open spec fn prestrip(body: ObjectBody) -> Seq<Seq<char>> {
    strs(body.prestrip_keys@)
        + (if body.prestrip_read_only { flagged_keys(body.shape@, true) } else { Seq::empty() })
        + (if body.prestrip_write_only { flagged_keys(body.shape@, false) } else { Seq::empty() })
}

pub open spec fn shape_has(shape: Seq<(String, Schema)>, k: Seq<char>) -> bool {
    exists|i: int| 0 <= i < shape.len() && (#[trigger] shape[i]).0@ == k
}

/// Whether an input key is neither stripped nor named by the shape.
pub open spec fn is_unknown(body: ObjectBody, k: Seq<char>) -> bool {
    !prestrip(body).contains(k) && !shape_has(body.shape@, k)
}

/// Index of the first unknown key among the first `n` input entries.
pub open spec fn unknown_upto(body: ObjectBody, input: Seq<(Seq<char>, Val)>, n: int) -> Option<int>
    decreases n,
{
    if n <= 0 {
        None
    } else {
        match unknown_upto(body, input, n - 1) {
            Some(i) => Some(i),
            None => if is_unknown(body, input[n - 1].0) {
                Some(n - 1)
            } else {
                None
            },
        }
    }
}

/// The error for an unknown property `k` holding `v`.
pub open spec fn unknown_property(k: Seq<char>, v: Val) -> ErrorView {
    ev_prefix(ev_received(ev_expected(
        ev_new("unknown_property"@, "unknown property '"@ + k + "'"@),
        "property not in schema"@,
    ), type_tag(v)), k)
}

/// `acc` with the unknown entries among the first `n` input entries added.
pub open spec fn passthrough_upto(body: ObjectBody, input: Seq<(Seq<char>, Val)>, acc: Seq<(Seq<char>, Val)>, n: int) -> Seq<(Seq<char>, Val)>
    decreases n,
{
    if n <= 0 {
        acc
    } else {
        let prev = passthrough_upto(body, input, acc, n - 1);
        if is_unknown(body, input[n - 1].0) {
            map_insert(prev, input[n - 1].0, input[n - 1].1)
        } else {
            prev
        }
    }
}

// ---------------------------------------------------------------------------
// Discriminated unions
// ---------------------------------------------------------------------------

pub enum DKey {
    Bool(bool),
    Int(int),
    Str(Seq<char>),
}

pub open spec fn dkey_view(k: DiscriminantKey) -> DKey {
    match k {
        DiscriminantKey::Bool(b) => DKey::Bool(b),
        DiscriminantKey::Int(n) => DKey::Int(n as int),
        DiscriminantKey::Str(s) => DKey::Str(s@),
    }
}

/// The discriminator key a value provides, if it can provide one.
pub open spec fn dkey_of(v: Val) -> Option<DKey> {
    match v {
        Val::Bool(b) => Some(DKey::Bool(b)),
        Val::Str(s) => Some(DKey::Str(s)),
        Val::I64(n) => Some(DKey::Int(n as int)),
        Val::U64(n) => Some(DKey::Int(n as int)),
        Val::I128(n) => Some(DKey::Int(n as int)),
        Val::U128(n) => if n <= i128::MAX { Some(DKey::Int(n as int)) } else { None },
        _ => None,
    }
}

/// The variant index registered for a key: the first entry with that key.
pub open spec fn dkey_lookup(entries: Seq<(DiscriminantKey, usize)>, k: DKey) -> Option<usize>
    decreases entries.len(),
{
    if entries.len() == 0 {
        None
    } else {
        match dkey_lookup(entries.drop_last(), k) {
            Some(i) => Some(i),
            None => if dkey_view(entries.last().0) == k { Some(entries.last().1) } else { None },
        }
    }
}

// ---------------------------------------------------------------------------
// The parse flow
// ---------------------------------------------------------------------------

pub open spec fn depth_exceeded() -> ErrorView {
    ev_new("parse_depth_exceeded"@, "parse depth exceeded maximum of 100"@)
}

pub open spec fn fuel(depth: int) -> int {
    if depth <= MAX_PARSE_DEPTH { MAX_PARSE_DEPTH + 1 - depth } else { 0 }
}

/// Parsing a present value at nesting `depth` (the depth before entering this schema).
pub open spec fn sem_present<H: Hooks>(h: &H, s: Schema, v: Val, depth: int) -> Result<Val, ErrorView>
    decreases fuel(depth), 0int, 0int,
{
    if depth + 1 > MAX_PARSE_DEPTH {
        Err(depth_exceeded())
    } else {
        sem_body(h, s, v, depth + 1)
    }
}

/// One parse step once the depth guard passed: nullable short-circuit (for every kind,
/// a lazy one included), lazy resolution, type check, validators, type-specific logic,
/// refinements.
pub open spec fn sem_body<H: Hooks>(h: &H, s: Schema, v: Val, d: int) -> Result<Val, ErrorView>
    decreases fuel(d), 3int, 0int,
{
    if v is Null && s.modifiers.nullable {
        Ok(Val::Null)
    } else {
        match s.kind {
            SchemaKind::Lazy(id) => match h.spec_resolve(id) {
                Err(e) => Err(e),
                Ok(inner) => match sem_present(h, inner, v, d) {
                    Err(e) => Err(e),
                    Ok(out) => refine_all(h, s, out),
                },
            },
            _ => match check_kind(s.kind, v) {
                Err(e) => Err(e),
                Ok(_) => match validators_upto(s.validators@, v, s.validators@.len() as int) {
                    Err(e) => Err(e),
                    Ok(_) => match sem_inner(h, s.kind, v, d) {
                        Err(e) => Err(e),
                        Ok(out) => refine_all(h, s, out),
                    },
                },
            },
        }
    }
}

/// The type-specific step.
pub open spec fn sem_inner<H: Hooks>(h: &H, k: SchemaKind, v: Val, d: int) -> Result<Val, ErrorView>
    decreases fuel(d), 2int, 0int,
{
    match k {
        SchemaKind::Object(body) => match v {
            Val::Obj(input) => sem_object(h, body, input, d),
            _ => Ok(v),
        },
        SchemaKind::Array(item) => match v {
            Val::Arr(items) => match array_upto(h, *item, items, items.len() as int, d) {
                Ok(out) => Ok(Val::Arr(out)),
                Err(e) => Err(e),
            },
            _ => Ok(v),
        },
        SchemaKind::Record(vs) => match v {
            Val::Obj(input) => match record_upto(h, *vs, input, input.len() as int, d) {
                Ok(out) => Ok(Val::Obj(out)),
                Err(e) => Err(e),
            },
            _ => Ok(v),
        },
        SchemaKind::Tuple(items) => match v {
            Val::Arr(a) => if a.len() != items@.len() {
                Err(tuple_length_error(items@.len(), a.len()))
            } else {
                match tuple_upto(h, items@, a, a.len() as int, d) {
                    Ok(out) => Ok(Val::Arr(out)),
                    Err(e) => Err(e),
                }
            },
            _ => Ok(v),
        },
        SchemaKind::Union(variants) => match union_upto(h, variants@, v, variants@.len() as int, d) {
            Ok(out) => Ok(out),
            Err(errs) => Err(ev_union(Seq::empty(), errs)),
        },
        SchemaKind::DiscriminatedUnion(body) => sem_discriminated(h, body, v, d),
        _ => Ok(v),
    }
}

pub open spec fn tuple_length_error(expected: nat, got: nat) -> ErrorView {
    ev_received(ev_expected(
        ev_new("tuple_length_mismatch"@, "expected array of length "@ + decimal(expected) + ", got "@ + decimal(got)),
        "array of length "@ + decimal(expected),
    ), "array of length "@ + decimal(got))
}

/// The first `n` array items, each parsed with `item`.
pub open spec fn array_upto<H: Hooks>(h: &H, item: Schema, items: Seq<Val>, n: int, d: int) -> Result<Seq<Val>, ErrorView>
    decreases fuel(d), 1int, n,
{
    if n <= 0 {
        Ok(Seq::empty())
    } else {
        match array_upto(h, item, items, n - 1, d) {
            Err(e) => Err(e),
            Ok(acc) => match sem_present(h, item, items[n - 1], d) {
                Ok(o) => Ok(acc.push(o)),
                Err(e) => Err(ev_prefix(e, decimal((n - 1) as nat))),
            },
        }
    }
}

/// The first `n` tuple members, each parsed with its own schema.
pub open spec fn tuple_upto<H: Hooks>(h: &H, schemas: Seq<Schema>, items: Seq<Val>, n: int, d: int) -> Result<Seq<Val>, ErrorView>
    decreases fuel(d), 1int, n,
{
    if n <= 0 {
        Ok(Seq::empty())
    } else {
        match tuple_upto(h, schemas, items, n - 1, d) {
            Err(e) => Err(e),
            Ok(acc) => match sem_present(h, schemas[n - 1], items[n - 1], d) {
                Ok(o) => Ok(acc.push(o)),
                Err(e) => Err(ev_prefix(e, decimal((n - 1) as nat))),
            },
        }
    }
}

/// The first `n` record entries, each value parsed with `vs`.
pub open spec fn record_upto<H: Hooks>(h: &H, vs: Schema, input: Seq<(Seq<char>, Val)>, n: int, d: int) -> Result<Seq<(Seq<char>, Val)>, ErrorView>
    decreases fuel(d), 1int, n,
{
    if n <= 0 {
        Ok(Seq::empty())
    } else {
        match record_upto(h, vs, input, n - 1, d) {
            Err(e) => Err(e),
            Ok(acc) => match sem_present(h, vs, input[n - 1].1, d) {
                Ok(o) => Ok(map_insert(acc, input[n - 1].0, o)),
                Err(e) => Err(ev_prefix(e, input[n - 1].0)),
            },
        }
    }
}

/// The first `n` union variants tried in order: the first success, or every error so far.
pub open spec fn union_upto<H: Hooks>(h: &H, variants: Seq<Schema>, v: Val, n: int, d: int) -> Result<Val, Seq<ErrorView>>
    decreases fuel(d), 1int, n,
{
    if n <= 0 {
        Err(Seq::empty())
    } else {
        match union_upto(h, variants, v, n - 1, d) {
            Ok(o) => Ok(o),
            Err(errs) => match sem_present(h, variants[n - 1], v, d) {
                Ok(o) => Ok(o),
                Err(e) => Err(errs.push(e)),
            },
        }
    }
}

/// A property: absent values take the default, then `optional` omits them, else they
/// are required; present values are parsed.
pub open spec fn sem_field<H: Hooks>(h: &H, fs: Schema, raw: Option<Val>, d: int) -> Result<Option<Val>, ErrorView>
    decreases fuel(d), 1int, 0int,
{
    match raw {
        None => match fs.modifiers.default {
            Some(def) => match sem_present(h, fs, def@, d) {
                Ok(o) => Ok(Some(o)),
                Err(e) => Err(e),
            },
            None => if fs.modifiers.optional {
                Ok(None)
            } else {
                Err(ev_new("required"@, "required field is missing"@))
            },
        },
        Some(x) => match sem_present(h, fs, x, d) {
            Ok(o) => Ok(Some(o)),
            Err(e) => Err(e),
        },
    }
}

/// The input value a shape field reads: absent when stripped.
pub open spec fn field_input(body: ObjectBody, input: Seq<(Seq<char>, Val)>, k: Seq<char>) -> Option<Val> {
    if prestrip(body).contains(k) {
        None
    } else {
        map_get(input, k)
    }
}

/// The first `n` shape fields, in shape order.
pub open spec fn fields_upto<H: Hooks>(h: &H, body: ObjectBody, input: Seq<(Seq<char>, Val)>, n: int, d: int) -> Result<Seq<(Seq<char>, Val)>, ErrorView>
    decreases fuel(d), 1int, n + 1,
{
    if n <= 0 {
        Ok(Seq::empty())
    } else {
        match fields_upto(h, body, input, n - 1, d) {
            Err(e) => Err(e),
            Ok(acc) => {
                let key = body.shape@[n - 1].0@;
                let raw = field_input(body, input, key);
                match sem_field(h, body.shape@[n - 1].1, raw, d) {
                    Ok(Some(o)) => Ok(map_insert(acc, key, o)),
                    Ok(None) => Ok(acc),
                    Err(e) => if body.all_optional && raw is None && e.code == "required"@ {
                        Ok(acc)
                    } else {
                        Err(ev_prefix(e, key))
                    },
                }
            },
        }
    }
}

/// An object: the unknown-key gate in strict mode, the fields in shape order, then the
/// unknown entries in passthrough mode.
pub open spec fn sem_object<H: Hooks>(h: &H, body: ObjectBody, input: Seq<(Seq<char>, Val)>, d: int) -> Result<Val, ErrorView>
    decreases fuel(d), 1int, body.shape@.len() + 2,
{
    let unknown = if body.mode is Strict { unknown_upto(body, input, input.len() as int) } else { None };
    match unknown {
        Some(i) => Err(unknown_property(input[i].0, input[i].1)),
        None => match fields_upto(h, body, input, body.shape@.len() as int, d) {
            Err(e) => Err(e),
            Ok(acc) => if body.mode is Passthrough {
                Ok(Val::Obj(passthrough_upto(body, input, acc, input.len() as int)))
            } else {
                Ok(Val::Obj(acc))
            },
        },
    }
}

/// A discriminated union: the discriminator picks the variant that parses the value.
pub open spec fn sem_discriminated<H: Hooks>(h: &H, body: DiscriminatedUnionBody, v: Val, d: int) -> Result<Val, ErrorView>
    decreases fuel(d), 1int, 0int,
{
    match body.state {
        DiscriminatorState::Invalid(msg) => Err(ev_new("invalid_discriminated_union"@, msg@)),
        DiscriminatorState::Valid { entries, allowed } => match v {
            Val::Obj(input) => {
                let key = body.key@;
                let allowed_text = join(strs(allowed@), ", "@);
                match map_get(input, key) {
                    None => Err(ev_expected(
                        ev_new("invalid_discriminant"@, "discriminator field '"@ + key + "' is missing"@),
                        allowed_text,
                    )),
                    Some(dv) => match dkey_of(dv) {
                        None => Err(ev_received(ev_expected(
                            ev_new("invalid_discriminant"@, "discriminator field '"@ + key + "' has a non-keyable value"@),
                            allowed_text,
                        ), type_tag(dv))),
                        Some(k) => match dkey_lookup(entries@, k) {
                            Some(i) if i < body.variants@.len() => sem_present(h, body.variants@[i as int], v, d),
                            _ => Err(ev_received(ev_expected(
                                ev_new("invalid_discriminant"@, "no variant matched discriminator '"@ + key + "'"@),
                                allowed_text,
                            ), type_tag(dv))),
                        },
                    },
                }
            },
            _ => Ok(v),
        },
    }
}

} // verus!
