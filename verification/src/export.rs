//! Export of a schema as a JSON Schema (Draft 2020-12) document.
use vstd::prelude::*;
use crate::value::{Float, ZerxValue, Val, ObjectMap, map_get, map_insert, key_pos, entries_view, lemma_object_view, lemma_key_pos_first, lemma_key_pos_none};
use crate::float::is_finite;
use crate::schema::{Schema, SchemaKind, Hooks, Validator, ObjectBody, ObjectMode};
use crate::semantics::strs;
use crate::float::f64_is_finite;
use crate::error::{opt_view, ZerxError, ErrorView, error_view, errors_view, strings_view, lemma_error_view};
use crate::text::{owned, concat, str_eq, u128_to_string, decimal};
use std::collections::HashMap;

verus! {

broadcast use vstd::std_specs::hash::group_hash_axioms;

/// Draft 2020-12 dialect URI, for [`ExportOptions::dialect`].
pub const DRAFT_2020_12: &'static str = "https://json-schema.org/draft/2020-12/schema";

/// Options for export; the default emits no `$schema`.
pub struct ExportOptions {
    /// When set, the root schema gains `"$schema"` with this dialect.
    pub dialect: Option<String>,
}

/// A JSON Schema document node. Values the schema carries (defaults, examples,
/// constants, metadata, numeric bounds) stay values: the host renders them as JSON.
#[derive(Debug)]
pub enum JsonValue {
    Bool(bool),
    String(String),
    Array(Vec<JsonValue>),
    /// Members in order; the documents this library builds hold each key once.
    Object(Vec<(String, JsonValue)>),
    Value(ZerxValue),
}

/// The mathematical content of a [`JsonValue`].
pub enum JsonVal {
    Bool(bool),
    Str(Seq<char>),
    Arr(Seq<JsonVal>),
    Obj(Seq<(Seq<char>, JsonVal)>),
    Embed(Val),
}

pub open spec fn json_view(j: JsonValue) -> JsonVal
    decreases j,
{
    match j {
        JsonValue::Bool(b) => JsonVal::Bool(b),
        JsonValue::String(s) => JsonVal::Str(s@),
        JsonValue::Array(a) => JsonVal::Arr(Seq::new(
            a@.len(),
            |i: int| if 0 <= i < a@.len() { json_view(a@[i]) } else { JsonVal::Bool(false) },
        )),
        JsonValue::Object(m) => JsonVal::Obj(Seq::new(
            m@.len(),
            |i: int| if 0 <= i < m@.len() { (m@[i].0@, json_view(m@[i].1)) } else { (Seq::empty(), JsonVal::Bool(false)) },
        )),
        JsonValue::Value(v) => JsonVal::Embed(v@),
    }
}

impl View for JsonValue {
    type V = JsonVal;

    open spec fn view(&self) -> JsonVal {
        json_view(*self)
    }
}

pub open spec fn jsons_view(a: Seq<JsonValue>) -> Seq<JsonVal> {
    Seq::new(a.len(), |i: int| json_view(a[i]))
}

pub open spec fn members_view(m: Seq<(String, JsonValue)>) -> Seq<(Seq<char>, JsonVal)> {
    Seq::new(m.len(), |i: int| (m[i].0@, json_view(m[i].1)))
}

pub proof fn lemma_json_array_view(a: Vec<JsonValue>)
    ensures
        json_view(JsonValue::Array(a)) == JsonVal::Arr(jsons_view(a@)),
{
    if let JsonVal::Arr(s) = json_view(JsonValue::Array(a)) {
        assert(s =~= jsons_view(a@));
    }
}

pub proof fn lemma_json_object_view(m: Vec<(String, JsonValue)>)
    ensures
        json_view(JsonValue::Object(m)) == JsonVal::Obj(members_view(m@)),
{
    if let JsonVal::Obj(s) = json_view(JsonValue::Object(m)) {
        assert(s =~= members_view(m@));
    }
}

// ---------------------------------------------------------------------------
// What the export produces
// ---------------------------------------------------------------------------

pub open spec fn jstr(s: Seq<char>) -> JsonVal {
    JsonVal::Str(s)
}

pub open spec fn jcount(n: nat) -> JsonVal {
    JsonVal::Embed(Val::U64(n as u64))
}

/// The export's state: the `$defs` built so far and the ids given to lazy schemas.
pub struct ExportState {
    pub defs: Seq<(Seq<char>, JsonVal)>,
    pub ids: Seq<(u64, Seq<char>)>,
}

/// The id already given to lazy `lid`, if any.
pub open spec fn id_of(ids: Seq<(u64, Seq<char>)>, lid: u64) -> Option<Seq<char>>
    decreases ids.len(),
{
    if ids.len() == 0 {
        None
    } else {
        match id_of(ids.drop_last(), lid) {
            Some(x) => Some(x),
            None => if ids.last().0 == lid { Some(ids.last().1) } else { None },
        }
    }
}

/// The id the next new lazy schema gets.
pub open spec fn next_id(ids: Seq<(u64, Seq<char>)>) -> Seq<char> {
    "S"@ + decimal(ids.len() + 1)
}

/// Keys that metadata may not set.
pub open spec fn reserved(k: Seq<char>) -> bool {
    ||| k == "type"@ ||| k == "properties"@ ||| k == "required"@ ||| k == "additionalProperties"@
    ||| k == "items"@ ||| k == "prefixItems"@ ||| k == "minItems"@ ||| k == "maxItems"@
    ||| k == "anyOf"@ ||| k == "oneOf"@ ||| k == "discriminator"@
    ||| k == "const"@ ||| k == "enum"@
    ||| k == "$ref"@ ||| k == "$defs"@ ||| k == "$schema"@
    ||| k == "format"@ ||| k == "contentMediaType"@
    ||| k == "minLength"@ ||| k == "maxLength"@ ||| k == "pattern"@
    ||| k == "minimum"@ ||| k == "maximum"@
    ||| k == "description"@ ||| k == "default"@ ||| k == "examples"@
    ||| k == "deprecated"@ ||| k == "readOnly"@ ||| k == "writeOnly"@ ||| k == "title"@
}

/// A numeric bound as JSON: the number itself when finite, else 0.
pub open spec fn bound_json(b: Float) -> JsonVal {
    if f64_is_finite(b.bits) { JsonVal::Embed(Val::F64(b.bits, b.text@)) } else { jcount(0) }
}

/// The keyword a validator contributes.
pub open spec fn validator_fragment(v: Validator) -> (Seq<char>, JsonVal) {
    match v {
        Validator::MinLength(n) => ("minLength"@, jcount(n as nat)),
        Validator::MaxLength(n) => ("maxLength"@, jcount(n as nat)),
        Validator::Pattern(p) => ("pattern"@, jstr(p@)),
        Validator::Email => ("format"@, jstr("email"@)),
        Validator::Uuid => ("format"@, jstr("uuid"@)),
        Validator::MinValue(b) => ("minimum"@, bound_json(b)),
        Validator::MaxValue(b) => ("maximum"@, bound_json(b)),
        Validator::Int => ("type"@, jstr("integer"@)),
        Validator::ArrayMinLength(n) => ("minItems"@, jcount(n as nat)),
        Validator::ArrayMaxLength(n) => ("maxItems"@, jcount(n as nat)),
    }
}

/// `core` with the first `n` validators' keywords merged in, later ones winning.
pub open spec fn with_validators(core: Seq<(Seq<char>, JsonVal)>, vs: Seq<Validator>, n: int) -> Seq<(Seq<char>, JsonVal)>
    decreases n,
{
    if n <= 0 {
        core
    } else {
        let f = validator_fragment(vs[n - 1]);
        map_insert(with_validators(core, vs, n - 1), f.0, f.1)
    }
}

pub open spec fn put_opt_str(core: Seq<(Seq<char>, JsonVal)>, k: Seq<char>, v: Option<Seq<char>>) -> Seq<(Seq<char>, JsonVal)> {
    match v {
        Some(s) => map_insert(core, k, jstr(s)),
        None => core,
    }
}

pub open spec fn put_flag(core: Seq<(Seq<char>, JsonVal)>, k: Seq<char>, on: bool) -> Seq<(Seq<char>, JsonVal)> {
    if on { map_insert(core, k, JsonVal::Bool(true)) } else { core }
}

/// `core` with the first `n` metadata entries added, except reserved keys and keys
/// already present.
pub open spec fn with_meta(core: Seq<(Seq<char>, JsonVal)>, meta: Seq<(Seq<char>, Val)>, n: int) -> Seq<(Seq<char>, JsonVal)>
    decreases n,
{
    if n <= 0 {
        core
    } else {
        let prev = with_meta(core, meta, n - 1);
        let k = meta[n - 1].0;
        if !reserved(k) && map_get(prev, k) is None {
            map_insert(prev, k, JsonVal::Embed(meta[n - 1].1))
        } else {
            prev
        }
    }
}

/// `core` with the modifiers' annotations: description, default, examples, flags,
/// title, media type, a format unless one is already set, then metadata.
pub open spec fn annotations(s: Schema, core: Seq<(Seq<char>, JsonVal)>) -> Seq<(Seq<char>, JsonVal)> {
    let m = s.modifiers;
    let c1 = put_opt_str(core, "description"@, opt_view(m.description));
    let c2 = match m.default {
        Some(d) => map_insert(c1, "default"@, JsonVal::Embed(d@)),
        None => c1,
    };
    let c3 = match m.example {
        Some(x) => map_insert(c2, "examples"@, JsonVal::Arr(seq![JsonVal::Embed(x@)])),
        None => c2,
    };
    let c4 = put_flag(c3, "deprecated"@, m.deprecated);
    let c5 = put_flag(c4, "readOnly"@, m.read_only);
    let c6 = put_flag(c5, "writeOnly"@, m.write_only);
    let c7 = put_opt_str(c6, "title"@, opt_view(m.title));
    let c8 = put_opt_str(c7, "contentMediaType"@, opt_view(m.mime));
    let c9 = if map_get(c8, "format"@) is None { put_opt_str(c8, "format"@, opt_view(m.format)) } else { c8 };
    with_meta(c9, m.meta@, m.meta@.len() as int)
}

/// A nullable schema becomes `anyOf` of itself and `{"type": "null"}`.
pub open spec fn wrap_nullable(s: Schema, core: Seq<(Seq<char>, JsonVal)>) -> JsonVal {
    if s.modifiers.nullable {
        JsonVal::Obj(seq![(
            "anyOf"@,
            JsonVal::Arr(seq![JsonVal::Obj(core), JsonVal::Obj(seq![("type"@, jstr("null"@))])]),
        )])
    } else {
        JsonVal::Obj(core)
    }
}

/// Whether a record's value schema is a bare `any`, exported as `true`.
pub open spec fn is_plain_any(s: Schema) -> bool {
    &&& s.kind is Any
    &&& s.validators@.len() == 0
    &&& !s.modifiers.nullable
    &&& s.modifiers.description is None
    &&& s.modifiers.default is None
    &&& s.modifiers.example is None
    &&& s.modifiers.format is None
    &&& s.modifiers.mime is None
    &&& !s.modifiers.deprecated
    &&& !s.modifiers.read_only
    &&& !s.modifiers.write_only
    &&& s.modifiers.title is None
    &&& s.modifiers.meta@.len() == 0
}

/// Whether an object property is listed as required.
pub open spec fn is_required(body: ObjectBody, f: Schema) -> bool {
    !body.all_optional && !f.modifiers.optional && f.modifiers.default is None
}

/// The export of schema `s`: `$ref` to `$defs` for lazy schemas (each exported once, at
/// most `fuel` lazy schemas deep), else the keywords of its kind and validators; then the
/// annotations and the nullable wrapping.
pub open spec fn export<H: Hooks>(h: &H, s: Schema, st: ExportState, fuel: nat) -> (JsonVal, ExportState)
    decreases fuel, s, 0int,
{
    match s.kind {
        SchemaKind::Lazy(lid) => {
            let (id, st1) = match id_of(st.ids, lid) {
                Some(id) => (id, st),
                None => {
                    let id = next_id(st.ids);
                    let placed = ExportState {
                        defs: map_insert(st.defs, id, JsonVal::Obj(Seq::empty())),
                        ids: st.ids.push((lid, id)),
                    };
                    match h.spec_resolve(lid) {
                        Ok(inner) => if fuel > 0 {
                            let (x, st2) = export(h, inner, placed, (fuel - 1) as nat);
                            (id, ExportState { defs: map_insert(st2.defs, id, x), ..st2 })
                        } else {
                            (id, placed)
                        },
                        Err(_) => (id, placed),
                    }
                },
            };
            let core = seq![("$ref"@, jstr("#/$defs/"@ + id))];
            (wrap_nullable(s, annotations(s, core)), st1)
        },
        _ => {
            let (base, st1) = base_schema(h, s.kind, st, fuel);
            let core = with_validators(base, s.validators@, s.validators@.len() as int);
            (wrap_nullable(s, annotations(s, core)), st1)
        },
    }
}

/// The exports of the first `n` schemas, in order, threading the state.
pub open spec fn export_all<H: Hooks>(h: &H, items: Seq<Schema>, st: ExportState, fuel: nat, n: int) -> (Seq<JsonVal>, ExportState)
    decreases fuel, items, n,
{
    if n <= 0 || n > items.len() {
        (Seq::empty(), st)
    } else {
        let (acc, st1) = export_all(h, items, st, fuel, n - 1);
        let (x, st2) = export(h, items[n - 1], st1, fuel);
        (acc.push(x), st2)
    }
}

/// The `properties` of the first `n` shape fields, with the keys required so far.
pub open spec fn export_props<H: Hooks>(h: &H, body: ObjectBody, shape: Seq<(String, Schema)>, st: ExportState, fuel: nat, n: int)
    -> (Seq<(Seq<char>, JsonVal)>, Seq<JsonVal>, ExportState)
    decreases fuel, shape, n,
{
    if n <= 0 || n > shape.len() {
        (Seq::empty(), Seq::empty(), st)
    } else {
        let (props, req, st1) = export_props(h, body, shape, st, fuel, n - 1);
        let (x, st2) = export(h, shape[n - 1].1, st1, fuel);
        let key = shape[n - 1].0@;
        (
            map_insert(props, key, x),
            if is_required(body, shape[n - 1].1) { req.push(jstr(key)) } else { req },
            st2,
        )
    }
}

/// An object with `entries` put in, in order.
pub open spec fn members(entries: Seq<(Seq<char>, JsonVal)>) -> Seq<(Seq<char>, JsonVal)>
    decreases entries.len(),
{
    if entries.len() == 0 {
        Seq::empty()
    } else {
        map_insert(members(entries.drop_last()), entries.last().0, entries.last().1)
    }
}

/// The keywords of a schema kind.
pub open spec fn base_schema<H: Hooks>(h: &H, k: SchemaKind, st: ExportState, fuel: nat) -> (Seq<(Seq<char>, JsonVal)>, ExportState)
    decreases fuel, k, 0int,
{
    match k {
        SchemaKind::String => (members(seq![("type"@, jstr("string"@))]), st),
        SchemaKind::Number => (members(seq![("type"@, jstr("number"@))]), st),
        SchemaKind::Boolean => (members(seq![("type"@, jstr("boolean"@))]), st),
        SchemaKind::Null => (members(seq![("type"@, jstr("null"@))]), st),
        SchemaKind::Enum(set) => (members(seq![("enum"@, JsonVal::Arr(strs(set@).map_values(|s: Seq<char>| jstr(s))))]), st),
        SchemaKind::Literal(c) => (members(seq![("const"@, JsonVal::Embed(c@))]), st),
        SchemaKind::Object(body) => {
            let (props, req, st1) = export_props(h, body, body.shape@, st, fuel, body.shape@.len() as int);
            let m1 = members(seq![("type"@, jstr("object"@)), ("properties"@, JsonVal::Obj(props))]);
            let m2 = if req.len() > 0 { map_insert(m1, "required"@, JsonVal::Arr(req)) } else { m1 };
            (map_insert(m2, "additionalProperties"@, JsonVal::Bool(body.mode is Passthrough)), st1)
        },
        SchemaKind::Array(item) => {
            let (x, st1) = export(h, *item, st, fuel);
            (members(seq![("type"@, jstr("array"@)), ("items"@, x)]), st1)
        },
        SchemaKind::Record(value) => {
            let (x, st1) = if is_plain_any(*value) { (JsonVal::Bool(true), st) } else { export(h, *value, st, fuel) };
            (members(seq![
                ("type"@, jstr("object"@)),
                ("format"@, jstr("record"@)),
                ("properties"@, JsonVal::Obj(Seq::empty())),
                ("additionalProperties"@, x),
            ]), st1)
        },
        SchemaKind::Tuple(items) => {
            let (xs, st1) = export_all(h, items@, st, fuel, items@.len() as int);
            (members(seq![
                ("type"@, jstr("array"@)),
                ("prefixItems"@, JsonVal::Arr(xs)),
                ("items"@, JsonVal::Bool(false)),
                ("minItems"@, jcount(items@.len())),
                ("maxItems"@, jcount(items@.len())),
            ]), st1)
        },
        SchemaKind::Union(variants) => {
            let (xs, st1) = export_all(h, variants@, st, fuel, variants@.len() as int);
            (members(seq![("anyOf"@, JsonVal::Arr(xs))]), st1)
        },
        SchemaKind::DiscriminatedUnion(body) => {
            let (xs, st1) = export_all(h, body.variants@, st, fuel, body.variants@.len() as int);
            (members(seq![
                ("oneOf"@, JsonVal::Arr(xs)),
                ("discriminator"@, JsonVal::Obj(members(seq![("propertyName"@, jstr(body.key@))]))),
            ]), st1)
        },
        SchemaKind::Buffer => (members(seq![("type"@, jstr("string"@)), ("format"@, jstr("buffer"@))]), st),
        SchemaKind::Uri => (members(seq![("type"@, jstr("string"@)), ("format"@, jstr("uri"@))]), st),
        SchemaKind::Url => (members(seq![("type"@, jstr("string"@)), ("format"@, jstr("url"@))]), st),
        SchemaKind::Json => (members(seq![("format"@, jstr("json"@))]), st),
        SchemaKind::JsonSchema => (members(seq![("type"@, jstr("object"@)), ("format"@, jstr("jsonschema"@))]), st),
        SchemaKind::Any | SchemaKind::Lazy(_) => (Seq::empty(), st),
    }
}

/// The document `to_json_schema_with` produces: the root's export, with `$defs` when a
/// lazy schema was exported and `$schema` when a dialect is asked for.
pub open spec fn document<H: Hooks>(h: &H, s: Schema, dialect: Option<Seq<char>>) -> JsonVal {
    let (root, st) = export(h, s, ExportState { defs: Seq::empty(), ids: Seq::empty() }, usize::MAX as nat);
    match root {
        JsonVal::Obj(m) => {
            let m1 = if st.defs.len() > 0 { map_insert(m, "$defs"@, JsonVal::Obj(st.defs)) } else { m };
            let m2 = match dialect {
                Some(d) => map_insert(m1, "$schema"@, jstr(d)),
                None => m1,
            };
            JsonVal::Obj(m2)
        },
        _ => root,
    }
}

// ---------------------------------------------------------------------------
// Building the document
// ---------------------------------------------------------------------------

/// Puts `v` under `k`: an existing key keeps its place and takes the new value.
pub(crate) fn json_insert(m: &mut Vec<(String, JsonValue)>, k: String, v: JsonValue)
    ensures
        members_view(final(m)@) == map_insert(members_view(old(m)@), k@, v@),
{
    let ghost before = members_view(m@);
    let mut i: usize = 0;
    while i < m.len()
        invariant
            i <= m@.len(),
            before == members_view(m@),
            before == members_view(old(m)@),
            forall|j: int| 0 <= j < i ==> before[j].0 != k@,
        decreases m.len() - i,
    {
        if m[i].0 == k {
            proof {
                lemma_key_pos_first(before, k@, i as int);
            }
            let ghost kv = k@;
            let ghost vv = v@;
            m.set(i, (k, v));
            proof {
                assert(members_view(m@) =~= map_insert(before, kv, vv));
            }
            return;
        }
        i += 1;
    }
    proof {
        lemma_key_pos_none(before, k@);
    }
    let ghost kv = k@;
    let ghost vv = v@;
    m.push((k, v));
    proof {
        assert(members_view(m@) =~= map_insert(before, kv, vv));
    }
}

/// Whether `k` is a member.
fn json_has(m: &Vec<(String, JsonValue)>, k: &str) -> (r: bool)
    ensures
        r == (map_get(members_view(m@), k@) is Some),
{
    let ghost mv = members_view(m@);
    let mut i: usize = 0;
    while i < m.len()
        invariant
            i <= m@.len(),
            mv == members_view(m@),
            forall|j: int| 0 <= j < i ==> mv[j].0 != k@,
        decreases m.len() - i,
    {
        if str_eq(m[i].0.as_str(), k) {
            proof {
                lemma_key_pos_first(mv, k@, i as int);
            }
            return true;
        }
        i += 1;
    }
    proof {
        lemma_key_pos_none(mv, k@);
    }
    false
}

fn put(m: &mut Vec<(String, JsonValue)>, k: &str, v: JsonValue)
    ensures
        members_view(final(m)@) == map_insert(members_view(old(m)@), k@, v@),
{
    json_insert(m, owned(k), v);
}

fn text(s: &str) -> (r: JsonValue)
    ensures
        r@ == jstr(s@),
{
    JsonValue::String(owned(s))
}

fn count(n: usize) -> (r: JsonValue)
    ensures
        r@ == jcount(n as nat),
{
    JsonValue::Value(ZerxValue::U64(n as u64))
}

fn is_reserved(k: &str) -> (r: bool)
    ensures
        r == reserved(k@),
{
    str_eq(k, "type") || str_eq(k, "properties") || str_eq(k, "required") || str_eq(k, "additionalProperties")
        || str_eq(k, "items") || str_eq(k, "prefixItems") || str_eq(k, "minItems") || str_eq(k, "maxItems")
        || str_eq(k, "anyOf") || str_eq(k, "oneOf") || str_eq(k, "discriminator")
        || str_eq(k, "const") || str_eq(k, "enum")
        || str_eq(k, "$ref") || str_eq(k, "$defs") || str_eq(k, "$schema")
        || str_eq(k, "format") || str_eq(k, "contentMediaType")
        || str_eq(k, "minLength") || str_eq(k, "maxLength") || str_eq(k, "pattern")
        || str_eq(k, "minimum") || str_eq(k, "maximum")
        || str_eq(k, "description") || str_eq(k, "default") || str_eq(k, "examples")
        || str_eq(k, "deprecated") || str_eq(k, "readOnly") || str_eq(k, "writeOnly") || str_eq(k, "title")
}

fn bound_value(b: &Float) -> (r: JsonValue)
    ensures
        r@ == bound_json(*b),
{
    if is_finite(b.bits) {
        JsonValue::Value(ZerxValue::F64(b.clone()))
    } else {
        JsonValue::Value(ZerxValue::U64(0))
    }
}

fn fragment(v: &Validator) -> (r: (String, JsonValue))
    ensures
        (r.0@, r.1@) == validator_fragment(*v),
{
    match v {
        Validator::MinLength(n) => (owned("minLength"), count(*n)),
        Validator::MaxLength(n) => (owned("maxLength"), count(*n)),
        Validator::Pattern(p) => (owned("pattern"), JsonValue::String(p.clone())),
        Validator::Email => (owned("format"), text("email")),
        Validator::Uuid => (owned("format"), text("uuid")),
        Validator::MinValue(b) => (owned("minimum"), bound_value(b)),
        Validator::MaxValue(b) => (owned("maximum"), bound_value(b)),
        Validator::Int => (owned("type"), text("integer")),
        Validator::ArrayMinLength(n) => (owned("minItems"), count(*n)),
        Validator::ArrayMaxLength(n) => (owned("maxItems"), count(*n)),
    }
}

fn add_validators(core: &mut Vec<(String, JsonValue)>, vs: &Vec<Validator>)
    ensures
        members_view(final(core)@) == with_validators(members_view(old(core)@), vs@, vs@.len() as int),
{
    let ghost start = members_view(core@);
    let mut i: usize = 0;
    while i < vs.len()
        invariant
            i <= vs@.len(),
            start == members_view(old(core)@),
            members_view(core@) == with_validators(start, vs@, i as int),
        decreases vs.len() - i,
    {
        let (k, v) = fragment(&vs[i]);
        json_insert(core, k, v);
        i += 1;
    }
}

fn put_opt_text(core: &mut Vec<(String, JsonValue)>, k: &str, v: &Option<String>)
    ensures
        members_view(final(core)@) == put_opt_str(members_view(old(core)@), k@, opt_view(*v)),
{
    if let Some(s) = v {
        put(core, k, JsonValue::String(s.clone()));
    }
}

fn put_true(core: &mut Vec<(String, JsonValue)>, k: &str, on: bool)
    ensures
        members_view(final(core)@) == put_flag(members_view(old(core)@), k@, on),
{
    if on {
        put(core, k, JsonValue::Bool(true));
    }
}

fn apply_annotations(s: &Schema, core: &mut Vec<(String, JsonValue)>)
    ensures
        members_view(final(core)@) == annotations(*s, members_view(old(core)@)),
{
    let m = &s.modifiers;
    put_opt_text(core, "description", &m.description);
    if let Some(d) = &m.default {
        put(core, "default", JsonValue::Value(d.clone()));
    }
    if let Some(x) = &m.example {
        let mut one: Vec<JsonValue> = Vec::new();
        one.push(JsonValue::Value(x.clone()));
        proof {
            lemma_json_array_view(one);
            assert(jsons_view(one@) =~= seq![JsonVal::Embed(x@)]);
        }
        put(core, "examples", JsonValue::Array(one));
    }
    put_true(core, "deprecated", m.deprecated);
    put_true(core, "readOnly", m.read_only);
    put_true(core, "writeOnly", m.write_only);
    put_opt_text(core, "title", &m.title);
    put_opt_text(core, "contentMediaType", &m.mime);
    if !json_has(core, "format") {
        put_opt_text(core, "format", &m.format);
    }
    let ghost c9 = members_view(core@);
    proof {
        lemma_object_view(m.meta);
    }
    let entries = &m.meta.entries;
    let mut i: usize = 0;
    while i < entries.len()
        invariant
            i <= entries@.len(),
            *entries == m.meta.entries,
            m.meta@ == entries_view(entries@),
            members_view(core@) == with_meta(c9, m.meta@, i as int),
        decreases entries.len() - i,
    {
        let k = &entries[i].0;
        if !is_reserved(k.as_str()) && !json_has(core, k.as_str()) {
            json_insert(core, k.clone(), JsonValue::Value(entries[i].1.clone()));
        }
        i += 1;
    }
}

fn wrap_nullable_exec(s: &Schema, core: Vec<(String, JsonValue)>) -> (r: JsonValue)
    ensures
        r@ == wrap_nullable(*s, members_view(core@)),
{
    let ghost cv = members_view(core@);
    let inner = JsonValue::Object(core);
    proof {
        lemma_json_object_view(core);
    }
    if s.modifiers.nullable {
        let mut null_type: Vec<(String, JsonValue)> = Vec::new();
        assert(members_view(null_type@) =~= Seq::<(Seq<char>, JsonVal)>::empty());
        put(&mut null_type, "type", text("null"));
        assert(members_view(null_type@) =~= seq![("type"@, jstr("null"@))]);
        let nt = JsonValue::Object(null_type);
        proof {
            lemma_json_object_view(null_type);
        }
        let mut both: Vec<JsonValue> = Vec::new();
        both.push(inner);
        both.push(nt);
        let arr = JsonValue::Array(both);
        proof {
            lemma_json_array_view(both);
        }
        let mut outer: Vec<(String, JsonValue)> = Vec::new();
        assert(members_view(outer@) =~= Seq::<(Seq<char>, JsonVal)>::empty());
        let ghost av = arr@;
        put(&mut outer, "anyOf", arr);
        assert(members_view(outer@) =~= seq![("anyOf"@, av)]);
        proof {
            lemma_json_object_view(outer);
            assert(jsons_view(both@) =~= seq![JsonVal::Obj(cv), JsonVal::Obj(seq![("type"@, jstr("null"@))])]);
        }
        JsonValue::Object(outer)
    } else {
        inner
    }
}

/// An object with `entries` put in, in order.
fn object_of(entries: Vec<(String, JsonValue)>) -> (r: Vec<(String, JsonValue)>)
    ensures
        members_view(r@) == members(members_view(entries@)),
{
    let ghost all = entries@;
    let ghost ev = members_view(entries@);
    let mut rest = entries;
    let n = rest.len();
    let mut out: Vec<(String, JsonValue)> = Vec::new();
    proof {
        assert(members_view(out@) =~= Seq::<(Seq<char>, JsonVal)>::empty());
        assert(ev.take(0) =~= Seq::<(Seq<char>, JsonVal)>::empty());
    }
    let mut i: usize = 0;
    while rest.len() > 0
        invariant
            i <= n,
            all.len() == n,
            ev == members_view(all),
            rest@ == all.skip(i as int),
            rest@.len() + i == n,
            members_view(out@) == members(ev.take(i as int)),
        decreases rest.len(),
    {
        let (k, v) = rest.remove(0);
        proof {
            assert(all.skip(i as int).remove(0) =~= all.skip(i + 1));
            assert(ev.take(i + 1).drop_last() =~= ev.take(i as int));
            assert(ev[i as int] == (k@, v@));
        }
        json_insert(&mut out, k, v);
        i += 1;
    }
    proof {
        assert(ev.take(i as int) =~= ev);
    }
    out
}

/// The export's state: the `$defs` built so far, and the `$defs` name given to each lazy
/// schema met, by lazy id (`order` holds them in the order met).
struct ExportContext {
    defs: Vec<(String, JsonValue)>,
    ids: HashMap<u64, String>,
    order: Ghost<Seq<(u64, Seq<char>)>>,
}

spec fn ctx_view(c: ExportContext) -> ExportState {
    ExportState { defs: members_view(c.defs@), ids: c.order@ }
}

/// The name table holds exactly the names `order` gives, one per lazy schema met.
spec fn ctx_ok(c: ExportContext) -> bool {
    &&& c.ids@.len() == c.order@.len()
    &&& forall|lid: u64| #[trigger] c.ids@.contains_key(lid) <==> id_of(c.order@, lid) is Some
    &&& forall|lid: u64| c.ids@.contains_key(lid) ==> (#[trigger] c.ids@[lid])@ == id_of(c.order@, lid)->0
}

proof fn lemma_id_of_push(ids: Seq<(u64, Seq<char>)>, x: (u64, Seq<char>), lid: u64)
    ensures
        id_of(ids.push(x), lid) == match id_of(ids, lid) {
            Some(y) => Some(y),
            None => if x.0 == lid { Some(x.1) } else { None },
        },
{
    assert(ids.push(x).drop_last() =~= ids);
}

fn export_schema<H: Hooks>(h: &H, s: &Schema, ctx: &mut ExportContext, fuel: usize) -> (r: JsonValue)
    requires
        ctx_ok(*old(ctx)),
    ensures
        ctx_ok(*final(ctx)),
        (r@, ctx_view(*final(ctx))) == export(h, *s, ctx_view(*old(ctx)), fuel as nat),
    decreases fuel, s, 0int,
{
    match &s.kind {
        SchemaKind::Lazy(lid) => {
            let ghost st = ctx_view(*ctx);
            let id = match ctx.ids.get(lid) {
                Some(id) => id.clone(),
                None => {
                    let id = concat("S", u128_to_string(ctx.ids.len() as u128 + 1).as_str());
                    let ghost ov = ctx.order@;
                    let ghost before = ctx.ids@;
                    ctx.ids.insert(*lid, id.clone());
                    proof {
                        ctx.order@ = ov.push((*lid, id@));
                        assert forall|l: u64| #[trigger] ctx.ids@.contains_key(l) <==> id_of(ctx.order@, l) is Some by {
                            lemma_id_of_push(ov, (*lid, id@), l);
                        }
                        assert forall|l: u64| ctx.ids@.contains_key(l) implies (#[trigger] ctx.ids@[l])@ == id_of(ctx.order@, l)->0 by {
                            lemma_id_of_push(ov, (*lid, id@), l);
                        }
                        assert(!before.contains_key(*lid));
                        assert(ctx.ids@ == before.insert(*lid, id));
                    }
                    let empty: Vec<(String, JsonValue)> = Vec::new();
                    proof {
                        lemma_json_object_view(empty);
                        assert(members_view(empty@) =~= Seq::<(Seq<char>, JsonVal)>::empty());
                    }
                    json_insert(&mut ctx.defs, id.clone(), JsonValue::Object(empty));
                    if fuel > 0 {
                        match h.resolve(*lid) {
                            Ok(inner) => {
                                let x = export_schema(h, &inner, ctx, fuel - 1);
                                json_insert(&mut ctx.defs, id.clone(), x);
                            },
                            Err(_) => {},
                        }
                    }
                    id
                },
            };
            let mut core: Vec<(String, JsonValue)> = Vec::new();
            let target = concat("#/$defs/", id.as_str());
            core.push((owned("$ref"), JsonValue::String(target)));
            proof {
                assert(members_view(core@) =~= seq![("$ref"@, jstr("#/$defs/"@ + id@))]);
            }
            apply_annotations(s, &mut core);
            wrap_nullable_exec(s, core)
        },
        _ => {
            let mut core = base_schema_exec(h, &s.kind, ctx, fuel);
            add_validators(&mut core, &s.validators);
            apply_annotations(s, &mut core);
            wrap_nullable_exec(s, core)
        },
    }
}

fn export_all_exec<H: Hooks>(h: &H, items: &Vec<Schema>, ctx: &mut ExportContext, fuel: usize) -> (r: Vec<JsonValue>)
    requires
        ctx_ok(*old(ctx)),
    ensures
        ctx_ok(*final(ctx)),
        (jsons_view(r@), ctx_view(*final(ctx))) == export_all(h, items@, ctx_view(*old(ctx)), fuel as nat, items@.len() as int),
    decreases fuel, items, 0int,
{
    let mut out: Vec<JsonValue> = Vec::new();
    proof {
        assert(jsons_view(out@) =~= Seq::<JsonVal>::empty());
    }
    let ghost st0 = ctx_view(*ctx);
    let mut i: usize = 0;
    while i < items.len()
        invariant
            i <= items@.len(),
            st0 == ctx_view(*old(ctx)),
            ctx_ok(*ctx),
            (jsons_view(out@), ctx_view(*ctx)) == export_all(h, items@, st0, fuel as nat, i as int),
        decreases items.len() - i,
    {
        assert(decreases_to!(items => items@[i as int]));
        let x = export_schema(h, &items[i], ctx, fuel);
        let ghost prev = out@;
        out.push(x);
        proof {
            assert(jsons_view(out@) =~= jsons_view(prev).push(x@));
        }
        i += 1;
    }
    out
}

fn export_props_exec<H: Hooks>(
    h: &H,
    body: &ObjectBody,
    ctx: &mut ExportContext,
    fuel: usize,
) -> (r: (Vec<(String, JsonValue)>, Vec<JsonValue>))
    requires
        ctx_ok(*old(ctx)),
    ensures
        ctx_ok(*final(ctx)),
        (members_view(r.0@), jsons_view(r.1@), ctx_view(*final(ctx)))
            == export_props(h, *body, body.shape@, ctx_view(*old(ctx)), fuel as nat, body.shape@.len() as int),
    decreases fuel, body, 0int,
{
    let shape = &body.shape;
    let mut props: Vec<(String, JsonValue)> = Vec::new();
    let mut req: Vec<JsonValue> = Vec::new();
    proof {
        assert(members_view(props@) =~= Seq::<(Seq<char>, JsonVal)>::empty());
        assert(jsons_view(req@) =~= Seq::<JsonVal>::empty());
    }
    let ghost st0 = ctx_view(*ctx);
    let mut i: usize = 0;
    while i < shape.len()
        invariant
            i <= shape@.len(),
            *shape == body.shape,
            st0 == ctx_view(*old(ctx)),
            ctx_ok(*ctx),
            (members_view(props@), jsons_view(req@), ctx_view(*ctx))
                == export_props(h, *body, shape@, st0, fuel as nat, i as int),
        decreases shape.len() - i,
    {
        assert(decreases_to!(body => body.shape));
        assert(decreases_to!(body.shape => body.shape@[i as int]));
        assert(decreases_to!(body.shape@[i as int] => body.shape@[i as int].1));
        let x = export_schema(h, &shape[i].1, ctx, fuel);
        json_insert(&mut props, shape[i].0.clone(), x);
        let f = &shape[i].1;
        if !body.all_optional && !f.modifiers.optional && f.modifiers.default.is_none() {
            let ghost prev = req@;
            let key = JsonValue::String(shape[i].0.clone());
            req.push(key);
            proof {
                assert(jsons_view(req@) =~= jsons_view(prev).push(jstr(shape@[i as int].0@)));
            }
        }
        i += 1;
    }
    (props, req)
}

#[verifier::rlimit(60)]
#[verifier::spinoff_prover]
fn base_schema_exec<H: Hooks>(h: &H, k: &SchemaKind, ctx: &mut ExportContext, fuel: usize) -> (r: Vec<(String, JsonValue)>)
    requires
        ctx_ok(*old(ctx)),
    ensures
        ctx_ok(*final(ctx)),
        (members_view(r@), ctx_view(*final(ctx))) == base_schema(h, *k, ctx_view(*old(ctx)), fuel as nat),
    decreases fuel, k, 0int,
{
    let mut e: Vec<(String, JsonValue)> = Vec::new();
    match k {
        SchemaKind::String => {
            e.push((owned("type"), text("string")));
            proof {
                assert(members_view(e@) =~= seq![("type"@, jstr("string"@))]);
            }
        },
        SchemaKind::Number => {
            e.push((owned("type"), text("number")));
            proof {
                assert(members_view(e@) =~= seq![("type"@, jstr("number"@))]);
            }
        },
        SchemaKind::Boolean => {
            e.push((owned("type"), text("boolean")));
            proof {
                assert(members_view(e@) =~= seq![("type"@, jstr("boolean"@))]);
            }
        },
        SchemaKind::Null => {
            e.push((owned("type"), text("null")));
            proof {
                assert(members_view(e@) =~= seq![("type"@, jstr("null"@))]);
            }
        },
        SchemaKind::Enum(set) => {
            let mut xs: Vec<JsonValue> = Vec::new();
            let mut i: usize = 0;
            while i < set.len()
                invariant
                    i <= set@.len(),
                    jsons_view(xs@) == strs(set@.take(i as int)).map_values(|s: Seq<char>| jstr(s)),
                decreases set.len() - i,
            {
                let ghost prev = xs@;
                xs.push(JsonValue::String(set[i].clone()));
                proof {
                    assert(jsons_view(xs@) =~= jsons_view(prev).push(jstr(set@[i as int]@)));
                    assert(set@.take(i + 1) =~= set@.take(i as int).push(set@[i as int]));
                    crate::semantics::lemma_strs_push(set@.take(i as int), set@[i as int]);
                    assert(jsons_view(xs@) =~= strs(set@.take(i + 1)).map_values(|s: Seq<char>| jstr(s)));
                }
                i += 1;
            }
            proof {
                assert(set@.take(set@.len() as int) =~= set@);
                lemma_json_array_view(xs);
            }
            e.push((owned("enum"), JsonValue::Array(xs)));
            proof {
                assert(members_view(e@) =~= seq![("enum"@, JsonVal::Arr(strs(set@).map_values(|s: Seq<char>| jstr(s))))]);
            }
        },
        SchemaKind::Literal(c) => {
            e.push((owned("const"), JsonValue::Value(c.clone())));
            proof {
                assert(members_view(e@) =~= seq![("const"@, JsonVal::Embed(c@))]);
            }
        },
        SchemaKind::Object(body) => {
            let (props, req) = export_props_exec(h, body, ctx, fuel);
            proof {
                lemma_json_object_view(props);
            }
            e.push((owned("type"), text("object")));
            e.push((owned("properties"), JsonValue::Object(props)));
            proof {
                assert(members_view(e@) =~= seq![("type"@, jstr("object"@)), ("properties"@, JsonVal::Obj(members_view(props@)))]);
            }
            let mut m = object_of(e);
            if req.len() > 0 {
                proof {
                    lemma_json_array_view(req);
                }
                put(&mut m, "required", JsonValue::Array(req));
            }
            let open = match body.mode {
                ObjectMode::Passthrough => true,
                _ => false,
            };
            put(&mut m, "additionalProperties", JsonValue::Bool(open));
            return m;
        },
        SchemaKind::Array(item) => {
            let x = export_schema(h, item, ctx, fuel);
            e.push((owned("type"), text("array")));
            e.push((owned("items"), x));
            proof {
                assert(members_view(e@) =~= seq![("type"@, jstr("array"@)), ("items"@, x@)]);
            }
        },
        SchemaKind::Record(value) => {
            let x = if plain_any(value) { JsonValue::Bool(true) } else { export_schema(h, value, ctx, fuel) };
            let none: Vec<(String, JsonValue)> = Vec::new();
            proof {
                lemma_json_object_view(none);
                assert(members_view(none@) =~= Seq::<(Seq<char>, JsonVal)>::empty());
            }
            e.push((owned("type"), text("object")));
            e.push((owned("format"), text("record")));
            e.push((owned("properties"), JsonValue::Object(none)));
            e.push((owned("additionalProperties"), x));
            proof {
                assert(members_view(e@) =~= seq![("type"@, jstr("object"@)), ("format"@, jstr("record"@)), ("properties"@, JsonVal::Obj(Seq::empty())), ("additionalProperties"@, x@)]);
            }
        },
        SchemaKind::Tuple(items) => {
            let xs = export_all_exec(h, items, ctx, fuel);
            proof {
                lemma_json_array_view(xs);
            }
            e.push((owned("type"), text("array")));
            e.push((owned("prefixItems"), JsonValue::Array(xs)));
            e.push((owned("items"), JsonValue::Bool(false)));
            e.push((owned("minItems"), count(items.len())));
            e.push((owned("maxItems"), count(items.len())));
            proof {
                assert(members_view(e@) =~= seq![("type"@, jstr("array"@)), ("prefixItems"@, JsonVal::Arr(jsons_view(xs@))), ("items"@, JsonVal::Bool(false)), ("minItems"@, jcount(items@.len())), ("maxItems"@, jcount(items@.len()))]);
            }
        },
        SchemaKind::Union(variants) => {
            let xs = export_all_exec(h, variants, ctx, fuel);
            proof {
                lemma_json_array_view(xs);
            }
            e.push((owned("anyOf"), JsonValue::Array(xs)));
            proof {
                assert(members_view(e@) =~= seq![("anyOf"@, JsonVal::Arr(jsons_view(xs@)))]);
            }
        },
        SchemaKind::DiscriminatedUnion(body) => {
            let xs = export_all_exec(h, &body.variants, ctx, fuel);
            proof {
                lemma_json_array_view(xs);
            }
            let mut d: Vec<(String, JsonValue)> = Vec::new();
            d.push((owned("propertyName"), JsonValue::String(body.key.clone())));
            proof {
                assert(members_view(d@) =~= seq![("propertyName"@, jstr(body.key@))]);
            }
            let dm = object_of(d);
            proof {
                lemma_json_object_view(dm);
            }
            e.push((owned("oneOf"), JsonValue::Array(xs)));
            e.push((owned("discriminator"), JsonValue::Object(dm)));
            proof {
                assert(members_view(e@) =~= seq![("oneOf"@, JsonVal::Arr(jsons_view(xs@))), ("discriminator"@, JsonVal::Obj(members_view(dm@)))]);
            }
        },
        SchemaKind::Buffer => {
            e.push((owned("type"), text("string")));
            e.push((owned("format"), text("buffer")));
            proof {
                assert(members_view(e@) =~= seq![("type"@, jstr("string"@)), ("format"@, jstr("buffer"@))]);
            }
        },
        SchemaKind::Uri => {
            e.push((owned("type"), text("string")));
            e.push((owned("format"), text("uri")));
            proof {
                assert(members_view(e@) =~= seq![("type"@, jstr("string"@)), ("format"@, jstr("uri"@))]);
            }
        },
        SchemaKind::Url => {
            e.push((owned("type"), text("string")));
            e.push((owned("format"), text("url")));
            proof {
                assert(members_view(e@) =~= seq![("type"@, jstr("string"@)), ("format"@, jstr("url"@))]);
            }
        },
        SchemaKind::Json => {
            e.push((owned("format"), text("json")));
            proof {
                assert(members_view(e@) =~= seq![("format"@, jstr("json"@))]);
            }
        },
        SchemaKind::JsonSchema => {
            e.push((owned("type"), text("object")));
            e.push((owned("format"), text("jsonschema")));
            proof {
                assert(members_view(e@) =~= seq![("type"@, jstr("object"@)), ("format"@, jstr("jsonschema"@))]);
            }
        },
        SchemaKind::Any | SchemaKind::Lazy(_) => {
            proof {
                assert(members_view(e@) =~= Seq::<(Seq<char>, JsonVal)>::empty());
            }
            return e;
        },
    }
    object_of(e)
}

fn plain_any(s: &Schema) -> (r: bool)
    ensures
        r == is_plain_any(*s),
{
    let any_kind = match s.kind {
        SchemaKind::Any => true,
        _ => false,
    };
    let m = &s.modifiers;
    any_kind && s.validators.len() == 0 && !m.nullable && m.description.is_none() && m.default.is_none()
        && m.example.is_none() && m.format.is_none() && m.mime.is_none() && !m.deprecated && !m.read_only
        && !m.write_only && m.title.is_none() && m.meta.len() == 0
}

impl Schema {
    /// The schema as a JSON Schema (Draft 2020-12) document. `hooks` resolves lazy
    /// parts; each is exported once, under `$defs` (named `S1`, `S2`, … in the order
    /// first met), and referred to by `$ref`. Every lazy part is resolved and exported: the
    /// count of nested lazy exports is bounded by `usize::MAX` only, a machine bound
    /// (each one holds a `$defs` entry in memory, which runs out first).
    pub fn to_json_schema<H: Hooks>(&self, hooks: &H) -> (r: JsonValue)
        ensures
            r@ == document(hooks, *self, None),
    {
        let opts = ExportOptions { dialect: None };
        self.to_json_schema_with(hooks, &opts)
    }

    /// The same, with `$schema` set to `opts.dialect` when given.
    pub fn to_json_schema_with<H: Hooks>(&self, hooks: &H, opts: &ExportOptions) -> (r: JsonValue)
        ensures
            r@ == document(hooks, *self, opt_view(opts.dialect)),
    {
        let mut ctx = ExportContext { defs: Vec::new(), ids: HashMap::new(), order: Ghost(Seq::empty()) };
        proof {
            assert(members_view(ctx.defs@) =~= Seq::<(Seq<char>, JsonVal)>::empty());
        }
        let root = export_schema(hooks, self, &mut ctx, usize::MAX);
        match root {
            JsonValue::Object(m) => {
                let mut m = m;
                proof {
                    lemma_json_object_view(m);
                }
                if ctx.defs.len() > 0 {
                    let defs = ctx.defs;
                    proof {
                        lemma_json_object_view(defs);
                    }
                    put(&mut m, "$defs", JsonValue::Object(defs));
                }
                if let Some(d) = &opts.dialect {
                    put(&mut m, "$schema", JsonValue::String(d.clone()));
                }
                let r = JsonValue::Object(m);
                proof {
                    lemma_json_object_view(m);
                }
                r
            },
            other => other,
        }
    }
}

// ---------------------------------------------------------------------------
// Errors as JSON
// ---------------------------------------------------------------------------

/// A path as a JSON array of strings.
pub open spec fn path_json(path: Seq<Seq<char>>) -> Seq<JsonVal> {
    path.map_values(|p: Seq<char>| jstr(p))
}

/// An error as a JSON object: path, code and message; `received`, `expected` and
/// `inner_errors` only when present.
pub open spec fn error_json(e: ErrorView) -> JsonVal
    decreases e, 1int,
{
    let base = seq![
        ("path"@, JsonVal::Arr(path_json(e.path))),
        ("code"@, jstr(e.code)),
        ("message"@, jstr(e.message)),
    ];
    let with_received = match e.received {
        Some(r) => base.push(("received"@, jstr(r))),
        None => base,
    };
    let with_expected = match e.expected {
        Some(x) => with_received.push(("expected"@, jstr(x))),
        None => with_received,
    };
    let all = if e.inner.len() > 0 {
        with_expected.push(("inner_errors"@, JsonVal::Arr(errors_json(e.inner))))
    } else {
        with_expected
    };
    JsonVal::Obj(members(all))
}

/// Each error of a list as JSON, in order.
pub open spec fn errors_json(s: Seq<ErrorView>) -> Seq<JsonVal>
    decreases s, 0int,
{
    if s.len() == 0 {
        Seq::empty()
    } else {
        errors_json(s.drop_last()).push(error_json(s.last()))
    }
}

impl ZerxError {
    /// The error as a JSON document.
    pub fn to_json(&self) -> (r: JsonValue)
        ensures
            r@ == error_json(error_view(*self)),
        decreases self,
    {
        proof {
            lemma_error_view(*self);
        }
        let ghost ev = error_view(*self);
        let mut path: Vec<JsonValue> = Vec::new();
        let mut i: usize = 0;
        while i < self.path.len()
            invariant
                i <= self.path@.len(),
                jsons_view(path@) == path_json(strings_view(self.path@.take(i as int))),
            decreases self.path.len() - i,
        {
            let ghost prev = path@;
            path.push(JsonValue::String(self.path[i].clone()));
            proof {
                assert(self.path@.take(i + 1) =~= self.path@.take(i as int).push(self.path@[i as int]));
                assert(strings_view(self.path@.take(i + 1)) =~= strings_view(self.path@.take(i as int)).push(self.path@[i as int]@));
                assert(jsons_view(path@) =~= jsons_view(prev).push(jstr(self.path@[i as int]@)));
                assert(jsons_view(path@) =~= path_json(strings_view(self.path@.take(i + 1))));
            }
            i += 1;
        }
        proof {
            assert(self.path@.take(self.path@.len() as int) =~= self.path@);
            lemma_json_array_view(path);
        }
        let mut e: Vec<(String, JsonValue)> = Vec::new();
        e.push((owned("path"), JsonValue::Array(path)));
        e.push((owned("code"), JsonValue::String(owned(self.code.as_str()))));
        e.push((owned("message"), JsonValue::String(self.message.clone())));
        let ghost base = members_view(e@);
        assert(base =~= seq![
            ("path"@, JsonVal::Arr(path_json(ev.path))),
            ("code"@, jstr(ev.code)),
            ("message"@, jstr(ev.message)),
        ]);
        if let Some(r) = &self.received {
            e.push((owned("received"), JsonValue::String(r.clone())));
            assert(members_view(e@) =~= base.push(("received"@, jstr(r@))));
        }
        let ghost with_received = members_view(e@);
        if let Some(x) = &self.expected {
            e.push((owned("expected"), JsonValue::String(x.clone())));
            assert(members_view(e@) =~= with_received.push(("expected"@, jstr(x@))));
        }
        let ghost with_expected = members_view(e@);
        if self.inner_errors.len() > 0 {
            let mut inner: Vec<JsonValue> = Vec::new();
            let mut k: usize = 0;
            while k < self.inner_errors.len()
                invariant
                    k <= self.inner_errors@.len(),
                    ev == error_view(*self),
                    ev.inner == errors_view(self.inner_errors@),
                    jsons_view(inner@) == errors_json(ev.inner.take(k as int)),
                decreases self.inner_errors.len() - k,
            {
                assert(decreases_to!(self => self.inner_errors));
                assert(decreases_to!(self.inner_errors => self.inner_errors@[k as int]));
                let ghost prev = inner@;
                let x = self.inner_errors[k].to_json();
                inner.push(x);
                proof {
                    assert(ev.inner.take(k + 1).drop_last() =~= ev.inner.take(k as int));
                    assert(jsons_view(inner@) =~= jsons_view(prev).push(json_view(x)));
                }
                k += 1;
            }
            proof {
                assert(ev.inner.take(ev.inner.len() as int) =~= ev.inner);
                lemma_json_array_view(inner);
            }
            e.push((owned("inner_errors"), JsonValue::Array(inner)));
            assert(members_view(e@) =~= with_expected.push(("inner_errors"@, JsonVal::Arr(errors_json(ev.inner)))));
        }
        let m = object_of(e);
        proof {
            lemma_json_object_view(m);
        }
        JsonValue::Object(m)
    }
}

// ---------------------------------------------------------------------------
// Laws
// ---------------------------------------------------------------------------

/// The keys that annotations may add to an exported schema.
pub open spec fn annotation_key(k: Seq<char>) -> bool {
    ||| k == "description"@ ||| k == "default"@ ||| k == "examples"@ ||| k == "deprecated"@
    ||| k == "readOnly"@ ||| k == "writeOnly"@ ||| k == "title"@ ||| k == "contentMediaType"@
}

proof fn lemma_meta_keeps(core: Seq<(Seq<char>, JsonVal)>, meta: Seq<(Seq<char>, Val)>, n: int, k: Seq<char>)
    requires
        map_get(core, k) is Some,
    ensures
        map_get(with_meta(core, meta, n), k) == map_get(core, k),
    decreases n,
{
    if n > 0 {
        lemma_meta_keeps(core, meta, n - 1, k);
        let prev = with_meta(core, meta, n - 1);
        let k2 = meta[n - 1].0;
        if !reserved(k2) && map_get(prev, k2) is None {
            crate::value::law_map_insert_keeps_others(prev, k2, JsonVal::Embed(meta[n - 1].1), k);
        }
    }
}

/// Annotations never replace a member already set under a key they do not write.
proof fn lemma_annotations_keep(s: Schema, core: Seq<(Seq<char>, JsonVal)>, k: Seq<char>)
    requires
        map_get(core, k) is Some,
        !annotation_key(k),
    ensures
        map_get(annotations(s, core), k) == map_get(core, k),
{
    let m = s.modifiers;
    let c1 = put_opt_str(core, "description"@, opt_view(m.description));
    let c2 = match m.default {
        Some(d) => map_insert(c1, "default"@, JsonVal::Embed(d@)),
        None => c1,
    };
    let c3 = match m.example {
        Some(x) => map_insert(c2, "examples"@, JsonVal::Arr(seq![JsonVal::Embed(x@)])),
        None => c2,
    };
    let c4 = put_flag(c3, "deprecated"@, m.deprecated);
    let c5 = put_flag(c4, "readOnly"@, m.read_only);
    let c6 = put_flag(c5, "writeOnly"@, m.write_only);
    let c7 = put_opt_str(c6, "title"@, opt_view(m.title));
    let c8 = put_opt_str(c7, "contentMediaType"@, opt_view(m.mime));
    if let Some(t) = opt_view(m.description) { crate::value::law_map_insert_keeps_others(core, "description"@, jstr(t), k); }
    if let Some(d) = m.default { crate::value::law_map_insert_keeps_others(c1, "default"@, JsonVal::Embed(d@), k); }
    if let Some(x) = m.example { crate::value::law_map_insert_keeps_others(c2, "examples"@, JsonVal::Arr(seq![JsonVal::Embed(x@)]), k); }
    crate::value::law_map_insert_keeps_others(c3, "deprecated"@, JsonVal::Bool(true), k);
    crate::value::law_map_insert_keeps_others(c4, "readOnly"@, JsonVal::Bool(true), k);
    crate::value::law_map_insert_keeps_others(c5, "writeOnly"@, JsonVal::Bool(true), k);
    if let Some(t) = opt_view(m.title) { crate::value::law_map_insert_keeps_others(c6, "title"@, jstr(t), k); }
    if let Some(t) = opt_view(m.mime) { crate::value::law_map_insert_keeps_others(c7, "contentMediaType"@, jstr(t), k); }
    assert(map_get(c8, k) == map_get(core, k));
    let c9 = if map_get(c8, "format"@) is None { put_opt_str(c8, "format"@, opt_view(m.format)) } else { c8 };
    if k != "format"@ {
        if let Some(t) = opt_view(m.format) { crate::value::law_map_insert_keeps_others(c8, "format"@, jstr(t), k); }
    }
    assert(map_get(c9, k) == map_get(core, k));
    lemma_meta_keeps(c9, m.meta@, m.meta@.len() as int, k);
}

proof fn lemma_validator_keys_not_annotations()
    ensures
        !annotation_key("minLength"@), !annotation_key("maxLength"@), !annotation_key("pattern"@),
        !annotation_key("format"@), !annotation_key("minimum"@), !annotation_key("maximum"@),
        !annotation_key("type"@), !annotation_key("minItems"@), !annotation_key("maxItems"@),
{
    reveal_strlit("description");
    reveal_strlit("default");
    reveal_strlit("examples");
    reveal_strlit("deprecated");
    reveal_strlit("readOnly");
    reveal_strlit("writeOnly");
    reveal_strlit("title");
    reveal_strlit("contentMediaType");
    reveal_strlit("minLength");
    reveal_strlit("maxLength");
    reveal_strlit("pattern");
    reveal_strlit("format");
    reveal_strlit("minimum");
    reveal_strlit("maximum");
    reveal_strlit("type");
    reveal_strlit("minItems");
    reveal_strlit("maxItems");
    assert("description"@.len() == 11);
    assert("default"@.len() == 7);
    assert("examples"@.len() == 8);
    assert("deprecated"@.len() == 10);
    assert("readOnly"@.len() == 8);
    assert("writeOnly"@.len() == 9);
    assert("title"@.len() == 5);
    assert("contentMediaType"@.len() == 16);
    assert("minLength"@.len() == 9);
    assert("maxLength"@.len() == 9);
    assert("pattern"@.len() == 7);
    assert("format"@.len() == 6);
    assert("minimum"@.len() == 7);
    assert("maximum"@.len() == 7);
    assert("type"@.len() == 4);
    assert("minItems"@.len() == 8);
    assert("maxItems"@.len() == 8);
    assert("writeOnly"@[0] != "minLength"@[0]);
    assert("writeOnly"@[0] != "maxLength"@[0]);
    assert("default"@[0] != "pattern"@[0]);
    assert("default"@[0] != "minimum"@[0]);
    assert("default"@[0] != "maximum"@[0]);
    assert("examples"@[0] != "minItems"@[0]);
    assert("examples"@[0] != "maxItems"@[0]);
    assert("readOnly"@[0] != "minItems"@[0]);
    assert("readOnly"@[0] != "maxItems"@[0]);
}

/// Each validator exports as its own JSON Schema keyword and value, and the last
/// validator of a schema that is not lazy (nor nullable, which wraps it in `anyOf`)
/// stands in the export as written: `minLength`/`maxLength` with the count, `pattern`
/// with the pattern, `format: "email"` for `email()`, `format: "uuid"` for `uuid()`,
/// `minimum`/`maximum` with the bound, `type: "integer"` for `int()`, and
/// `minItems`/`maxItems` with the count.
pub proof fn law_validator_keyword_exported<H: Hooks>(h: &H, s: Schema, st: ExportState, fuel: nat)
    requires
        !(s.kind is Lazy),
        !s.modifiers.nullable,
        s.validators@.len() > 0,
    ensures
        export(h, s, st, fuel).0 matches JsonVal::Obj(m) && match s.validators@.last() {
            Validator::MinLength(n) => map_get(m, "minLength"@) == Some(JsonVal::Embed(Val::U64(n as u64))),
            Validator::MaxLength(n) => map_get(m, "maxLength"@) == Some(JsonVal::Embed(Val::U64(n as u64))),
            Validator::Pattern(p) => map_get(m, "pattern"@) == Some(JsonVal::Str(p@)),
            Validator::Email => map_get(m, "format"@) == Some(JsonVal::Str("email"@)),
            Validator::Uuid => map_get(m, "format"@) == Some(JsonVal::Str("uuid"@)),
            Validator::MinValue(b) => map_get(m, "minimum"@) == Some(bound_json(b)),
            Validator::MaxValue(b) => map_get(m, "maximum"@) == Some(bound_json(b)),
            Validator::Int => map_get(m, "type"@) == Some(JsonVal::Str("integer"@)),
            Validator::ArrayMinLength(n) => map_get(m, "minItems"@) == Some(JsonVal::Embed(Val::U64(n as u64))),
            Validator::ArrayMaxLength(n) => map_get(m, "maxItems"@) == Some(JsonVal::Embed(Val::U64(n as u64))),
        },
{
    let (base, st1) = base_schema(h, s.kind, st, fuel);
    let vs = s.validators@;
    let n = vs.len() as int;
    let core = with_validators(base, vs, n);
    let f = validator_fragment(vs[n - 1]);
    crate::value::law_map_get_after_insert(with_validators(base, vs, n - 1), f.0, f.1);
    assert(map_get(core, f.0) == Some(f.1));
    lemma_validator_keys_not_annotations();
    lemma_annotations_keep(s, core, f.0);
    assert(vs.last() == vs[n - 1]);
}

/// The same, for the document `to_json_schema_with` returns for such a schema: the last
/// validator's keyword and value stand at its root.
pub proof fn law_validator_keyword_in_document<H: Hooks>(h: &H, s: Schema, dialect: Option<Seq<char>>)
    requires
        !(s.kind is Lazy),
        !s.modifiers.nullable,
        s.validators@.len() > 0,
    ensures
        document(h, s, dialect) matches JsonVal::Obj(m) && match s.validators@.last() {
            Validator::MinLength(n) => map_get(m, "minLength"@) == Some(JsonVal::Embed(Val::U64(n as u64))),
            Validator::MaxLength(n) => map_get(m, "maxLength"@) == Some(JsonVal::Embed(Val::U64(n as u64))),
            Validator::Pattern(p) => map_get(m, "pattern"@) == Some(JsonVal::Str(p@)),
            Validator::Email => map_get(m, "format"@) == Some(JsonVal::Str("email"@)),
            Validator::Uuid => map_get(m, "format"@) == Some(JsonVal::Str("uuid"@)),
            Validator::MinValue(b) => map_get(m, "minimum"@) == Some(bound_json(b)),
            Validator::MaxValue(b) => map_get(m, "maximum"@) == Some(bound_json(b)),
            Validator::Int => map_get(m, "type"@) == Some(JsonVal::Str("integer"@)),
            Validator::ArrayMinLength(n) => map_get(m, "minItems"@) == Some(JsonVal::Embed(Val::U64(n as u64))),
            Validator::ArrayMaxLength(n) => map_get(m, "maxItems"@) == Some(JsonVal::Embed(Val::U64(n as u64))),
        },
{
    let st0 = ExportState { defs: Seq::empty(), ids: Seq::empty() };
    law_validator_keyword_exported(h, s, st0, usize::MAX as nat);
    let (root, st) = export(h, s, st0, usize::MAX as nat);
    let m = root->Obj_0;
    let k = validator_fragment(s.validators@.last()).0;
    reveal_strlit("$defs");
    reveal_strlit("$schema");
    reveal_strlit("minLength");
    reveal_strlit("maxLength");
    reveal_strlit("pattern");
    reveal_strlit("format");
    reveal_strlit("minimum");
    reveal_strlit("maximum");
    reveal_strlit("type");
    reveal_strlit("minItems");
    reveal_strlit("maxItems");
    assert(k[0] != '$');
    assert(k != "$defs"@ && k != "$schema"@);
    let m1 = if st.defs.len() > 0 { map_insert(m, "$defs"@, JsonVal::Obj(st.defs)) } else { m };
    crate::value::law_map_insert_keeps_others(m, "$defs"@, JsonVal::Obj(st.defs), k);
    if let Some(d) = dialect {
        crate::value::law_map_insert_keeps_others(m1, "$schema"@, jstr(d), k);
    }
}

proof fn lemma_members_one(k1: Seq<char>, v1: JsonVal)
    ensures
        map_get(members(seq![(k1, v1)]), k1) == Some(v1),
{
    assert(seq![(k1, v1)].drop_last() =~= Seq::<(Seq<char>, JsonVal)>::empty());
    assert(members(Seq::<(Seq<char>, JsonVal)>::empty()) == Seq::<(Seq<char>, JsonVal)>::empty());
    assert(members(seq![(k1, v1)]) == map_insert(Seq::<(Seq<char>, JsonVal)>::empty(), k1, v1));
    crate::value::law_map_get_after_insert(Seq::<(Seq<char>, JsonVal)>::empty(), k1, v1);
}

proof fn lemma_members_two(k1: Seq<char>, v1: JsonVal, k2: Seq<char>, v2: JsonVal)
    requires
        k1 != k2,
    ensures
        map_get(members(seq![(k1, v1)]), k1) == Some(v1),
        map_get(members(seq![(k1, v1), (k2, v2)]), k1) == Some(v1),
        map_get(members(seq![(k1, v1), (k2, v2)]), k2) == Some(v2),
{
    assert(seq![(k1, v1)].drop_last() =~= Seq::<(Seq<char>, JsonVal)>::empty());
    assert(seq![(k1, v1), (k2, v2)].drop_last() =~= seq![(k1, v1)]);
    assert(members(Seq::<(Seq<char>, JsonVal)>::empty()) == Seq::<(Seq<char>, JsonVal)>::empty());
    assert(members(seq![(k1, v1)]) == map_insert(Seq::<(Seq<char>, JsonVal)>::empty(), k1, v1));
    let m1 = members(seq![(k1, v1)]);
    assert(members(seq![(k1, v1), (k2, v2)]) == map_insert(m1, k2, v2));
    crate::value::law_map_get_after_insert(Seq::<(Seq<char>, JsonVal)>::empty(), k1, v1);
    crate::value::law_map_get_after_insert(m1, k2, v2);
    crate::value::law_map_insert_keeps_others(m1, k2, v2, k1);
}

proof fn lemma_export_plain<H: Hooks>(h: &H, s: Schema, st: ExportState, fuel: nat)
    requires
        !s.modifiers.nullable,
        !(s.kind is Lazy),
    ensures
        export(h, s, st, fuel).0 == JsonVal::Obj(annotations(s, with_validators(base_schema(h, s.kind, st, fuel).0, s.validators@, s.validators@.len() as int))),
{
}

proof fn lemma_marker_pair<H: Hooks>(h: &H, s: Schema, st: ExportState, fuel: nat, k1: Seq<char>, v1: JsonVal, k2: Seq<char>, v2: JsonVal)
    requires
        s.validators@.len() == 0,
        !s.modifiers.nullable,
        !(s.kind is Lazy),
        base_schema(h, s.kind, st, fuel).0 == members(seq![(k1, v1), (k2, v2)]),
        k1 != k2,
        !annotation_key(k1),
        !annotation_key(k2),
    ensures
        export(h, s, st, fuel).0 matches JsonVal::Obj(m) && map_get(m, k1) == Some(v1) && map_get(m, k2) == Some(v2),
{
    lemma_export_plain(h, s, st, fuel);
    let base = base_schema(h, s.kind, st, fuel).0;
    assert(with_validators(base, s.validators@, 0) == base);
    lemma_members_two(k1, v1, k2, v2);
    lemma_annotations_keep(s, base, k1);
    lemma_annotations_keep(s, base, k2);
}

proof fn lemma_marker_one<H: Hooks>(h: &H, s: Schema, st: ExportState, fuel: nat, k1: Seq<char>, v1: JsonVal)
    requires
        s.validators@.len() == 0,
        !s.modifiers.nullable,
        !(s.kind is Lazy),
        base_schema(h, s.kind, st, fuel).0 == members(seq![(k1, v1)]),
        !annotation_key(k1),
    ensures
        export(h, s, st, fuel).0 matches JsonVal::Obj(m) && map_get(m, k1) == Some(v1),
{
    lemma_export_plain(h, s, st, fuel);
    let base = base_schema(h, s.kind, st, fuel).0;
    assert(with_validators(base, s.validators@, 0) == base);
    lemma_members_one(k1, v1);
    lemma_annotations_keep(s, base, k1);
}

/// The type and format markers of each kind, written out: `string`, `number`, `boolean`
/// and `null` as their `type`; a buffer as `type: "string", format: "buffer"`; a URI as
/// `format: "uri"` and a URL as `format: "url"` (both strings); JSON as
/// `format: "json"`; a JSON Schema as `type: "object", format: "jsonschema"`; an array as
/// `type: "array"`. This holds for a schema without validators (which may set `type` or
/// `format` themselves) that is not nullable (which wraps it in `anyOf`).
#[verifier::spinoff_prover]
pub proof fn law_kind_markers_exported<H: Hooks>(h: &H, s: Schema, st: ExportState, fuel: nat)
    requires
        s.validators@.len() == 0,
        !s.modifiers.nullable,
        !(s.kind is Lazy),
    ensures
        export(h, s, st, fuel).0 matches JsonVal::Obj(m) && match s.kind {
            SchemaKind::String => map_get(m, "type"@) == Some(JsonVal::Str("string"@)),
            SchemaKind::Number => map_get(m, "type"@) == Some(JsonVal::Str("number"@)),
            SchemaKind::Boolean => map_get(m, "type"@) == Some(JsonVal::Str("boolean"@)),
            SchemaKind::Null => map_get(m, "type"@) == Some(JsonVal::Str("null"@)),
            SchemaKind::Buffer => map_get(m, "type"@) == Some(JsonVal::Str("string"@))
                && map_get(m, "format"@) == Some(JsonVal::Str("buffer"@)),
            SchemaKind::Uri => map_get(m, "type"@) == Some(JsonVal::Str("string"@))
                && map_get(m, "format"@) == Some(JsonVal::Str("uri"@)),
            SchemaKind::Url => map_get(m, "type"@) == Some(JsonVal::Str("string"@))
                && map_get(m, "format"@) == Some(JsonVal::Str("url"@)),
            SchemaKind::Json => map_get(m, "format"@) == Some(JsonVal::Str("json"@)),
            SchemaKind::JsonSchema => map_get(m, "type"@) == Some(JsonVal::Str("object"@))
                && map_get(m, "format"@) == Some(JsonVal::Str("jsonschema"@)),
            SchemaKind::Array(_) => map_get(m, "type"@) == Some(JsonVal::Str("array"@)),
            _ => true,
        },
{
    lemma_validator_keys_not_annotations();
    reveal_strlit("type");
    reveal_strlit("format");
    reveal_strlit("items");
    assert("type"@.len() == 4 && "format"@.len() == 6 && "items"@.len() == 5);
    let t = "type"@;
    let f = "format"@;
    match s.kind {
        SchemaKind::Buffer => { lemma_marker_pair(h, s, st, fuel, t, jstr("string"@), f, jstr("buffer"@)); },
        SchemaKind::Uri => { lemma_marker_pair(h, s, st, fuel, t, jstr("string"@), f, jstr("uri"@)); },
        SchemaKind::Url => { lemma_marker_pair(h, s, st, fuel, t, jstr("string"@), f, jstr("url"@)); },
        SchemaKind::JsonSchema => { lemma_marker_pair(h, s, st, fuel, t, jstr("object"@), f, jstr("jsonschema"@)); },
        SchemaKind::Array(item) => {
            let x = export(h, *item, st, fuel).0;
            assert(!annotation_key("items"@)) by {
                reveal_strlit("description");
                reveal_strlit("default");
                reveal_strlit("examples");
                reveal_strlit("deprecated");
                reveal_strlit("readOnly");
                reveal_strlit("writeOnly");
                reveal_strlit("title");
                reveal_strlit("contentMediaType");
                assert("title"@.len() == 5 && "title"@[0] != "items"@[0]);
                assert("description"@.len() == 11 && "default"@.len() == 7 && "examples"@.len() == 8);
                assert("deprecated"@.len() == 10 && "readOnly"@.len() == 8 && "writeOnly"@.len() == 9);
                assert("contentMediaType"@.len() == 16);
            }
            lemma_marker_pair(h, s, st, fuel, t, jstr("array"@), "items"@, x);
        },
        SchemaKind::Json => { lemma_marker_one(h, s, st, fuel, f, jstr("json"@)); },
        SchemaKind::String => { lemma_marker_one(h, s, st, fuel, t, jstr("string"@)); },
        SchemaKind::Number => { lemma_marker_one(h, s, st, fuel, t, jstr("number"@)); },
        SchemaKind::Boolean => { lemma_marker_one(h, s, st, fuel, t, jstr("boolean"@)); },
        SchemaKind::Null => { lemma_marker_one(h, s, st, fuel, t, jstr("null"@)); },
        _ => {},
    }
}

} // verus!
