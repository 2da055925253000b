//! Schema-directed validation of Lua data values: the schema decides how a Lua table
//! and a Lua byte string are read before the result is validated.
use vstd::prelude::*;
use vstd::utf8::{valid_utf8, decode_utf8, encode_utf8};
use vstd::string::StringSliceAdditionalSpecFns;
use crate::error::{ZerxError, ErrorCode, ErrorView, error_view, errors_view, strings_view, ev_new, ev_prefix, ev_union};
use crate::value::{Float, ZerxValue, Val, ObjectMap, map_get, map_insert, values_view, lemma_array_view, lemma_object_view};
use crate::schema::{Schema, SchemaKind, Hooks, ObjectBody, ObjectMode, DiscriminatedUnionBody, DiscriminatorState, ParseContext, MAX_PARSE_DEPTH};
use crate::semantics::{sem_present, depth_exceeded, fuel, prestrip, shape_has, strs, DKey, dkey_lookup};
use crate::parse::{value_result_is, effective_prestrip, strings_contain, shape_has_key, lookup_key};
use crate::schema::DiscriminantKey;
use crate::delta::{resolved, resolve_chain};
use crate::text::{owned, concat, usize_to_string, decimal};

verus! {

/// A Lua data value: what a sandboxed Lua runtime hands over at its boundary.
pub enum LuaValue {
    Nil,
    Boolean(bool),
    Integer(i64),
    Float(Float),
    Bytes(Vec<u8>),
    Table(LuaTable),
}

/// A Lua table: its sequence part and its hash part (in the order the host listed it).
pub struct LuaTable {
    pub array: Vec<LuaValue>,
    pub hash: Vec<(LuaValue, LuaValue)>,
}

/// The mathematical content of a [`LuaValue`].
pub enum LuaVal {
    Nil,
    Boolean(bool),
    Integer(i64),
    Float(u64, Seq<char>),
    Bytes(Seq<u8>),
    Table(Seq<LuaVal>, Seq<(LuaVal, LuaVal)>),
}

pub open spec fn lua_view(l: LuaValue) -> LuaVal
    decreases l,
{
    match l {
        LuaValue::Nil => LuaVal::Nil,
        LuaValue::Boolean(b) => LuaVal::Boolean(b),
        LuaValue::Integer(n) => LuaVal::Integer(n),
        LuaValue::Float(f) => LuaVal::Float(f.bits, f.text@),
        LuaValue::Bytes(b) => LuaVal::Bytes(b@),
        LuaValue::Table(t) => LuaVal::Table(
            Seq::new(
                t.array@.len(),
                |i: int| if 0 <= i < t.array@.len() { lua_view(t.array@[i]) } else { LuaVal::Nil },
            ),
            Seq::new(
                t.hash@.len(),
                |i: int|
                    if 0 <= i < t.hash@.len() {
                        (lua_view(t.hash@[i].0), lua_view(t.hash@[i].1))
                    } else {
                        (LuaVal::Nil, LuaVal::Nil)
                    },
            ),
        ),
    }
}

impl View for LuaValue {
    type V = LuaVal;

    open spec fn view(&self) -> LuaVal {
        lua_view(*self)
    }
}

pub open spec fn lua_seq(a: Seq<LuaValue>) -> Seq<LuaVal> {
    Seq::new(a.len(), |i: int| lua_view(a[i]))
}

pub open spec fn lua_pairs(h: Seq<(LuaValue, LuaValue)>) -> Seq<(LuaVal, LuaVal)> {
    Seq::new(h.len(), |i: int| (lua_view(h[i].0), lua_view(h[i].1)))
}

pub proof fn lemma_table_view(t: LuaTable)
    ensures
        lua_view(LuaValue::Table(t)) == LuaVal::Table(lua_seq(t.array@), lua_pairs(t.hash@)),
{
    let v = lua_view(LuaValue::Table(t));
    if let LuaVal::Table(a, h) = v {
        assert(a =~= lua_seq(t.array@));
        assert(h =~= lua_pairs(t.hash@));
    }
}

// ---------------------------------------------------------------------------
// Conversions that ignore the schema
// ---------------------------------------------------------------------------

pub open spec fn lua_type_name(l: LuaVal) -> Seq<char> {
    match l {
        LuaVal::Nil => "nil"@,
        LuaVal::Boolean(_) => "boolean"@,
        LuaVal::Integer(_) => "integer"@,
        LuaVal::Float(_, _) => "float"@,
        LuaVal::Bytes(_) => "bytes"@,
        LuaVal::Table(_, _) => "table"@,
    }
}

/// A byte string read as text when it is valid UTF-8, else kept as bytes.
pub open spec fn bytes_val(b: Seq<u8>) -> Val {
    if valid_utf8(b) { Val::Str(decode_utf8(b)) } else { Val::Bytes(b) }
}

/// The value a Lua scalar maps to, bytes kept raw.
pub open spec fn base_val(l: LuaVal) -> Val {
    match l {
        LuaVal::Nil => Val::Null,
        LuaVal::Boolean(b) => Val::Bool(b),
        LuaVal::Integer(n) => Val::I64(n),
        LuaVal::Float(b, t) => Val::F64(b, t),
        LuaVal::Bytes(b) => Val::Bytes(b),
        LuaVal::Table(_, _) => Val::Null,
    }
}

pub open spec fn lua_error(code: Seq<char>, message: Seq<char>) -> ErrorView {
    ev_new(code, message)
}

/// A hash key as an object key: it must be a byte string holding valid UTF-8.
pub open spec fn key_of(k: LuaVal) -> Result<Seq<char>, ErrorView> {
    match k {
        LuaVal::Bytes(b) => if valid_utf8(b) {
            Ok(decode_utf8(b))
        } else {
            Err(lua_error("lua_invalid_key"@, "hash key is not valid UTF-8 (len="@ + decimal(b.len()) + ")"@))
        },
        _ => Err(lua_error("lua_invalid_key"@, "hash key must be a UTF-8 byte string, got "@ + lua_type_name(k))),
    }
}

/// The value a Lua value maps to without a schema: a hash-only table becomes an
/// object, any other table without a hash part an array (so the empty table is the
/// empty array), a table with both parts is an error.
pub open spec fn free_val(l: LuaVal) -> Result<Val, ErrorView>
    decreases l, 0int,
{
    match l {
        LuaVal::Bytes(b) => Ok(bytes_val(b)),
        LuaVal::Table(arr, hash) => if arr.len() > 0 && hash.len() > 0 {
            Err(lua_error(
                "lua_shape_mismatch"@,
                "mixed table (non-empty array and hash parts) cannot be represented as a single value"@,
            ))
        } else if hash.len() > 0 {
            match free_hash(hash, hash.len() as int) {
                Ok(m) => Ok(Val::Obj(m)),
                Err(e) => Err(e),
            }
        } else {
            match free_arr(arr, arr.len() as int) {
                Ok(a) => Ok(Val::Arr(a)),
                Err(e) => Err(e),
            }
        },
        _ => Ok(base_val(l)),
    }
}

pub open spec fn free_arr(arr: Seq<LuaVal>, n: int) -> Result<Seq<Val>, ErrorView>
    decreases arr, n,
{
    if n <= 0 || n > arr.len() {
        Ok(Seq::empty())
    } else {
        match free_arr(arr, n - 1) {
            Err(e) => Err(e),
            Ok(acc) => {
                proof {
                    assert(decreases_to!(arr => arr[n - 1]));
                }
                match free_val(arr[n - 1]) {
                    Ok(v) => Ok(acc.push(v)),
                    Err(e) => Err(ev_prefix(e, decimal((n - 1) as nat))),
                }
            },
        }
    }
}

pub open spec fn free_hash(hash: Seq<(LuaVal, LuaVal)>, n: int) -> Result<Seq<(Seq<char>, Val)>, ErrorView>
    decreases hash, n,
{
    if n <= 0 || n > hash.len() {
        Ok(Seq::empty())
    } else {
        match free_hash(hash, n - 1) {
            Err(e) => Err(e),
            Ok(acc) => match key_of(hash[n - 1].0) {
                Err(e) => Err(ev_prefix(e, decimal((n - 1) as nat))),
                Ok(k) => {
                    proof {
                        assert(decreases_to!(hash => hash[n - 1]));
                        assert(decreases_to!(hash[n - 1] => hash[n - 1].1));
                    }
                    match free_val(hash[n - 1].1) {
                        Ok(v) => Ok(map_insert(acc, k, v)),
                        Err(e) => Err(ev_prefix(e, k)),
                    }
                },
            },
        }
    }
}

/// The hash keys of a table decoded in order, with the values they hold.
pub open spec fn decode_keys(hash: Seq<(LuaVal, LuaVal)>, n: int) -> Result<Seq<(Seq<char>, LuaVal)>, ErrorView>
    decreases n,
{
    if n <= 0 {
        Ok(Seq::empty())
    } else {
        match decode_keys(hash, n - 1) {
            Err(e) => Err(e),
            Ok(acc) => match key_of(hash[n - 1].0) {
                Err(e) => Err(ev_prefix(e, decimal((n - 1) as nat))),
                Ok(k) => Ok(acc.push((k, hash[n - 1].1))),
            },
        }
    }
}

/// The value under the first byte-string hash key equal to `kb`.
pub open spec fn lua_find(hash: Seq<(LuaVal, LuaVal)>, kb: Seq<u8>) -> Option<LuaVal>
    decreases hash.len(),
{
    if hash.len() == 0 {
        None
    } else if hash[0].0 == LuaVal::Bytes(kb) {
        Some(hash[0].1)
    } else {
        lua_find(hash.drop_first(), kb)
    }
}

/// The discriminator key a Lua value provides, with the value that stands for it in the
/// converted object.
pub open spec fn lua_dkey(v: LuaVal) -> (Option<DKey>, Val) {
    match v {
        LuaVal::Boolean(b) => (Some(DKey::Bool(b)), Val::Bool(b)),
        LuaVal::Integer(n) => (Some(DKey::Int(n as int)), Val::I64(n)),
        LuaVal::Bytes(b) => if valid_utf8(b) {
            (Some(DKey::Str(decode_utf8(b))), Val::Str(decode_utf8(b)))
        } else {
            (None, Val::Null)
        },
        _ => (None, Val::Null),
    }
}

// ---------------------------------------------------------------------------
// The schema-directed conversion
// ---------------------------------------------------------------------------

/// Strings and their kin: byte strings are read as text when they can be.
pub open spec fn string_family(l: LuaVal) -> Result<Val, ErrorView> {
    match l {
        LuaVal::Bytes(b) => Ok(bytes_val(b)),
        LuaVal::Table(_, _) => free_val(l),
        _ => Ok(base_val(l)),
    }
}

/// Scalars: tables are converted freely (and then fail the type check).
pub open spec fn scalar_family(l: LuaVal) -> Result<Val, ErrorView> {
    match l {
        LuaVal::Table(_, _) => free_val(l),
        _ => Ok(base_val(l)),
    }
}

/// Converting `l` for schema `s` at nesting `depth`: lazy layers first, then the depth
/// guard, then the kind-directed step.
pub open spec fn lua_trans<H: Hooks>(h: &H, s: Schema, l: LuaVal, depth: int) -> Result<Val, ErrorView>
    decreases fuel(depth), 0int, 0int,
{
    match resolved(h, s, usize::MAX as nat) {
        Err(e) => Err(e),
        Ok(r) => if depth + 1 > MAX_PARSE_DEPTH {
            Err(depth_exceeded())
        } else {
            lua_inner(h, r, l, depth + 1)
        },
    }
}

pub open spec fn lua_inner<H: Hooks>(h: &H, s: Schema, l: LuaVal, d: int) -> Result<Val, ErrorView>
    decreases fuel(d), 2int, 0int,
{
    match s.kind {
        SchemaKind::String | SchemaKind::Enum(_) | SchemaKind::Uri | SchemaKind::Url => string_family(l),
        SchemaKind::Literal(c) => if c@ is Str { string_family(l) } else { scalar_family(l) },
        SchemaKind::Buffer => match l {
            LuaVal::Bytes(b) => Ok(Val::Bytes(b)),
            _ => scalar_family(l),
        },
        SchemaKind::Any | SchemaKind::Json | SchemaKind::JsonSchema => free_val(l),
        SchemaKind::Number | SchemaKind::Boolean | SchemaKind::Null => scalar_family(l),
        SchemaKind::Array(item) => match l {
            LuaVal::Table(arr, hash) => if hash.len() > 0 {
                Err(lua_error("lua_shape_mismatch"@, "table has a hash part; expected a pure sequence for array"@))
            } else {
                match lua_arr(h, *item, arr, arr.len() as int, d) {
                    Ok(out) => Ok(Val::Arr(out)),
                    Err(e) => Err(e),
                }
            },
            _ => Ok(base_val(l)),
        },
        SchemaKind::Tuple(items) => match l {
            LuaVal::Table(arr, hash) => if hash.len() > 0 {
                Err(lua_error("lua_shape_mismatch"@, "table has a hash part; expected a pure sequence for tuple"@))
            } else if arr.len() != items@.len() {
                Ok(Val::Arr(Seq::new(arr.len(), |i: int| Val::Null)))
            } else {
                match lua_tuple(h, items@, arr, arr.len() as int, d) {
                    Ok(out) => Ok(Val::Arr(out)),
                    Err(e) => Err(e),
                }
            },
            _ => Ok(base_val(l)),
        },
        SchemaKind::Record(vs) => match l {
            LuaVal::Table(arr, hash) => if arr.len() > 0 {
                Err(lua_error("lua_shape_mismatch"@, "table has an array part; expected a pure hash for record"@))
            } else {
                match decode_keys(hash, hash.len() as int) {
                    Err(e) => Err(e),
                    Ok(dec) => match lua_record(h, *vs, dec, dec.len() as int, d) {
                        Ok(m) => Ok(Val::Obj(m)),
                        Err(e) => Err(e),
                    },
                }
            },
            _ => Ok(base_val(l)),
        },
        SchemaKind::Object(body) => match l {
            LuaVal::Table(arr, hash) => if arr.len() > 0 {
                Err(lua_error("lua_shape_mismatch"@, "table has an array part; expected a pure hash for object"@))
            } else {
                match decode_keys(hash, hash.len() as int) {
                    Err(e) => Err(e),
                    Ok(dec) => lua_object(h, body, dec, d),
                }
            },
            _ => Ok(base_val(l)),
        },
        SchemaKind::Union(variants) => match lua_union(h, variants@, l, variants@.len() as int, d) {
            Ok(t) => Ok(t),
            Err(errs) => Err(ev_union(Seq::empty(), errs)),
        },
        SchemaKind::DiscriminatedUnion(body) => match l {
            LuaVal::Table(_, hash) => lua_disc(h, body, l, hash, d),
            _ => Ok(base_val(l)),
        },
        SchemaKind::Lazy(_) => Ok(Val::Null),
    }
}

pub open spec fn lua_arr<H: Hooks>(h: &H, item: Schema, arr: Seq<LuaVal>, n: int, d: int) -> Result<Seq<Val>, ErrorView>
    decreases fuel(d), 1int, n,
{
    if n <= 0 {
        Ok(Seq::empty())
    } else {
        match lua_arr(h, item, arr, n - 1, d) {
            Err(e) => Err(e),
            Ok(acc) => match lua_trans(h, item, arr[n - 1], d) {
                Ok(v) => Ok(acc.push(v)),
                Err(e) => Err(ev_prefix(e, decimal((n - 1) as nat))),
            },
        }
    }
}

pub open spec fn lua_tuple<H: Hooks>(h: &H, items: Seq<Schema>, arr: Seq<LuaVal>, n: int, d: int) -> Result<Seq<Val>, ErrorView>
    decreases fuel(d), 1int, n,
{
    if n <= 0 {
        Ok(Seq::empty())
    } else {
        match lua_tuple(h, items, arr, n - 1, d) {
            Err(e) => Err(e),
            Ok(acc) => match lua_trans(h, items[n - 1], arr[n - 1], d) {
                Ok(v) => Ok(acc.push(v)),
                Err(e) => Err(ev_prefix(e, decimal((n - 1) as nat))),
            },
        }
    }
}

pub open spec fn lua_record<H: Hooks>(h: &H, vs: Schema, dec: Seq<(Seq<char>, LuaVal)>, n: int, d: int) -> Result<Seq<(Seq<char>, Val)>, ErrorView>
    decreases fuel(d), 1int, n,
{
    if n <= 0 {
        Ok(Seq::empty())
    } else {
        match lua_record(h, vs, dec, n - 1, d) {
            Err(e) => Err(e),
            Ok(acc) => match lua_trans(h, vs, dec[n - 1].1, d) {
                Ok(v) => Ok(map_insert(acc, dec[n - 1].0, v)),
                Err(e) => Err(ev_prefix(e, dec[n - 1].0)),
            },
        }
    }
}

/// Whether a decoded key is neither stripped nor named by the shape.
pub open spec fn lua_unknown(body: ObjectBody, k: Seq<char>) -> bool {
    !prestrip(body).contains(k) && !shape_has(body.shape@, k)
}

/// Every decoded key, each holding null.
pub open spec fn null_keys(dec: Seq<(Seq<char>, LuaVal)>, n: int) -> Seq<(Seq<char>, Val)>
    decreases n,
{
    if n <= 0 {
        Seq::empty()
    } else {
        map_insert(null_keys(dec, n - 1), dec[n - 1].0, Val::Null)
    }
}

/// The first `n` shape fields converted, in shape order; stripped and absent fields
/// are skipped.
pub open spec fn lua_fields<H: Hooks>(h: &H, body: ObjectBody, dec: Seq<(Seq<char>, LuaVal)>, n: int, d: int) -> Result<Seq<(Seq<char>, Val)>, ErrorView>
    decreases fuel(d), 1int, n,
{
    if n <= 0 {
        Ok(Seq::empty())
    } else {
        match lua_fields(h, body, dec, n - 1, d) {
            Err(e) => Err(e),
            Ok(acc) => {
                let key = body.shape@[n - 1].0@;
                if prestrip(body).contains(key) {
                    Ok(acc)
                } else {
                    match map_get(dec, key) {
                        None => Ok(acc),
                        Some(lv) => match lua_trans(h, body.shape@[n - 1].1, lv, d) {
                            Ok(v) => Ok(map_insert(acc, key, v)),
                            Err(e) => Err(ev_prefix(e, key)),
                        },
                    }
                }
            },
        }
    }
}

/// `acc` with the unknown decoded entries among the first `n` added, converted freely.
pub open spec fn lua_extra(body: ObjectBody, dec: Seq<(Seq<char>, LuaVal)>, acc: Seq<(Seq<char>, Val)>, n: int) -> Result<Seq<(Seq<char>, Val)>, ErrorView>
    decreases n,
{
    if n <= 0 {
        Ok(acc)
    } else {
        match lua_extra(body, dec, acc, n - 1) {
            Err(e) => Err(e),
            Ok(prev) => if lua_unknown(body, dec[n - 1].0) {
                match free_val(dec[n - 1].1) {
                    Ok(v) => Ok(map_insert(prev, dec[n - 1].0, v)),
                    Err(e) => Err(ev_prefix(e, dec[n - 1].0)),
                }
            } else {
                Ok(prev)
            },
        }
    }
}

/// An object: in strict mode an unknown key turns the whole table into an object of
/// nulls (so that validation reports the unknown key before any field error); else the
/// known fields are converted, and in passthrough mode the unknown ones too.
pub open spec fn lua_object<H: Hooks>(h: &H, body: ObjectBody, dec: Seq<(Seq<char>, LuaVal)>, d: int) -> Result<Val, ErrorView>
    decreases fuel(d), 1int, body.shape@.len() + 1,
{
    if body.mode is Strict && exists|i: int| 0 <= i < dec.len() && lua_unknown(body, (#[trigger] dec[i]).0) {
        Ok(Val::Obj(null_keys(dec, dec.len() as int)))
    } else {
        match lua_fields(h, body, dec, body.shape@.len() as int, d) {
            Err(e) => Err(e),
            Ok(acc) => if body.mode is Passthrough {
                match lua_extra(body, dec, acc, dec.len() as int) {
                    Ok(m) => Ok(Val::Obj(m)),
                    Err(e) => Err(e),
                }
            } else {
                Ok(Val::Obj(acc))
            },
        }
    }
}

/// A union: the first variant whose conversion succeeds and whose validation of the
/// converted value succeeds gives the converted value; else every error, in order.
pub open spec fn lua_union<H: Hooks>(h: &H, variants: Seq<Schema>, l: LuaVal, n: int, d: int) -> Result<Val, Seq<ErrorView>>
    decreases fuel(d), 1int, n,
{
    if n <= 0 {
        Err(Seq::empty())
    } else {
        match lua_union(h, variants, l, n - 1, d) {
            Ok(t) => Ok(t),
            Err(errs) => match lua_trans(h, variants[n - 1], l, d) {
                Ok(t) => match sem_present(h, variants[n - 1], t, 0) {
                    Ok(_) => Ok(t),
                    Err(e) => Err(errs.push(e)),
                },
                Err(e) => Err(errs.push(e)),
            },
        }
    }
}

/// A discriminated union: the discriminator picks the variant the whole table is
/// converted for; when it cannot, a stand-in object lets validation report why.
pub open spec fn lua_disc<H: Hooks>(h: &H, body: DiscriminatedUnionBody, l: LuaVal, hash: Seq<(LuaVal, LuaVal)>, d: int) -> Result<Val, ErrorView>
    decreases fuel(d), 1int, 0int,
{
    match body.state {
        DiscriminatorState::Invalid(_) => Ok(Val::Obj(Seq::empty())),
        DiscriminatorState::Valid { entries, .. } => match lua_find(hash, encode_utf8(body.key@)) {
            None => Ok(Val::Obj(Seq::empty())),
            Some(dv) => {
                let stand_in = Val::Obj(map_insert(Seq::empty(), body.key@, lua_dkey(dv).1));
                match lua_dkey(dv).0 {
                    None => Ok(stand_in),
                    Some(k) => match dkey_lookup(entries@, k) {
                        Some(i) => if i < body.variants@.len() {
                            lua_trans(h, body.variants@[i as int], l, d)
                        } else {
                            Ok(stand_in)
                        },
                        None => Ok(stand_in),
                    },
                }
            },
        },
    }
}

/// What `validate_lua` yields: the schema-directed conversion, then validation.
pub open spec fn lua_result<H: Hooks>(h: &H, s: Schema, l: LuaVal) -> Result<Val, ErrorView> {
    match lua_trans(h, s, l, 0) {
        Err(e) => Err(e),
        Ok(t) => sem_present(h, s, t, 0),
    }
}

// ---------------------------------------------------------------------------
// Fold lemmas
// ---------------------------------------------------------------------------

proof fn lemma_free_arr_err(arr: Seq<LuaVal>, i: int, n: int)
    requires
        1 <= i <= n <= arr.len(),
        free_arr(arr, i) is Err,
    ensures
        free_arr(arr, n) == free_arr(arr, i),
    decreases n - i,
{
    if n > i {
        lemma_free_arr_err(arr, i, n - 1);
    }
}

proof fn lemma_free_hash_err(hash: Seq<(LuaVal, LuaVal)>, i: int, n: int)
    requires
        1 <= i <= n <= hash.len(),
        free_hash(hash, i) is Err,
    ensures
        free_hash(hash, n) == free_hash(hash, i),
    decreases n - i,
{
    if n > i {
        lemma_free_hash_err(hash, i, n - 1);
    }
}

proof fn lemma_decode_err(hash: Seq<(LuaVal, LuaVal)>, i: int, n: int)
    requires
        1 <= i <= n,
        decode_keys(hash, i) is Err,
    ensures
        decode_keys(hash, n) == decode_keys(hash, i),
    decreases n - i,
{
    if n > i {
        lemma_decode_err(hash, i, n - 1);
    }
}

proof fn lemma_lua_arr_err<H: Hooks>(h: &H, item: Schema, arr: Seq<LuaVal>, i: int, n: int, d: int)
    requires
        1 <= i <= n,
        lua_arr(h, item, arr, i, d) is Err,
    ensures
        lua_arr(h, item, arr, n, d) == lua_arr(h, item, arr, i, d),
    decreases n - i,
{
    if n > i {
        lemma_lua_arr_err(h, item, arr, i, n - 1, d);
    }
}

proof fn lemma_lua_tuple_err<H: Hooks>(h: &H, items: Seq<Schema>, arr: Seq<LuaVal>, i: int, n: int, d: int)
    requires
        1 <= i <= n,
        lua_tuple(h, items, arr, i, d) is Err,
    ensures
        lua_tuple(h, items, arr, n, d) == lua_tuple(h, items, arr, i, d),
    decreases n - i,
{
    if n > i {
        lemma_lua_tuple_err(h, items, arr, i, n - 1, d);
    }
}

proof fn lemma_lua_record_err<H: Hooks>(h: &H, vs: Schema, dec: Seq<(Seq<char>, LuaVal)>, i: int, n: int, d: int)
    requires
        1 <= i <= n,
        lua_record(h, vs, dec, i, d) is Err,
    ensures
        lua_record(h, vs, dec, n, d) == lua_record(h, vs, dec, i, d),
    decreases n - i,
{
    if n > i {
        lemma_lua_record_err(h, vs, dec, i, n - 1, d);
    }
}

proof fn lemma_lua_fields_err<H: Hooks>(h: &H, body: ObjectBody, dec: Seq<(Seq<char>, LuaVal)>, i: int, n: int, d: int)
    requires
        1 <= i <= n,
        lua_fields(h, body, dec, i, d) is Err,
    ensures
        lua_fields(h, body, dec, n, d) == lua_fields(h, body, dec, i, d),
    decreases n - i,
{
    if n > i {
        lemma_lua_fields_err(h, body, dec, i, n - 1, d);
    }
}

proof fn lemma_lua_extra_err(body: ObjectBody, dec: Seq<(Seq<char>, LuaVal)>, acc: Seq<(Seq<char>, Val)>, i: int, n: int)
    requires
        1 <= i <= n,
        lua_extra(body, dec, acc, i) is Err,
    ensures
        lua_extra(body, dec, acc, n) == lua_extra(body, dec, acc, i),
    decreases n - i,
{
    if n > i {
        lemma_lua_extra_err(body, dec, acc, i, n - 1);
    }
}

proof fn lemma_lua_union_ok<H: Hooks>(h: &H, variants: Seq<Schema>, l: LuaVal, i: int, n: int, d: int)
    requires
        1 <= i <= n,
        lua_union(h, variants, l, i, d) is Ok,
    ensures
        lua_union(h, variants, l, n, d) == lua_union(h, variants, l, i, d),
    decreases n - i,
{
    if n > i {
        lemma_lua_union_ok(h, variants, l, i, n - 1, d);
    }
}

// ---------------------------------------------------------------------------
// Conversions that ignore the schema
// ---------------------------------------------------------------------------

/// The text a byte string encodes, when it is valid UTF-8 (`std::str::from_utf8`: the
/// result is `Ok` exactly for valid UTF-8, and the string it gives has those bytes).
#[verifier::external_body]
fn utf8_text(b: &[u8]) -> (r: Option<String>)
    ensures
        match r {
            Some(s) => encode_utf8(s@) == b@,
            None => !valid_utf8(b@),
        },
{
    match std::str::from_utf8(b) {
        Ok(s) => Some(s.to_owned()),
        Err(_) => None,
    }
}

/// The text a byte string encodes, or `None` when it is not valid UTF-8.
fn decode_text(b: &Vec<u8>) -> (r: Option<String>)
    ensures
        match r {
            Some(s) => valid_utf8(b@) && s@ == decode_utf8(b@),
            None => !valid_utf8(b@),
        },
{
    match utf8_text(b.as_slice()) {
        Some(s) => {
            proof {
                vstd::utf8::encode_utf8_valid_utf8(s@);
                vstd::utf8::encode_utf8_decode_utf8(s@);
            }
            Some(s)
        },
        None => None,
    }
}

fn lua_type_name_of(l: &LuaValue) -> (r: &'static str)
    ensures
        r@ == lua_type_name(l@),
{
    match l {
        LuaValue::Nil => "nil",
        LuaValue::Boolean(_) => "boolean",
        LuaValue::Integer(_) => "integer",
        LuaValue::Float(_) => "float",
        LuaValue::Bytes(_) => "bytes",
        LuaValue::Table(_) => "table",
    }
}

fn bytes_to_value(b: &Vec<u8>) -> (r: ZerxValue)
    ensures
        r@ == bytes_val(b@),
{
    match decode_text(b) {
        Some(s) => ZerxValue::String(s),
        None => ZerxValue::Bytes(b.clone()),
    }
}

fn base_convert(l: &LuaValue) -> (r: ZerxValue)
    ensures
        r@ == base_val(l@),
{
    match l {
        LuaValue::Nil => ZerxValue::Null,
        LuaValue::Boolean(b) => ZerxValue::Bool(*b),
        LuaValue::Integer(n) => ZerxValue::I64(*n),
        LuaValue::Float(f) => ZerxValue::F64(f.clone()),
        LuaValue::Bytes(b) => ZerxValue::Bytes(b.clone()),
        LuaValue::Table(_) => ZerxValue::Null,
    }
}

fn decode_key(k: &LuaValue) -> (r: Result<String, ZerxError>)
    ensures
        match (r, key_of(k@)) {
            (Ok(s), Ok(t)) => s@ == t,
            (Err(e), Err(ev)) => error_view(e) == ev,
            _ => false,
        },
{
    match k {
        LuaValue::Bytes(b) => match decode_text(b) {
            Some(s) => Ok(s),
            None => {
                let m1 = concat("hash key is not valid UTF-8 (len=", usize_to_string(b.len()).as_str());
                Err(ZerxError::new(ErrorCode::LUA_INVALID_KEY(), concat(m1.as_str(), ")")))
            },
        },
        _ => Err(ZerxError::new(
            ErrorCode::LUA_INVALID_KEY(),
            concat("hash key must be a UTF-8 byte string, got ", lua_type_name_of(k)),
        )),
    }
}

fn free_convert(l: &LuaValue) -> (r: Result<ZerxValue, ZerxError>)
    ensures
        value_result_is(r, free_val(l@)),
    decreases l,
{
    match l {
        LuaValue::Bytes(b) => Ok(bytes_to_value(b)),
        LuaValue::Table(t) => {
            proof {
                lemma_table_view(*t);
            }
            if t.array.len() > 0 && t.hash.len() > 0 {
                return Err(ZerxError::new(
                    ErrorCode::LUA_SHAPE_MISMATCH(),
                    owned("mixed table (non-empty array and hash parts) cannot be represented as a single value"),
                ));
            }
            if t.hash.len() > 0 {
                match free_hash_entries(&t.hash) {
                    Ok(m) => {
                        proof {
                            lemma_object_view(m);
                        }
                        Ok(ZerxValue::Object(m))
                    },
                    Err(e) => Err(e),
                }
            } else {
                match free_array_items(&t.array) {
                    Ok(a) => {
                        proof {
                            lemma_array_view(a);
                        }
                        Ok(ZerxValue::Array(a))
                    },
                    Err(e) => Err(e),
                }
            }
        },
        _ => Ok(base_convert(l)),
    }
}

fn free_array_items(arr: &Vec<LuaValue>) -> (r: Result<Vec<ZerxValue>, ZerxError>)
    ensures
        match (r, free_arr(lua_seq(arr@), arr@.len() as int)) {
            (Ok(v), Ok(w)) => values_view(v@) == w,
            (Err(e), Err(ev)) => error_view(e) == ev,
            _ => false,
        },
    decreases arr,
{
    let ghost sv = lua_seq(arr@);
    let mut out: Vec<ZerxValue> = Vec::new();
    proof {
        assert(values_view(out@) =~= Seq::<Val>::empty());
    }
    let mut i: usize = 0;
    while i < arr.len()
        invariant
            i <= arr@.len(),
            sv == lua_seq(arr@),
            free_arr(sv, i as int) == Ok::<Seq<Val>, ErrorView>(values_view(out@)),
        decreases arr.len() - i,
    {
        assert(decreases_to!(arr => arr@[i as int]));
        match free_convert(&arr[i]) {
            Ok(v) => {
                let ghost prev = out@;
                out.push(v);
                proof {
                    assert(values_view(out@) =~= values_view(prev).push(v@));
                }
            },
            Err(e) => {
                proof {
                    lemma_free_arr_err(sv, (i + 1) as int, arr@.len() as int);
                }
                return Err(e.prefixed(usize_to_string(i)));
            },
        }
        i += 1;
    }
    Ok(out)
}

fn free_hash_entries(hash: &Vec<(LuaValue, LuaValue)>) -> (r: Result<ObjectMap, ZerxError>)
    ensures
        match (r, free_hash(lua_pairs(hash@), hash@.len() as int)) {
            (Ok(m), Ok(w)) => m@ == w,
            (Err(e), Err(ev)) => error_view(e) == ev,
            _ => false,
        },
    decreases hash,
{
    let ghost sv = lua_pairs(hash@);
    let mut out = ObjectMap::new();
    let mut i: usize = 0;
    while i < hash.len()
        invariant
            i <= hash@.len(),
            sv == lua_pairs(hash@),
            free_hash(sv, i as int) == Ok::<Seq<(Seq<char>, Val)>, ErrorView>(out@),
        decreases hash.len() - i,
    {
        let key = match decode_key(&hash[i].0) {
            Ok(k) => k,
            Err(e) => {
                proof {
                    lemma_free_hash_err(sv, (i + 1) as int, hash@.len() as int);
                }
                return Err(e.prefixed(usize_to_string(i)));
            },
        };
        assert(decreases_to!(hash => hash@[i as int]));
        assert(decreases_to!(hash@[i as int] => hash@[i as int].1));
        match free_convert(&hash[i].1) {
            Ok(v) => {
                out.insert(key, v);
            },
            Err(e) => {
                proof {
                    lemma_free_hash_err(sv, (i + 1) as int, hash@.len() as int);
                }
                return Err(e.prefixed(key));
            },
        }
        i += 1;
    }
    Ok(out)
}

// ---------------------------------------------------------------------------
// The schema-directed conversion
// ---------------------------------------------------------------------------

/// Decoded hash keys with the values they hold.
pub open spec fn decoded_view(keys: Seq<String>, hash: Seq<(LuaValue, LuaValue)>) -> Seq<(Seq<char>, LuaVal)> {
    Seq::new(keys.len(), |i: int| (keys[i]@, lua_view(hash[i].1)))
}

fn decode_all_keys(hash: &Vec<(LuaValue, LuaValue)>) -> (r: Result<Vec<String>, ZerxError>)
    ensures
        match (r, decode_keys(lua_pairs(hash@), hash@.len() as int)) {
            (Ok(keys), Ok(dec)) => keys@.len() == hash@.len() && decoded_view(keys@, hash@) == dec,
            (Err(e), Err(ev)) => error_view(e) == ev,
            _ => false,
        },
{
    let ghost pv = lua_pairs(hash@);
    let mut keys: Vec<String> = Vec::new();
    proof {
        assert(decoded_view(keys@, hash@) =~= Seq::<(Seq<char>, LuaVal)>::empty());
    }
    let mut i: usize = 0;
    while i < hash.len()
        invariant
            i <= hash@.len(),
            keys@.len() == i,
            pv == lua_pairs(hash@),
            decode_keys(pv, i as int) == Ok::<Seq<(Seq<char>, LuaVal)>, ErrorView>(decoded_view(keys@, hash@)),
        decreases hash.len() - i,
    {
        match decode_key(&hash[i].0) {
            Ok(k) => {
                let ghost prev = keys@;
                keys.push(k);
                proof {
                    assert(decoded_view(keys@, hash@) =~= decoded_view(prev, hash@).push((k@, lua_view(hash@[i as int].1))));
                }
            },
            Err(e) => {
                proof {
                    lemma_decode_err(pv, (i + 1) as int, hash@.len() as int);
                }
                return Err(e.prefixed(usize_to_string(i)));
            },
        }
        i += 1;
    }
    Ok(keys)
}

fn string_family_value(l: &LuaValue) -> (r: Result<ZerxValue, ZerxError>)
    ensures
        value_result_is(r, string_family(l@)),
{
    match l {
        LuaValue::Bytes(b) => Ok(bytes_to_value(b)),
        LuaValue::Table(_) => free_convert(l),
        _ => Ok(base_convert(l)),
    }
}

fn scalar_family_value(l: &LuaValue) -> (r: Result<ZerxValue, ZerxError>)
    ensures
        value_result_is(r, scalar_family(l@)),
{
    match l {
        LuaValue::Table(_) => free_convert(l),
        _ => Ok(base_convert(l)),
    }
}

/// Converts `l` for schema `s`: lazy layers first, then one nesting level.
fn lua_transform<H: Hooks>(h: &H, s: &Schema, l: &LuaValue, ctx: &mut ParseContext) -> (r: Result<ZerxValue, ZerxError>)
    ensures
        value_result_is(r, lua_trans(h, *s, l@, old(ctx).depth as int)),
        final(ctx).depth == old(ctx).depth,
    decreases fuel(old(ctx).depth as int), 0int, 0int,
{
    let is_lazy = match &s.kind {
        SchemaKind::Lazy(_) => true,
        _ => false,
    };
    if is_lazy {
        let r = match resolve_chain(h, s) {
            Ok(r) => r,
            Err(e) => return Err(e),
        };
        match ctx.enter() {
            Err(e) => return Err(e),
            Ok(()) => {},
        }
        let result = lua_step(h, &r, l, ctx);
        ctx.exit();
        result
    } else {
        match ctx.enter() {
            Err(e) => return Err(e),
            Ok(()) => {},
        }
        let result = lua_step(h, s, l, ctx);
        ctx.exit();
        result
    }
}

/// The kind-directed conversion step.
fn lua_step<H: Hooks>(h: &H, s: &Schema, l: &LuaValue, ctx: &mut ParseContext) -> (r: Result<ZerxValue, ZerxError>)
    requires
        1 <= old(ctx).depth <= MAX_PARSE_DEPTH,
    ensures
        value_result_is(r, lua_inner(h, *s, l@, old(ctx).depth as int)),
        final(ctx).depth == old(ctx).depth,
    decreases fuel(old(ctx).depth as int), 2int, 0int,
{
    match &s.kind {
        SchemaKind::String | SchemaKind::Enum(_) | SchemaKind::Uri | SchemaKind::Url => string_family_value(l),
        SchemaKind::Literal(c) => {
            if let ZerxValue::String(_) = c {
                string_family_value(l)
            } else {
                scalar_family_value(l)
            }
        },
        SchemaKind::Buffer => match l {
            LuaValue::Bytes(b) => Ok(ZerxValue::Bytes(b.clone())),
            _ => scalar_family_value(l),
        },
        SchemaKind::Any | SchemaKind::Json | SchemaKind::JsonSchema => free_convert(l),
        SchemaKind::Number | SchemaKind::Boolean | SchemaKind::Null => scalar_family_value(l),
        SchemaKind::Array(item) => match l {
            LuaValue::Table(t) => {
                proof {
                    lemma_table_view(*t);
                }
                if t.hash.len() > 0 {
                    return Err(ZerxError::new(
                        ErrorCode::LUA_SHAPE_MISMATCH(),
                        owned("table has a hash part; expected a pure sequence for array"),
                    ));
                }
                lua_array_items(h, item, &t.array, ctx)
            },
            _ => Ok(base_convert(l)),
        },
        SchemaKind::Tuple(items) => match l {
            LuaValue::Table(t) => {
                proof {
                    lemma_table_view(*t);
                }
                if t.hash.len() > 0 {
                    return Err(ZerxError::new(
                        ErrorCode::LUA_SHAPE_MISMATCH(),
                        owned("table has a hash part; expected a pure sequence for tuple"),
                    ));
                }
                if t.array.len() != items.len() {
                    return Ok(null_array(t.array.len()));
                }
                lua_tuple_items(h, items, &t.array, ctx)
            },
            _ => Ok(base_convert(l)),
        },
        SchemaKind::Record(vs) => match l {
            LuaValue::Table(t) => {
                proof {
                    lemma_table_view(*t);
                }
                if t.array.len() > 0 {
                    return Err(ZerxError::new(
                        ErrorCode::LUA_SHAPE_MISMATCH(),
                        owned("table has an array part; expected a pure hash for record"),
                    ));
                }
                let keys = match decode_all_keys(&t.hash) {
                    Ok(k) => k,
                    Err(e) => return Err(e),
                };
                lua_record_entries(h, vs, &t.hash, &keys, ctx)
            },
            _ => Ok(base_convert(l)),
        },
        SchemaKind::Object(body) => match l {
            LuaValue::Table(t) => {
                proof {
                    lemma_table_view(*t);
                }
                if t.array.len() > 0 {
                    return Err(ZerxError::new(
                        ErrorCode::LUA_SHAPE_MISMATCH(),
                        owned("table has an array part; expected a pure hash for object"),
                    ));
                }
                let keys = match decode_all_keys(&t.hash) {
                    Ok(k) => k,
                    Err(e) => return Err(e),
                };
                lua_object_body(h, body, &t.hash, &keys, ctx)
            },
            _ => Ok(base_convert(l)),
        },
        SchemaKind::Union(variants) => lua_union_variants(h, variants, l, ctx),
        SchemaKind::DiscriminatedUnion(body) => match l {
            LuaValue::Table(t) => {
                proof {
                    lemma_table_view(*t);
                }
                lua_discriminated(h, body, l, t, ctx)
            },
            _ => Ok(base_convert(l)),
        },
        SchemaKind::Lazy(_) => Ok(ZerxValue::Null),
    }
}

/// `n` nulls.
fn null_array(n: usize) -> (r: ZerxValue)
    ensures
        r@ == Val::Arr(Seq::new(n as nat, |i: int| Val::Null)),
{
    let mut out: Vec<ZerxValue> = Vec::new();
    let mut i: usize = 0;
    while i < n
        invariant
            i <= n,
            values_view(out@) == Seq::new(i as nat, |j: int| Val::Null),
        decreases n - i,
    {
        let ghost prev = out@;
        out.push(ZerxValue::Null);
        proof {
            assert(values_view(out@) =~= values_view(prev).push(Val::Null));
            assert(values_view(out@) =~= Seq::new((i + 1) as nat, |j: int| Val::Null));
        }
        i += 1;
    }
    proof {
        lemma_array_view(out);
    }
    ZerxValue::Array(out)
}

fn lua_array_items<H: Hooks>(h: &H, item: &Schema, arr: &Vec<LuaValue>, ctx: &mut ParseContext) -> (r: Result<ZerxValue, ZerxError>)
    ensures
        value_result_is(r, match lua_arr(h, *item, lua_seq(arr@), arr@.len() as int, old(ctx).depth as int) {
            Ok(out) => Ok(Val::Arr(out)),
            Err(e) => Err(e),
        }),
        final(ctx).depth == old(ctx).depth,
    decreases fuel(old(ctx).depth as int), 1int, 0int,
{
    let ghost d = ctx.depth as int;
    let ghost sv = lua_seq(arr@);
    let mut out: Vec<ZerxValue> = Vec::new();
    proof {
        assert(values_view(out@) =~= Seq::<Val>::empty());
    }
    let mut i: usize = 0;
    while i < arr.len()
        invariant
            i <= arr@.len(),
            ctx.depth == d,
            d == old(ctx).depth,
            sv == lua_seq(arr@),
            lua_arr(h, *item, sv, i as int, d) == Ok::<Seq<Val>, ErrorView>(values_view(out@)),
        decreases arr.len() - i,
    {
        match lua_transform(h, item, &arr[i], ctx) {
            Ok(v) => {
                let ghost prev = out@;
                out.push(v);
                proof {
                    assert(values_view(out@) =~= values_view(prev).push(v@));
                }
            },
            Err(e) => {
                proof {
                    lemma_lua_arr_err(h, *item, sv, (i + 1) as int, arr@.len() as int, d);
                }
                return Err(e.prefixed(usize_to_string(i)));
            },
        }
        i += 1;
    }
    proof {
        lemma_array_view(out);
    }
    Ok(ZerxValue::Array(out))
}

fn lua_tuple_items<H: Hooks>(h: &H, items: &Vec<Schema>, arr: &Vec<LuaValue>, ctx: &mut ParseContext) -> (r: Result<ZerxValue, ZerxError>)
    requires
        items@.len() == arr@.len(),
    ensures
        value_result_is(r, match lua_tuple(h, items@, lua_seq(arr@), arr@.len() as int, old(ctx).depth as int) {
            Ok(out) => Ok(Val::Arr(out)),
            Err(e) => Err(e),
        }),
        final(ctx).depth == old(ctx).depth,
    decreases fuel(old(ctx).depth as int), 1int, 0int,
{
    let ghost d = ctx.depth as int;
    let ghost sv = lua_seq(arr@);
    let mut out: Vec<ZerxValue> = Vec::new();
    proof {
        assert(values_view(out@) =~= Seq::<Val>::empty());
    }
    let mut i: usize = 0;
    while i < arr.len()
        invariant
            i <= arr@.len(),
            items@.len() == arr@.len(),
            ctx.depth == d,
            d == old(ctx).depth,
            sv == lua_seq(arr@),
            lua_tuple(h, items@, sv, i as int, d) == Ok::<Seq<Val>, ErrorView>(values_view(out@)),
        decreases arr.len() - i,
    {
        match lua_transform(h, &items[i], &arr[i], ctx) {
            Ok(v) => {
                let ghost prev = out@;
                out.push(v);
                proof {
                    assert(values_view(out@) =~= values_view(prev).push(v@));
                }
            },
            Err(e) => {
                proof {
                    lemma_lua_tuple_err(h, items@, sv, (i + 1) as int, arr@.len() as int, d);
                }
                return Err(e.prefixed(usize_to_string(i)));
            },
        }
        i += 1;
    }
    proof {
        lemma_array_view(out);
    }
    Ok(ZerxValue::Array(out))
}

fn lua_record_entries<H: Hooks>(
    h: &H,
    vs: &Schema,
    hash: &Vec<(LuaValue, LuaValue)>,
    keys: &Vec<String>,
    ctx: &mut ParseContext,
) -> (r: Result<ZerxValue, ZerxError>)
    requires
        keys@.len() == hash@.len(),
    ensures
        value_result_is(r, match lua_record(h, *vs, decoded_view(keys@, hash@), keys@.len() as int, old(ctx).depth as int) {
            Ok(m) => Ok(Val::Obj(m)),
            Err(e) => Err(e),
        }),
        final(ctx).depth == old(ctx).depth,
    decreases fuel(old(ctx).depth as int), 1int, 0int,
{
    let ghost d = ctx.depth as int;
    let ghost dec = decoded_view(keys@, hash@);
    let mut out = ObjectMap::new();
    let mut i: usize = 0;
    while i < keys.len()
        invariant
            i <= keys@.len(),
            keys@.len() == hash@.len(),
            ctx.depth == d,
            d == old(ctx).depth,
            dec == decoded_view(keys@, hash@),
            lua_record(h, *vs, dec, i as int, d) == Ok::<Seq<(Seq<char>, Val)>, ErrorView>(out@),
        decreases keys.len() - i,
    {
        match lua_transform(h, vs, &hash[i].1, ctx) {
            Ok(v) => {
                out.insert(keys[i].clone(), v);
            },
            Err(e) => {
                proof {
                    lemma_lua_record_err(h, *vs, dec, (i + 1) as int, keys@.len() as int, d);
                }
                return Err(e.prefixed(keys[i].clone()));
            },
        }
        i += 1;
    }
    proof {
        lemma_object_view(out);
    }
    Ok(ZerxValue::Object(out))
}

/// The position of the first decoded key equal to `key`.
fn find_decoded(keys: &Vec<String>, key: &String, hash: &Vec<(LuaValue, LuaValue)>) -> (r: Option<usize>)
    requires
        keys@.len() == hash@.len(),
    ensures
        match r {
            Some(p) => p < keys@.len() && map_get(decoded_view(keys@, hash@), key@) == Some(lua_view(hash@[p as int].1)),
            None => map_get(decoded_view(keys@, hash@), key@) is None,
        },
{
    let ghost dec = decoded_view(keys@, hash@);
    let mut i: usize = 0;
    while i < keys.len()
        invariant
            i <= keys@.len(),
            keys@.len() == hash@.len(),
            dec == decoded_view(keys@, hash@),
            forall|j: int| 0 <= j < i ==> dec[j].0 != key@,
        decreases keys.len() - i,
    {
        if keys[i] == *key {
            proof {
                crate::value::lemma_key_pos_first(dec, key@, i as int);
            }
            return Some(i);
        }
        i += 1;
    }
    proof {
        crate::value::lemma_key_pos_none(dec, key@);
    }
    None
}

/// Converts shape field `j` and adds what it yields to `output`.
fn lua_object_field<H: Hooks>(
    h: &H,
    body: &ObjectBody,
    hash: &Vec<(LuaValue, LuaValue)>,
    keys: &Vec<String>,
    strip: &Vec<String>,
    j: usize,
    output: &mut ObjectMap,
    ctx: &mut ParseContext,
) -> (r: Result<(), ZerxError>)
    requires
        j < body.shape@.len(),
        keys@.len() == hash@.len(),
        strs(strip@) == prestrip(*body),
        lua_fields(h, *body, decoded_view(keys@, hash@), j as int, old(ctx).depth as int)
            == Ok::<Seq<(Seq<char>, Val)>, ErrorView>(old(output)@),
    ensures
        final(ctx).depth == old(ctx).depth,
        match r {
            Ok(()) => lua_fields(h, *body, decoded_view(keys@, hash@), j + 1, old(ctx).depth as int)
                == Ok::<Seq<(Seq<char>, Val)>, ErrorView>(final(output)@),
            Err(e) => lua_fields(h, *body, decoded_view(keys@, hash@), j + 1, old(ctx).depth as int)
                == Err::<Seq<(Seq<char>, Val)>, ErrorView>(error_view(e)),
        },
    decreases fuel(old(ctx).depth as int), 1int, 1int,
{
    let key = &body.shape[j].0;
    if strings_contain(strip, key) {
        return Ok(());
    }
    match find_decoded(keys, key, hash) {
        None => Ok(()),
        Some(p) => match lua_transform(h, &body.shape[j].1, &hash[p].1, ctx) {
            Ok(v) => {
                output.insert(key.clone(), v);
                Ok(())
            },
            Err(e) => Err(e.prefixed(key.clone())),
        },
    }
}

/// The index of the first decoded key that is neither stripped nor in the shape.
fn find_lua_unknown(body: &ObjectBody, strip: &Vec<String>, keys: &Vec<String>, hash: &Vec<(LuaValue, LuaValue)>) -> (r: bool)
    requires
        keys@.len() == hash@.len(),
        strs(strip@) == prestrip(*body),
    ensures
        r == exists|i: int| 0 <= i < keys@.len() && lua_unknown(*body, (#[trigger] decoded_view(keys@, hash@)[i]).0),
{
    let ghost dec = decoded_view(keys@, hash@);
    let mut i: usize = 0;
    while i < keys.len()
        invariant
            i <= keys@.len(),
            keys@.len() == hash@.len(),
            dec == decoded_view(keys@, hash@),
            strs(strip@) == prestrip(*body),
            forall|j: int| 0 <= j < i ==> !lua_unknown(*body, (#[trigger] dec[j]).0),
        decreases keys.len() - i,
    {
        if !strings_contain(strip, &keys[i]) && !shape_has_key(&body.shape, &keys[i]) {
            assert(lua_unknown(*body, dec[i as int].0));
            return true;
        }
        i += 1;
    }
    false
}

fn lua_object_body<H: Hooks>(
    h: &H,
    body: &ObjectBody,
    hash: &Vec<(LuaValue, LuaValue)>,
    keys: &Vec<String>,
    ctx: &mut ParseContext,
) -> (r: Result<ZerxValue, ZerxError>)
    requires
        keys@.len() == hash@.len(),
    ensures
        value_result_is(r, lua_object(h, *body, decoded_view(keys@, hash@), old(ctx).depth as int)),
        final(ctx).depth == old(ctx).depth,
    decreases fuel(old(ctx).depth as int), 1int, 2int,
{
    let ghost d = ctx.depth as int;
    let ghost dec = decoded_view(keys@, hash@);
    let strip = effective_prestrip(body);
    let strict = match body.mode {
        ObjectMode::Strict => true,
        _ => false,
    };
    if strict && find_lua_unknown(body, &strip, keys, hash) {
        let mut obj = ObjectMap::new();
        let mut k: usize = 0;
        while k < keys.len()
            invariant
                k <= keys@.len(),
                keys@.len() == hash@.len(),
                dec == decoded_view(keys@, hash@),
                obj@ == null_keys(dec, k as int),
            decreases keys.len() - k,
        {
            obj.insert(keys[k].clone(), ZerxValue::Null);
            k += 1;
        }
        proof {
            lemma_object_view(obj);
        }
        return Ok(ZerxValue::Object(obj));
    }
    let mut output = ObjectMap::new();
    let mut j: usize = 0;
    while j < body.shape.len()
        invariant
            j <= body.shape@.len(),
            keys@.len() == hash@.len(),
            ctx.depth == d,
            d == old(ctx).depth,
            dec == decoded_view(keys@, hash@),
            strs(strip@) == prestrip(*body),
            lua_fields(h, *body, dec, j as int, d) == Ok::<Seq<(Seq<char>, Val)>, ErrorView>(output@),
            !(body.mode is Strict && exists|i: int| 0 <= i < dec.len() && lua_unknown(*body, (#[trigger] dec[i]).0)),
        decreases body.shape.len() - j,
    {
        match lua_object_field(h, body, hash, keys, &strip, j, &mut output, ctx) {
            Ok(()) => {},
            Err(e) => {
                proof {
                    lemma_lua_fields_err(h, *body, dec, (j + 1) as int, body.shape@.len() as int, d);
                }
                return Err(e);
            },
        }
        j += 1;
    }
    let passthrough = match body.mode {
        ObjectMode::Passthrough => true,
        _ => false,
    };
    if passthrough {
        let ghost acc = output@;
        let mut k: usize = 0;
        while k < keys.len()
            invariant
                k <= keys@.len(),
                keys@.len() == hash@.len(),
                dec == decoded_view(keys@, hash@),
                strs(strip@) == prestrip(*body),
                ctx.depth == d,
                d == old(ctx).depth,
                body.mode is Passthrough,
                lua_fields(h, *body, dec, body.shape@.len() as int, d) == Ok::<Seq<(Seq<char>, Val)>, ErrorView>(acc),
                lua_extra(*body, dec, acc, k as int) == Ok::<Seq<(Seq<char>, Val)>, ErrorView>(output@),
            decreases keys.len() - k,
        {
            if !strings_contain(&strip, &keys[k]) && !shape_has_key(&body.shape, &keys[k]) {
                match free_convert(&hash[k].1) {
                    Ok(v) => {
                        output.insert(keys[k].clone(), v);
                    },
                    Err(e) => {
                        proof {
                            lemma_lua_extra_err(*body, dec, acc, (k + 1) as int, keys@.len() as int);
                        }
                        return Err(e.prefixed(keys[k].clone()));
                    },
                }
            }
            k += 1;
        }
    }
    proof {
        lemma_object_view(output);
    }
    Ok(ZerxValue::Object(output))
}

fn lua_union_variants<H: Hooks>(h: &H, variants: &Vec<Schema>, l: &LuaValue, ctx: &mut ParseContext) -> (r: Result<ZerxValue, ZerxError>)
    ensures
        value_result_is(r, match lua_union(h, variants@, l@, variants@.len() as int, old(ctx).depth as int) {
            Ok(t) => Ok(t),
            Err(errs) => Err(ev_union(Seq::empty(), errs)),
        }),
        final(ctx).depth == old(ctx).depth,
    decreases fuel(old(ctx).depth as int), 1int, 0int,
{
    let ghost d = ctx.depth as int;
    let mut errs: Vec<ZerxError> = Vec::new();
    proof {
        assert(errors_view(errs@) =~= Seq::<ErrorView>::empty());
    }
    let mut i: usize = 0;
    while i < variants.len()
        invariant
            i <= variants@.len(),
            ctx.depth == d,
            d == old(ctx).depth,
            lua_union(h, variants@, l@, i as int, d) == Err::<Val, Seq<ErrorView>>(errors_view(errs@)),
        decreases variants.len() - i,
    {
        let ghost prev = errs@;
        match lua_transform(h, &variants[i], l, ctx) {
            Ok(t) => match variants[i].validate(h, &t) {
                Ok(_) => {
                    proof {
                        lemma_lua_union_ok(h, variants@, l@, (i + 1) as int, variants@.len() as int, d);
                    }
                    return Ok(t);
                },
                Err(e) => {
                    errs.push(e);
                    proof {
                        assert(errors_view(errs@) =~= errors_view(prev).push(error_view(e)));
                    }
                },
            },
            Err(e) => {
                errs.push(e);
                proof {
                    assert(errors_view(errs@) =~= errors_view(prev).push(error_view(e)));
                }
            },
        }
        i += 1;
    }
    let path: Vec<String> = Vec::new();
    proof {
        assert(strings_view(path@) =~= Seq::<Seq<char>>::empty());
    }
    Err(ZerxError::union(path, errs))
}

fn bytes_equal(a: &Vec<u8>, b: &[u8]) -> (r: bool)
    ensures
        r == (a@ == b@),
{
    if a.len() != b.len() {
        return false;
    }
    let mut i: usize = 0;
    while i < a.len()
        invariant
            i <= a@.len(),
            a@.len() == b@.len(),
            forall|j: int| 0 <= j < i ==> a@[j] == b@[j],
        decreases a.len() - i,
    {
        if a[i] != b[i] {
            return false;
        }
        i += 1;
    }
    assert(a@ =~= b@);
    true
}

/// The discriminator key a Lua value provides, with the value standing for it.
fn lua_discriminant_map(v: &LuaValue) -> (r: (Option<DiscriminantKey>, ZerxValue))
    ensures
        r.1@ == lua_dkey(v@).1,
        match r.0 {
            Some(k) => lua_dkey(v@).0 == Some(crate::semantics::dkey_view(k)),
            None => lua_dkey(v@).0 is None,
        },
{
    match v {
        LuaValue::Boolean(b) => (Some(DiscriminantKey::Bool(*b)), ZerxValue::Bool(*b)),
        LuaValue::Integer(n) => (Some(DiscriminantKey::Int(*n as i128)), ZerxValue::I64(*n)),
        LuaValue::Bytes(b) => match decode_text(b) {
            Some(s) => (Some(DiscriminantKey::Str(s.clone())), ZerxValue::String(s)),
            None => (None, ZerxValue::Null),
        },
        _ => (None, ZerxValue::Null),
    }
}

/// The index of the first hash entry whose key is the byte string `kb`.
fn find_bytes_key(hash: &Vec<(LuaValue, LuaValue)>, kb: &[u8]) -> (r: Option<usize>)
    ensures
        match r {
            Some(i) => i < hash@.len() && lua_find(lua_pairs(hash@), kb@) == Some(lua_view(hash@[i as int].1)),
            None => lua_find(lua_pairs(hash@), kb@) is None,
        },
{
    let ghost pv = lua_pairs(hash@);
    assert(pv.skip(0) =~= pv);
    let mut i: usize = 0;
    while i < hash.len()
        invariant
            i <= hash@.len(),
            pv == lua_pairs(hash@),
            lua_find(pv, kb@) == lua_find(pv.skip(i as int), kb@),
        decreases hash.len() - i,
    {
        let hit = match &hash[i].0 {
            LuaValue::Bytes(b) => bytes_equal(b, kb),
            _ => false,
        };
        assert(pv.skip(i as int)[0] == pv[i as int]);
        if hit {
            return Some(i);
        }
        assert(pv.skip(i as int).drop_first() =~= pv.skip(i + 1));
        i += 1;
    }
    assert(pv.skip(i as int) =~= Seq::<(LuaVal, LuaVal)>::empty());
    None
}

fn lua_discriminated<H: Hooks>(
    h: &H,
    body: &DiscriminatedUnionBody,
    l: &LuaValue,
    t: &LuaTable,
    ctx: &mut ParseContext,
) -> (r: Result<ZerxValue, ZerxError>)
    requires
        l@ == LuaVal::Table(lua_seq(t.array@), lua_pairs(t.hash@)),
    ensures
        value_result_is(r, lua_disc(h, *body, l@, lua_pairs(t.hash@), old(ctx).depth as int)),
        final(ctx).depth == old(ctx).depth,
    decreases fuel(old(ctx).depth as int), 1int, 0int,
{
    let entries = match &body.state {
        DiscriminatorState::Invalid(_) => {
            let m = ObjectMap::new();
            proof {
                lemma_object_view(m);
            }
            return Ok(ZerxValue::Object(m));
        },
        DiscriminatorState::Valid { entries, .. } => entries,
    };
    let kb = body.key.as_str().as_bytes();
    let pos = match find_bytes_key(&t.hash, kb) {
        None => {
            let m = ObjectMap::new();
            proof {
                lemma_object_view(m);
            }
            return Ok(ZerxValue::Object(m));
        },
        Some(p) => p,
    };
    let (key_opt, placeholder) = lua_discriminant_map(&t.hash[pos].1);
    match key_opt {
        Some(k) => match lookup_key(entries, &k) {
            Some(i) => {
                if i < body.variants.len() {
                    return lua_transform(h, &body.variants[i], l, ctx);
                }
            },
            None => {},
        },
        None => {},
    }
    let mut m = ObjectMap::new();
    m.insert(body.key.clone(), placeholder);
    proof {
        lemma_object_view(m);
    }
    Ok(ZerxValue::Object(m))
}

impl Schema {
    /// Validates a Lua data value: the schema decides how each table and byte string is
    /// read (a table as an array at an array schema, as an object at an object schema;
    /// a byte string as text at a string schema, as bytes at a buffer schema), and the
    /// converted value is then validated. Each chain of lazy schemas is followed to the
    /// schema at its end before that schema's nesting level is counted.
    pub fn validate_lua<H: Hooks>(&self, hooks: &H, lua: &LuaValue) -> (r: Result<ZerxValue, ZerxError>)
        ensures
            value_result_is(r, lua_result(hooks, *self, lua@)),
    {
        let mut ctx = ParseContext::new();
        let converted = match lua_transform(hooks, self, lua, &mut ctx) {
            Ok(v) => v,
            Err(e) => return Err(e),
        };
        self.validate(hooks, &converted)
    }
}

} // verus!
