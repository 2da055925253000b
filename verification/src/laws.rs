//! What the object modes promise, over the parse semantics that `Schema::validate`
//! is proved to compute.
use vstd::prelude::*;
use crate::value::{Val, map_get, map_insert, lemma_key_pos_some, lemma_key_pos_none, law_map_get_after_insert, law_map_insert_keeps_others};
use crate::schema::{Schema, SchemaKind, Hooks, ObjectBody, ObjectMode, MAX_PARSE_DEPTH};
use crate::lua::{LuaVal, lua_result, lua_trans, lua_inner, lua_object, lua_fields, lua_extra, lua_unknown, free_val, decode_keys, null_keys};
use vstd::utf8::{valid_utf8, decode_utf8};
use crate::semantics::{
    sem_present, sem_body, sem_inner, sem_object, sem_field, fields_upto, unknown_upto, passthrough_upto, is_unknown,
    shape_has, refine_upto, refine_all, validators_upto, check_kind, field_input, union_upto, prestrip,
};

verus! {

proof fn lemma_unknown_found(body: ObjectBody, input: Seq<(Seq<char>, Val)>, n: int, j: int)
    requires
        0 <= j < n <= input.len(),
        is_unknown(body, input[j].0),
    ensures
        unknown_upto(body, input, n) is Some,
    decreases n,
{
    if j < n - 1 {
        lemma_unknown_found(body, input, n - 1, j);
    }
}

proof fn lemma_refine_keeps<H: Hooks>(h: &H, s: Schema, out: Val, n: int)
    ensures
        refine_upto(h, s.modifiers.refine@, out, n) matches Ok(x) ==> x == out,
    decreases n,
{
    if n > 0 {
        lemma_refine_keeps(h, s, out, n - 1);
    }
}

proof fn lemma_insert_keys<V>(m: Seq<(Seq<char>, V)>, k: Seq<char>, v: V)
    ensures
        forall|i: int| 0 <= i < map_insert(m, k, v).len() ==>
            (#[trigger] map_insert(m, k, v)[i]).0 == k || exists|j: int| 0 <= j < m.len() && m[j].0 == map_insert(m, k, v)[i].0,
{
    lemma_key_pos_some(m, k);
    let n = map_insert(m, k, v);
    assert forall|i: int| 0 <= i < n.len() implies (#[trigger] n[i]).0 == k || exists|j: int| 0 <= j < m.len() && m[j].0 == n[i].0 by {
        if i < m.len() && n[i].0 != k {
            assert(m[i].0 == n[i].0);
        }
    }
}

proof fn lemma_fields_keys<H: Hooks>(h: &H, body: ObjectBody, input: Seq<(Seq<char>, Val)>, n: int, d: int)
    requires
        n <= body.shape@.len(),
    ensures
        fields_upto(h, body, input, n, d) matches Ok(acc) ==> forall|i: int| 0 <= i < acc.len() ==> shape_has(body.shape@, #[trigger] acc[i].0),
    decreases n,
{
    if n > 0 {
        lemma_fields_keys(h, body, input, n - 1, d);
        if let Ok(acc) = fields_upto(h, body, input, n - 1, d) {
            let key = body.shape@[n - 1].0@;
            let raw = field_input(body, input, key);
            if let Ok(Some(o)) = sem_field(h, body.shape@[n - 1].1, raw, d) {
                lemma_insert_keys(acc, key, o);
                let next = map_insert(acc, key, o);
                assert forall|i: int| 0 <= i < next.len() implies shape_has(body.shape@, #[trigger] next[i].0) by {
                    if next[i].0 == key {
                        assert(body.shape@[n - 1].0@ == key);
                    } else {
                        let j = choose|j: int| 0 <= j < acc.len() && acc[j].0 == next[i].0;
                        assert(shape_has(body.shape@, acc[j].0));
                    }
                }
            }
        }
    }
}

/// What parsing an object value gives, once the depth guard, the type check and the
/// validators have passed: the object step, then the refinements.
proof fn lemma_object_parse<H: Hooks>(h: &H, s: Schema, body: ObjectBody, input: Seq<(Seq<char>, Val)>, depth: int)
    requires
        s.kind == SchemaKind::Object(body),
        0 <= depth < MAX_PARSE_DEPTH,
        validators_upto(s.validators@, Val::Obj(input), s.validators@.len() as int) is Ok,
    ensures
        sem_present(h, s, Val::Obj(input), depth) == match sem_object(h, body, input, depth + 1) {
            Err(e) => Err(e),
            Ok(out) => refine_all(h, s, out),
        },
{
    assert(check_kind(s.kind, Val::Obj(input)) is Ok);
    assert(sem_inner(h, s.kind, Val::Obj(input), depth + 1) == sem_object(h, body, input, depth + 1));
    assert(sem_present(h, s, Val::Obj(input), depth) == sem_body(h, s, Val::Obj(input), depth + 1));
}

/// Strict by default: in strict mode, an object holding a key that the schema neither
/// declares nor strips is refused with `unknown_property`, whatever its fields hold.
pub proof fn law_strict_refuses_unknown<H: Hooks>(h: &H, s: Schema, input: Seq<(Seq<char>, Val)>, j: int, depth: int)
    requires
        s.kind matches SchemaKind::Object(body) && body.mode is Strict,
        0 <= depth < MAX_PARSE_DEPTH,
        validators_upto(s.validators@, Val::Obj(input), s.validators@.len() as int) is Ok,
        0 <= j < input.len(),
        s.kind matches SchemaKind::Object(body) && is_unknown(body, input[j].0),
    ensures
        sem_present(h, s, Val::Obj(input), depth) matches Err(e) && e.code == "unknown_property"@,
{
    if let SchemaKind::Object(body) = s.kind {
        lemma_object_parse(h, s, body, input, depth);
        lemma_unknown_found(body, input, input.len() as int, j);
    }
}

/// Strip mode: what an object parses to holds only keys that the schema declares.
pub proof fn law_strip_keeps_declared_keys<H: Hooks>(h: &H, s: Schema, input: Seq<(Seq<char>, Val)>, depth: int, out: Seq<(Seq<char>, Val)>)
    requires
        s.kind matches SchemaKind::Object(body) && body.mode is Strip,
        0 <= depth < MAX_PARSE_DEPTH,
        sem_present(h, s, Val::Obj(input), depth) == Ok::<Val, crate::error::ErrorView>(Val::Obj(out)),
    ensures
        s.kind matches SchemaKind::Object(body) && forall|i: int| 0 <= i < out.len() ==> shape_has(body.shape@, #[trigger] out[i].0),
{
    if let SchemaKind::Object(body) = s.kind {
        assert(check_kind(s.kind, Val::Obj(input)) is Ok);
        assert(sem_present(h, s, Val::Obj(input), depth) == sem_body(h, s, Val::Obj(input), depth + 1));
        assert(validators_upto(s.validators@, Val::Obj(input), s.validators@.len() as int) is Ok);
        lemma_object_parse(h, s, body, input, depth);
        lemma_fields_keys(h, body, input, body.shape@.len() as int, depth + 1);
        if let Ok(o) = sem_object(h, body, input, depth + 1) {
            lemma_refine_keeps(h, s, o, s.modifiers.refine@.len() as int);
        }
    }
}

proof fn lemma_passthrough_has(body: ObjectBody, input: Seq<(Seq<char>, Val)>, acc: Seq<(Seq<char>, Val)>, n: int, j: int)
    requires
        0 <= j < n <= input.len(),
        is_unknown(body, input[j].0),
    ensures
        map_get(passthrough_upto(body, input, acc, n), input[j].0) is Some,
        (forall|i: int| 0 <= i < input.len() && i != j ==> input[i].0 != input[j].0)
            ==> map_get(passthrough_upto(body, input, acc, n), input[j].0) == Some(input[j].1),
    decreases n,
{
    let k = input[j].0;
    let prev = passthrough_upto(body, input, acc, n - 1);
    if j == n - 1 {
        law_map_get_after_insert(prev, k, input[j].1);
    } else {
        lemma_passthrough_has(body, input, acc, n - 1, j);
        if is_unknown(body, input[n - 1].0) {
            if input[n - 1].0 == k {
                law_map_get_after_insert(prev, k, input[n - 1].1);
            } else {
                law_map_insert_keeps_others(prev, input[n - 1].0, input[n - 1].1, k);
            }
        }
    }
}

/// Passthrough mode: every key the schema neither declares nor strips reaches what the
/// object parses to, with its value when the key occurs once.
pub proof fn law_passthrough_keeps_unknown<H: Hooks>(h: &H, s: Schema, input: Seq<(Seq<char>, Val)>, depth: int, out: Seq<(Seq<char>, Val)>, j: int)
    requires
        s.kind matches SchemaKind::Object(body) && body.mode is Passthrough,
        0 <= depth < MAX_PARSE_DEPTH,
        sem_present(h, s, Val::Obj(input), depth) == Ok::<Val, crate::error::ErrorView>(Val::Obj(out)),
        0 <= j < input.len(),
        s.kind matches SchemaKind::Object(body) && is_unknown(body, input[j].0),
    ensures
        map_get(out, input[j].0) is Some,
        (forall|i: int| 0 <= i < input.len() && i != j ==> input[i].0 != input[j].0) ==> map_get(out, input[j].0) == Some(input[j].1),
{
    if let SchemaKind::Object(body) = s.kind {
        assert(check_kind(s.kind, Val::Obj(input)) is Ok);
        assert(sem_present(h, s, Val::Obj(input), depth) == sem_body(h, s, Val::Obj(input), depth + 1));
        assert(validators_upto(s.validators@, Val::Obj(input), s.validators@.len() as int) is Ok);
        lemma_object_parse(h, s, body, input, depth);
        if let Ok(o) = sem_object(h, body, input, depth + 1) {
            lemma_refine_keeps(h, s, o, s.modifiers.refine@.len() as int);
            if let Ok(acc) = fields_upto(h, body, input, body.shape@.len() as int, depth + 1) {
                lemma_passthrough_has(body, input, acc, input.len() as int, j);
            }
        }
    }
}

// ---------------------------------------------------------------------------
// Lua values: the schema decides how a value is read
// ---------------------------------------------------------------------------

/// At a string node, a Lua byte string holding valid UTF-8 is validated as its text.
pub proof fn law_lua_string_reads_text<H: Hooks>(h: &H, s: Schema, b: Seq<u8>)
    requires
        s.kind is String,
        valid_utf8(b),
    ensures
        lua_result(h, s, LuaVal::Bytes(b)) == sem_present(h, s, Val::Str(decode_utf8(b)), 0),
{
    assert(lua_trans(h, s, LuaVal::Bytes(b), 0) == lua_inner(h, s, LuaVal::Bytes(b), 1));
}

/// At a buffer node, a Lua byte string stays raw bytes, whatever it holds.
pub proof fn law_lua_buffer_keeps_bytes<H: Hooks>(h: &H, s: Schema, b: Seq<u8>)
    requires
        s.kind is Buffer,
    ensures
        lua_result(h, s, LuaVal::Bytes(b)) == sem_present(h, s, Val::Bytes(b), 0),
{
    assert(lua_trans(h, s, LuaVal::Bytes(b), 0) == lua_inner(h, s, LuaVal::Bytes(b), 1));
}

/// At an array node a table must be a pure sequence, at an object or record node a
/// pure hash: a table with the other part is refused with `lua_shape_mismatch`.
pub proof fn law_lua_table_part_follows_schema<H: Hooks>(h: &H, s: Schema, arr: Seq<LuaVal>, hash: Seq<(LuaVal, LuaVal)>)
    requires
        (s.kind is Array && hash.len() > 0) || ((s.kind is Object || s.kind is Record) && arr.len() > 0),
    ensures
        lua_result(h, s, LuaVal::Table(arr, hash)) matches Err(e) && e.code == "lua_shape_mismatch"@,
{
    assert(lua_trans(h, s, LuaVal::Table(arr, hash), 0) == lua_inner(h, s, LuaVal::Table(arr, hash), 1));
}

/// No key occurs twice.
pub open spec fn keys_distinct<V>(m: Seq<(Seq<char>, V)>) -> bool {
    forall|i: int, j: int| 0 <= i < m.len() && 0 <= j < m.len() && i != j ==> (#[trigger] m[i]).0 != (#[trigger] m[j]).0
}

proof fn lemma_insert_distinct<V>(m: Seq<(Seq<char>, V)>, k: Seq<char>, v: V)
    requires
        keys_distinct(m),
    ensures
        keys_distinct(map_insert(m, k, v)),
{
    lemma_key_pos_some(m, k);
    let n = map_insert(m, k, v);
    assert forall|i: int, j: int| 0 <= i < n.len() && 0 <= j < n.len() && i != j implies (#[trigger] n[i]).0 != (#[trigger] n[j]).0 by {
        if i < m.len() { assert(n[i].0 == m[i].0); }
        if j < m.len() { assert(n[j].0 == m[j].0); }
    }
}

proof fn lemma_lua_fields_distinct<H: Hooks>(h: &H, body: ObjectBody, dec: Seq<(Seq<char>, LuaVal)>, n: int, d: int)
    requires
        lua_fields(h, body, dec, n, d) is Ok,
    ensures
        keys_distinct(lua_fields(h, body, dec, n, d)->Ok_0),
    decreases n,
{
    if n > 0 {
        lemma_lua_fields_distinct(h, body, dec, n - 1, d);
        let acc = lua_fields(h, body, dec, n - 1, d)->Ok_0;
        let key = body.shape@[n - 1].0@;
        if !prestrip(body).contains(key) {
            if let Some(lv) = map_get(dec, key) {
                if let Ok(v) = lua_trans(h, body.shape@[n - 1].1, lv, d) {
                    lemma_insert_distinct(acc, key, v);
                }
            }
        }
    }
}

proof fn lemma_lua_extra_keeps(body: ObjectBody, dec: Seq<(Seq<char>, LuaVal)>, acc: Seq<(Seq<char>, Val)>, n: int, j: int)
    requires
        0 <= n <= dec.len(),
        keys_distinct(acc),
        lua_extra(body, dec, acc, n) is Ok,
    ensures
        keys_distinct(lua_extra(body, dec, acc, n)->Ok_0),
        0 <= j < n && lua_unknown(body, dec[j].0) && (forall|i: int| 0 <= i < dec.len() && i != j ==> dec[i].0 != dec[j].0)
            ==> free_val(dec[j].1) is Ok && map_get(lua_extra(body, dec, acc, n)->Ok_0, dec[j].0) == Some(free_val(dec[j].1)->Ok_0),
    decreases n,
{
    if n > 0 {
        lemma_lua_extra_keeps(body, dec, acc, n - 1, j);
        let prev = lua_extra(body, dec, acc, n - 1)->Ok_0;
        if lua_unknown(body, dec[n - 1].0) {
            let v = free_val(dec[n - 1].1)->Ok_0;
            lemma_insert_distinct(prev, dec[n - 1].0, v);
            if j == n - 1 {
                law_map_get_after_insert(prev, dec[j].0, v);
            } else if 0 <= j < n - 1 && dec[n - 1].0 != dec[j].0 {
                law_map_insert_keeps_others(prev, dec[n - 1].0, v, dec[j].0);
            }
        }
    }
}

/// Passthrough objects read from Lua keep the keys they do not know: when `validate_lua`
/// succeeds on a pure-hash table at a passthrough object schema, every decoded key that
/// the schema neither declares nor strips, and that occurs once, is in the result with
/// its freely converted value.
pub proof fn law_lua_passthrough_keeps_unknown<H: Hooks>(h: &H, s: Schema, arr: Seq<LuaVal>, hash: Seq<(LuaVal, LuaVal)>, dec: Seq<(Seq<char>, LuaVal)>, j: int, out: Seq<(Seq<char>, Val)>)
    requires
        s.kind matches SchemaKind::Object(body) && body.mode is Passthrough,
        decode_keys(hash, hash.len() as int) == Ok::<Seq<(Seq<char>, LuaVal)>, crate::error::ErrorView>(dec),
        0 <= j < dec.len(),
        s.kind matches SchemaKind::Object(body) && lua_unknown(body, dec[j].0),
        forall|i: int| 0 <= i < dec.len() && i != j ==> dec[i].0 != dec[j].0,
        lua_result(h, s, LuaVal::Table(arr, hash)) == Ok::<Val, crate::error::ErrorView>(Val::Obj(out)),
    ensures
        free_val(dec[j].1) is Ok,
        map_get(out, dec[j].0) == Some(free_val(dec[j].1)->Ok_0),
{
    if let SchemaKind::Object(body) = s.kind {
        let l = LuaVal::Table(arr, hash);
        assert(lua_trans(h, s, l, 0) == lua_inner(h, s, l, 1));
        assert(lua_inner(h, s, l, 1) == lua_object(h, body, dec, 1));
        let n = body.shape@.len() as int;
        lemma_lua_fields_distinct(h, body, dec, n, 1);
        let acc = lua_fields(h, body, dec, n, 1)->Ok_0;
        lemma_lua_extra_keeps(body, dec, acc, dec.len() as int, j);
        let m = lua_extra(body, dec, acc, dec.len() as int)->Ok_0;
        assert(lua_object(h, body, dec, 1) == Ok::<Val, crate::error::ErrorView>(Val::Obj(m)));
        let k = dec[j].0;
        lemma_key_pos_some(m, k);
        let p = crate::value::key_pos(m, k)->0;
        assert(m[p].0 == k);
        law_passthrough_keeps_unknown(h, s, m, 0, out, p);
    }
}

proof fn lemma_null_keys_has(dec: Seq<(Seq<char>, LuaVal)>, n: int, j: int)
    requires
        0 <= j < n <= dec.len(),
    ensures
        map_get(null_keys(dec, n), dec[j].0) is Some,
    decreases n,
{
    if j == n - 1 {
        law_map_get_after_insert(null_keys(dec, n - 1), dec[j].0, Val::Null);
    } else {
        lemma_null_keys_has(dec, n - 1, j);
        if dec[n - 1].0 != dec[j].0 {
            law_map_insert_keeps_others(null_keys(dec, n - 1), dec[n - 1].0, Val::Null, dec[j].0);
        } else {
            law_map_get_after_insert(null_keys(dec, n - 1), dec[j].0, Val::Null);
        }
    }
}

/// Strict objects read from Lua refuse the keys they do not know: a pure-hash table with
/// a decoded key that a strict object schema neither declares nor strips fails
/// `validate_lua` with `unknown_property`, before any field is converted (the object's
/// validators, if any, passing on it).
pub proof fn law_lua_strict_refuses_unknown<H: Hooks>(h: &H, s: Schema, hash: Seq<(LuaVal, LuaVal)>, dec: Seq<(Seq<char>, LuaVal)>, j: int)
    requires
        s.kind matches SchemaKind::Object(body) && body.mode is Strict,
        decode_keys(hash, hash.len() as int) == Ok::<Seq<(Seq<char>, LuaVal)>, crate::error::ErrorView>(dec),
        0 <= j < dec.len(),
        s.kind matches SchemaKind::Object(body) && lua_unknown(body, dec[j].0),
        validators_upto(s.validators@, Val::Obj(null_keys(dec, dec.len() as int)), s.validators@.len() as int) is Ok,
    ensures
        lua_result(h, s, LuaVal::Table(Seq::empty(), hash)) matches Err(e) && e.code == "unknown_property"@,
{
    if let SchemaKind::Object(body) = s.kind {
        let l = LuaVal::Table(Seq::empty(), hash);
        assert(lua_trans(h, s, l, 0) == lua_inner(h, s, l, 1));
        assert(lua_inner(h, s, l, 1) == lua_object(h, body, dec, 1));
        assert(lua_unknown(body, dec[j].0));
        let m = null_keys(dec, dec.len() as int);
        assert(lua_object(h, body, dec, 1) == Ok::<Val, crate::error::ErrorView>(Val::Obj(m)));
        lemma_null_keys_has(dec, dec.len() as int, j);
        lemma_key_pos_some(m, dec[j].0);
        let p = crate::value::key_pos(m, dec[j].0)->0;
        law_strict_refuses_unknown(h, s, m, p, 0);
    }
}

// ---------------------------------------------------------------------------
// Buffers
// ---------------------------------------------------------------------------

/// A buffer accepts bytes only: anything else (a number array among them) is a
/// `type_mismatch`, unless it is the `null` of a nullable buffer.
pub proof fn law_buffer_needs_bytes<H: Hooks>(h: &H, s: Schema, v: Val, depth: int)
    requires
        s.kind is Buffer,
        !(v is Bytes),
        !(v is Null && s.modifiers.nullable),
        0 <= depth < MAX_PARSE_DEPTH,
    ensures
        sem_present(h, s, v, depth) matches Err(e) && e.code == "type_mismatch"@,
{
    assert(sem_present(h, s, v, depth) == sem_body(h, s, v, depth + 1));
}

// ---------------------------------------------------------------------------
// Order of the checks
// ---------------------------------------------------------------------------

/// Nesting deeper than [`MAX_PARSE_DEPTH`] is refused with `parse_depth_exceeded`,
/// whatever the schema and the value.
pub proof fn law_depth_guard<H: Hooks>(h: &H, s: Schema, v: Val, depth: int)
    requires
        depth >= MAX_PARSE_DEPTH,
    ensures
        sem_present(h, s, v, depth) matches Err(e) && e.code == "parse_depth_exceeded"@,
{
}

/// A discriminated union whose construction found a defect refuses every value with
/// `invalid_discriminated_union`, before any type check (only the `null` of a nullable
/// schema passes first).
pub proof fn law_invalid_discriminated_union_wins<H: Hooks>(h: &H, s: Schema, v: Val, depth: int)
    requires
        s.kind matches SchemaKind::DiscriminatedUnion(body) && body.state is Invalid,
        !(v is Null && s.modifiers.nullable),
        0 <= depth < MAX_PARSE_DEPTH,
    ensures
        sem_present(h, s, v, depth) matches Err(e) && e.code == "invalid_discriminated_union"@,
{
    assert(sem_present(h, s, v, depth) == sem_body(h, s, v, depth + 1));
}

// ---------------------------------------------------------------------------
// The runtime strip layer comes before the unknown-key gate
// ---------------------------------------------------------------------------

/// `s`, an object schema with body `body`, in mode `m`.
pub open spec fn in_mode(s: Schema, body: ObjectBody, m: ObjectMode) -> Schema {
    Schema { kind: SchemaKind::Object(ObjectBody { mode: m, ..body }), ..s }
}

proof fn lemma_unknown_none(body: ObjectBody, input: Seq<(Seq<char>, Val)>, n: int)
    requires
        n <= input.len(),
        forall|i: int| 0 <= i < n ==> !is_unknown(body, #[trigger] input[i].0),
    ensures
        unknown_upto(body, input, n) is None,
    decreases n,
{
    if n > 0 {
        lemma_unknown_none(body, input, n - 1);
    }
}

proof fn lemma_fields_ignore_mode<H: Hooks>(h: &H, body: ObjectBody, m: ObjectMode, input: Seq<(Seq<char>, Val)>, n: int, d: int)
    ensures
        fields_upto(h, body, input, n, d) == fields_upto(h, ObjectBody { mode: m, ..body }, input, n, d),
    decreases n,
{
    let other = ObjectBody { mode: m, ..body };
    assert(crate::semantics::prestrip(other) == crate::semantics::prestrip(body));
    if n > 0 {
        lemma_fields_ignore_mode(h, body, m, input, n - 1, d);
    }
}

/// Strict mode with a runtime strip set: when every key of the object is declared by the
/// schema or stripped, strict mode answers exactly what strip mode answers.
pub proof fn law_stripped_keys_pass_strict<H: Hooks>(h: &H, s: Schema, input: Seq<(Seq<char>, Val)>, depth: int)
    requires
        s.kind matches SchemaKind::Object(body) && body.mode is Strict,
        0 <= depth < MAX_PARSE_DEPTH,
        s.kind matches SchemaKind::Object(body) && forall|i: int| 0 <= i < input.len() ==> !is_unknown(body, #[trigger] input[i].0),
    ensures
        s.kind matches SchemaKind::Object(body)
            && sem_present(h, s, Val::Obj(input), depth) == sem_present(h, in_mode(s, body, ObjectMode::Strip), Val::Obj(input), depth),
{
    if let SchemaKind::Object(body) = s.kind {
        let t = in_mode(s, body, ObjectMode::Strip);
        let tb = ObjectBody { mode: ObjectMode::Strip, ..body };
        lemma_unknown_none(body, input, input.len() as int);
        lemma_fields_ignore_mode(h, body, ObjectMode::Strip, input, body.shape@.len() as int, depth + 1);
        assert(sem_object(h, body, input, depth + 1) == sem_object(h, tb, input, depth + 1));
        assert(sem_inner(h, s.kind, Val::Obj(input), depth + 1) == sem_inner(h, t.kind, Val::Obj(input), depth + 1));
        assert(check_kind(s.kind, Val::Obj(input)) == check_kind(t.kind, Val::Obj(input)));
        assert(sem_body(h, s, Val::Obj(input), depth + 1) == sem_body(h, t, Val::Obj(input), depth + 1));
    }
}

// ---------------------------------------------------------------------------
// Missing optional properties
// ---------------------------------------------------------------------------

proof fn lemma_fields_omit<H: Hooks>(h: &H, body: ObjectBody, input: Seq<(Seq<char>, Val)>, n: int, d: int, j: int)
    requires
        n <= body.shape@.len(),
        0 <= j < body.shape@.len(),
        forall|i: int| 0 <= i < body.shape@.len() && (#[trigger] body.shape@[i]).0@ == body.shape@[j].0@ ==> i == j,
        field_input(body, input, body.shape@[j].0@) is None,
        body.shape@[j].1.modifiers.default is None,
        body.shape@[j].1.modifiers.optional || body.all_optional,
    ensures
        fields_upto(h, body, input, n, d) matches Ok(acc) ==> map_get(acc, body.shape@[j].0@) is None,
    decreases n,
{
    let k = body.shape@[j].0@;
    if n <= 0 {
        lemma_key_pos_none(Seq::<(Seq<char>, Val)>::empty(), k);
    } else {
        lemma_fields_omit(h, body, input, n - 1, d, j);
        if let Ok(acc) = fields_upto(h, body, input, n - 1, d) {
            let key = body.shape@[n - 1].0@;
            let raw = field_input(body, input, key);
            if let Ok(Some(o)) = sem_field(h, body.shape@[n - 1].1, raw, d) {
                if n - 1 != j {
                    assert(key != k);
                    law_map_insert_keeps_others(acc, key, o, k);
                }
            }
        }
    }
}

proof fn lemma_passthrough_keeps(body: ObjectBody, input: Seq<(Seq<char>, Val)>, acc: Seq<(Seq<char>, Val)>, n: int, k: Seq<char>)
    requires
        n <= input.len(),
        !is_unknown(body, k),
    ensures
        map_get(passthrough_upto(body, input, acc, n), k) == map_get(acc, k),
    decreases n,
{
    if n > 0 {
        lemma_passthrough_keeps(body, input, acc, n - 1, k);
        let prev = passthrough_upto(body, input, acc, n - 1);
        if is_unknown(body, input[n - 1].0) {
            law_map_insert_keeps_others(prev, input[n - 1].0, input[n - 1].1, k);
        }
    }
}

/// A missing property that is optional (or under `partial`) and has no default is
/// omitted from the output: it is never emitted as `null`.
pub proof fn law_missing_optional_omitted<H: Hooks>(h: &H, s: Schema, input: Seq<(Seq<char>, Val)>, depth: int, out: Seq<(Seq<char>, Val)>, j: int)
    requires
        s.kind matches SchemaKind::Object(body) && {
            &&& 0 <= j < body.shape@.len()
            &&& forall|i: int| 0 <= i < body.shape@.len() && (#[trigger] body.shape@[i]).0@ == body.shape@[j].0@ ==> i == j
            &&& field_input(body, input, body.shape@[j].0@) is None
            &&& body.shape@[j].1.modifiers.default is None
            &&& (body.shape@[j].1.modifiers.optional || body.all_optional)
        },
        0 <= depth < MAX_PARSE_DEPTH,
        sem_present(h, s, Val::Obj(input), depth) == Ok::<Val, crate::error::ErrorView>(Val::Obj(out)),
    ensures
        s.kind matches SchemaKind::Object(body) && map_get(out, body.shape@[j].0@) is None,
{
    if let SchemaKind::Object(body) = s.kind {
        let k = body.shape@[j].0@;
        assert(check_kind(s.kind, Val::Obj(input)) is Ok);
        assert(sem_present(h, s, Val::Obj(input), depth) == sem_body(h, s, Val::Obj(input), depth + 1));
        assert(validators_upto(s.validators@, Val::Obj(input), s.validators@.len() as int) is Ok);
        lemma_object_parse(h, s, body, input, depth);
        lemma_fields_omit(h, body, input, body.shape@.len() as int, depth + 1, j);
        if let Ok(o) = sem_object(h, body, input, depth + 1) {
            lemma_refine_keeps(h, s, o, s.modifiers.refine@.len() as int);
            if let Ok(acc) = fields_upto(h, body, input, body.shape@.len() as int, depth + 1) {
                assert(shape_has(body.shape@, k));
                lemma_passthrough_keeps(body, input, acc, input.len() as int, k);
            }
        }
    }
}

// ---------------------------------------------------------------------------
// Present values and defaults
// ---------------------------------------------------------------------------

/// An error with code `required`.
pub open spec fn is_required_error<T>(r: Result<T, crate::error::ErrorView>) -> bool {
    match r {
        Err(e) => e.code == "required"@,
        Ok(_) => false,
    }
}

/// Whether the field's default exists and fails to parse with `required`.
pub open spec fn default_fails_required<H: Hooks>(h: &H, fs: Schema, d: int) -> bool {
    match fs.modifiers.default {
        Some(def) => is_required_error(sem_present(h, fs, def@, d)),
        None => false,
    }
}

proof fn lemma_fields_value<H: Hooks>(h: &H, body: ObjectBody, input: Seq<(Seq<char>, Val)>, n: int, d: int, j: int)
    requires
        0 <= j < n <= body.shape@.len(),
        forall|i: int| 0 <= i < body.shape@.len() && (#[trigger] body.shape@[i]).0@ == body.shape@[j].0@ ==> i == j,
    ensures
        fields_upto(h, body, input, n, d) matches Ok(acc) ==> (sem_field(h, body.shape@[j].1, field_input(body, input, body.shape@[j].0@), d) matches Ok(Some(o))
            ==> map_get(acc, body.shape@[j].0@) == Some(o)),
    decreases n,
{
    let k = body.shape@[j].0@;
    if n - 1 == j {
        if let Ok(acc) = fields_upto(h, body, input, n - 1, d) {
            if let Ok(Some(o)) = sem_field(h, body.shape@[j].1, field_input(body, input, k), d) {
                law_map_get_after_insert(acc, k, o);
            }
        }
    } else {
        lemma_fields_value(h, body, input, n - 1, d, j);
        if let Ok(acc) = fields_upto(h, body, input, n - 1, d) {
            let key = body.shape@[n - 1].0@;
            let raw = field_input(body, input, key);
            if let Ok(Some(o)) = sem_field(h, body.shape@[n - 1].1, raw, d) {
                assert(key != k);
                law_map_insert_keeps_others(acc, key, o, k);
            }
        }
    }
}

/// A declared property holds, in the output, its input parsed by its schema when the
/// input is present (an explicit `null` included), and its default parsed by its schema
/// when the input is missing and there is a default.
pub proof fn law_present_parsed_missing_defaulted<H: Hooks>(h: &H, s: Schema, input: Seq<(Seq<char>, Val)>, depth: int, out: Seq<(Seq<char>, Val)>, j: int)
    requires
        s.kind matches SchemaKind::Object(body) && {
            &&& 0 <= j < body.shape@.len()
            &&& forall|i: int| 0 <= i < body.shape@.len() && (#[trigger] body.shape@[i]).0@ == body.shape@[j].0@ ==> i == j
            // under `partial`, a missing property whose default fails with `required` is left out
            &&& !(body.all_optional && field_input(body, input, body.shape@[j].0@) is None
                && default_fails_required(h, body.shape@[j].1, depth + 1))
        },
        0 <= depth < MAX_PARSE_DEPTH,
        sem_present(h, s, Val::Obj(input), depth) == Ok::<Val, crate::error::ErrorView>(Val::Obj(out)),
    ensures
        s.kind matches SchemaKind::Object(body) && {
            let fs = body.shape@[j].1;
            let k = body.shape@[j].0@;
            match field_input(body, input, k) {
                Some(x) => map_get(out, k) matches Some(o) && sem_present(h, fs, x, depth + 1) == Ok::<Val, crate::error::ErrorView>(o),
                None => match fs.modifiers.default {
                    Some(def) => map_get(out, k) matches Some(o) && sem_present(h, fs, def@, depth + 1) == Ok::<Val, crate::error::ErrorView>(o),
                    None => true,
                },
            }
        },
{
    if let SchemaKind::Object(body) = s.kind {
        let k = body.shape@[j].0@;
        assert(check_kind(s.kind, Val::Obj(input)) is Ok);
        assert(sem_present(h, s, Val::Obj(input), depth) == sem_body(h, s, Val::Obj(input), depth + 1));
        assert(validators_upto(s.validators@, Val::Obj(input), s.validators@.len() as int) is Ok);
        lemma_object_parse(h, s, body, input, depth);
        lemma_fields_value(h, body, input, body.shape@.len() as int, depth + 1, j);
        lemma_fields_succeed_at(h, body, input, body.shape@.len() as int, depth + 1, j);
        if let Ok(o) = sem_object(h, body, input, depth + 1) {
            lemma_refine_keeps(h, s, o, s.modifiers.refine@.len() as int);
            if let Ok(acc) = fields_upto(h, body, input, body.shape@.len() as int, depth + 1) {
                assert(shape_has(body.shape@, k));
                lemma_passthrough_keeps(body, input, acc, input.len() as int, k);
            }
        }
    }
}

/// When the fields succeed, the field at `j` succeeded: with a value, or with nothing
/// (only when its input was missing).
proof fn lemma_fields_succeed_at<H: Hooks>(h: &H, body: ObjectBody, input: Seq<(Seq<char>, Val)>, n: int, d: int, j: int)
    requires
        0 <= j < n <= body.shape@.len(),
    ensures
        fields_upto(h, body, input, n, d) is Ok ==> {
            let r = sem_field(h, body.shape@[j].1, field_input(body, input, body.shape@[j].0@), d);
            r is Ok || (body.all_optional && field_input(body, input, body.shape@[j].0@) is None && is_required_error(r))
        },
    decreases n,
{
    if n - 1 > j {
        lemma_fields_succeed_at(h, body, input, n - 1, d, j);
    }
}

// ---------------------------------------------------------------------------
// Required properties, nullable schemas, unions
// ---------------------------------------------------------------------------

proof fn lemma_fields_fail<H: Hooks>(h: &H, body: ObjectBody, input: Seq<(Seq<char>, Val)>, n: int, d: int, j: int)
    requires
        0 <= j < n <= body.shape@.len(),
        field_input(body, input, body.shape@[j].0@) is None,
        body.shape@[j].1.modifiers.default is None,
        !body.shape@[j].1.modifiers.optional,
        !body.all_optional,
    ensures
        fields_upto(h, body, input, n, d) is Err,
    decreases n,
{
    if n - 1 > j {
        lemma_fields_fail(h, body, input, n - 1, d, j);
    } else {
        let raw = field_input(body, input, body.shape@[j].0@);
        assert(sem_field(h, body.shape@[j].1, raw, d) is Err);
    }
}

/// A property that is missing, has no default and is neither optional nor under
/// `partial` makes the object fail.
pub proof fn law_missing_required_fails<H: Hooks>(h: &H, s: Schema, input: Seq<(Seq<char>, Val)>, depth: int, j: int)
    requires
        s.kind matches SchemaKind::Object(body) && {
            &&& 0 <= j < body.shape@.len()
            &&& field_input(body, input, body.shape@[j].0@) is None
            &&& body.shape@[j].1.modifiers.default is None
            &&& !body.shape@[j].1.modifiers.optional
            &&& !body.all_optional
        },
        0 <= depth < MAX_PARSE_DEPTH,
    ensures
        sem_present(h, s, Val::Obj(input), depth) is Err,
{
    if let SchemaKind::Object(body) = s.kind {
        assert(sem_present(h, s, Val::Obj(input), depth) == sem_body(h, s, Val::Obj(input), depth + 1));
        lemma_fields_fail(h, body, input, body.shape@.len() as int, depth + 1, j);
        assert(sem_inner(h, s.kind, Val::Obj(input), depth + 1) == sem_object(h, body, input, depth + 1));
    }
}

/// A nullable schema of any kind, a lazy one included, accepts `null` as it is: before
/// lazy resolution, the type check, the validators and the refinements.
pub proof fn law_nullable_accepts_null<H: Hooks>(h: &H, s: Schema, depth: int)
    requires
        s.modifiers.nullable,
        0 <= depth < MAX_PARSE_DEPTH,
    ensures
        sem_present(h, s, Val::Null, depth) == Ok::<Val, crate::error::ErrorView>(Val::Null),
{
    assert(sem_present(h, s, Val::Null, depth) == sem_body(h, s, Val::Null, depth + 1));
}

proof fn lemma_union_first<H: Hooks>(h: &H, variants: Seq<Schema>, v: Val, n: int, d: int, j: int)
    requires
        0 <= j < n <= variants.len(),
        forall|i: int| 0 <= i < j ==> sem_present(h, #[trigger] variants[i], v, d) is Err,
        sem_present(h, variants[j], v, d) is Ok,
    ensures
        union_upto(h, variants, v, n, d) == match sem_present(h, variants[j], v, d) {
            Ok(o) => Ok::<Val, Seq<crate::error::ErrorView>>(o),
            Err(_) => Err(Seq::empty()),
        },
    decreases n,
{
    if n - 1 > j {
        lemma_union_first(h, variants, v, n - 1, d, j);
    } else {
        lemma_union_none(h, variants, v, j, d);
    }
}

proof fn lemma_union_none<H: Hooks>(h: &H, variants: Seq<Schema>, v: Val, n: int, d: int)
    requires
        0 <= n <= variants.len(),
        forall|i: int| 0 <= i < n ==> sem_present(h, #[trigger] variants[i], v, d) is Err,
    ensures
        union_upto(h, variants, v, n, d) matches Err(errs) && errs.len() == n,
    decreases n,
{
    if n > 0 {
        lemma_union_none(h, variants, v, n - 1, d);
        assert(sem_present(h, variants[n - 1], v, d) is Err);
    }
}

/// A `union_mismatch` error with `n` inner errors.
pub open spec fn is_union_mismatch(r: Result<Val, crate::error::ErrorView>, n: nat) -> bool {
    match r {
        Err(e) => e.code == "union_mismatch"@ && e.inner.len() == n,
        Ok(_) => false,
    }
}

/// Unions try their variants in order and the first that accepts the value wins; when
/// none does, the error is `union_mismatch` with one inner error per variant.
pub proof fn law_union_first_match<H: Hooks>(h: &H, s: Schema, v: Val, depth: int)
    requires
        s.kind is Union,
        !(v is Null && s.modifiers.nullable),
        0 <= depth < MAX_PARSE_DEPTH,
        validators_upto(s.validators@, v, s.validators@.len() as int) is Ok,
    ensures
        s.kind matches SchemaKind::Union(variants) && {
            &&& forall|j: int| 0 <= j < variants@.len()
                && (forall|i: int| 0 <= i < j ==> sem_present(h, #[trigger] variants@[i], v, depth + 1) is Err)
                && sem_present(h, variants@[j], v, depth + 1) is Ok
                ==> sem_present(h, s, v, depth) == refine_all(h, s, sem_present(h, variants@[j], v, depth + 1)->Ok_0)
            &&& (forall|i: int| 0 <= i < variants@.len() ==> sem_present(h, #[trigger] variants@[i], v, depth + 1) is Err)
                ==> is_union_mismatch(sem_present(h, s, v, depth), variants@.len())
        },
{
    if let SchemaKind::Union(variants) = s.kind {
        assert(sem_present(h, s, v, depth) == sem_body(h, s, v, depth + 1));
        assert forall|j: int| 0 <= j < variants@.len()
            && (forall|i: int| 0 <= i < j ==> sem_present(h, #[trigger] variants@[i], v, depth + 1) is Err)
            && sem_present(h, variants@[j], v, depth + 1) is Ok
            implies sem_present(h, s, v, depth) == refine_all(h, s, sem_present(h, variants@[j], v, depth + 1)->Ok_0) by {
            lemma_union_first(h, variants@, v, variants@.len() as int, depth + 1, j);
        }
        if forall|i: int| 0 <= i < variants@.len() ==> sem_present(h, #[trigger] variants@[i], v, depth + 1) is Err {
            lemma_union_none(h, variants@, v, variants@.len() as int, depth + 1);
        }
    }
}

} // verus!
