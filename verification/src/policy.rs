//! The built-in `sql` import policy: rewrites of a JSON Schema document, applied to
//! every schema node, that turn SQL-flavoured schemas into ones the importer reads.
use vstd::prelude::*;
use crate::value::{map_get, map_insert, key_pos, lemma_key_pos_some, lemma_key_pos_first, lemma_key_pos_none};
use crate::export::{JsonValue, JsonVal, json_view, jsons_view, members_view, jstr, lemma_json_array_view, lemma_json_object_view, json_insert};
use crate::text::{owned, str_eq, chars_of, concat3};
use crate::deref::{step_key, subschema_key, lemma_step_keys_differ};
use crate::error::{strings_view, opt_view, ZerxError, ErrorCode, ErrorView, error_view, ev_new};

verus! {

// ---------------------------------------------------------------------------
// Sizes, for termination
// ---------------------------------------------------------------------------

/// Number of nodes of a document (object keys are not counted).
pub open spec fn jsize(v: JsonVal) -> nat
    decreases v, 1int,
{
    match v {
        JsonVal::Arr(s) => 1 + jsizes(s),
        JsonVal::Obj(o) => 1 + msizes(o),
        _ => 1,
    }
}

pub open spec fn jsizes(s: Seq<JsonVal>) -> nat
    decreases s, 0int,
{
    if s.len() == 0 {
        0
    } else {
        jsizes(s.drop_last()) + jsize(s.last())
    }
}

pub open spec fn msizes(o: Seq<(Seq<char>, JsonVal)>) -> nat
    decreases o, 0int,
{
    if o.len() == 0 {
        0
    } else {
        msizes(o.drop_last()) + jsize(o.last().1)
    }
}

proof fn lemma_jsizes_elem(s: Seq<JsonVal>, i: int)
    requires
        0 <= i < s.len(),
    ensures
        jsize(s[i]) <= jsizes(s),
    decreases s.len(),
{
    if i < s.len() - 1 {
        lemma_jsizes_elem(s.drop_last(), i);
    }
}

proof fn lemma_msizes_elem(o: Seq<(Seq<char>, JsonVal)>, i: int)
    requires
        0 <= i < o.len(),
    ensures
        jsize(o[i].1) <= msizes(o),
    decreases o.len(),
{
    if i < o.len() - 1 {
        lemma_msizes_elem(o.drop_last(), i);
    }
}

/// Every element of an array, and every member value of an object, is smaller than it.
pub proof fn lemma_parts_smaller(v: JsonVal)
    ensures
        v matches JsonVal::Arr(s) ==> forall|i: int| 0 <= i < s.len() ==> #[trigger] jsize(s[i]) < jsize(v),
        v matches JsonVal::Obj(o) ==> forall|i: int| 0 <= i < o.len() ==> #[trigger] jsize(o[i].1) < jsize(v),
{
    match v {
        JsonVal::Arr(s) => {
            assert forall|i: int| 0 <= i < s.len() implies #[trigger] jsize(s[i]) < jsize(v) by {
                lemma_jsizes_elem(s, i);
            }
        },
        JsonVal::Obj(o) => {
            assert forall|i: int| 0 <= i < o.len() implies #[trigger] jsize(o[i].1) < jsize(v) by {
                lemma_msizes_elem(o, i);
            }
        },
        _ => {},
    }
}

proof fn lemma_msizes_update(o: Seq<(Seq<char>, JsonVal)>, i: int, e: (Seq<char>, JsonVal))
    requires
        0 <= i < o.len(),
    ensures
        msizes(o.update(i, e)) + jsize(o[i].1) == msizes(o) + jsize(e.1),
    decreases o.len(),
{
    let u = o.update(i, e);
    if i == o.len() - 1 {
        assert(u.drop_last() =~= o.drop_last());
    } else {
        assert(u.drop_last() =~= o.drop_last().update(i, e));
        lemma_msizes_update(o.drop_last(), i, e);
    }
}

proof fn lemma_msizes_push(o: Seq<(Seq<char>, JsonVal)>, e: (Seq<char>, JsonVal))
    ensures
        msizes(o.push(e)) == msizes(o) + jsize(e.1),
{
    assert(o.push(e).drop_last() =~= o);
}

// ---------------------------------------------------------------------------
// Object members
// ---------------------------------------------------------------------------

/// `o` without the members named `k`.
pub open spec fn map_remove(o: Seq<(Seq<char>, JsonVal)>, k: Seq<char>) -> Seq<(Seq<char>, JsonVal)>
    decreases o.len(),
{
    if o.len() == 0 {
        o
    } else {
        let rest = map_remove(o.drop_last(), k);
        if o.last().0 == k {
            rest
        } else {
            rest.push(o.last())
        }
    }
}

/// The string stored under `k`, if the member is a string.
pub open spec fn str_member(o: Seq<(Seq<char>, JsonVal)>, k: Seq<char>) -> Option<Seq<char>> {
    match map_get(o, k) {
        Some(JsonVal::Str(s)) => Some(s),
        _ => None,
    }
}

/// Whether every member of `o` is a member of `p`, or a string.
pub open spec fn members_from(o: Seq<(Seq<char>, JsonVal)>, p: Seq<(Seq<char>, JsonVal)>) -> bool {
    forall|i: int| 0 <= i < o.len() ==> (#[trigger] o[i].1 is Str || p.contains(o[i]))
}

proof fn lemma_remove_members(o: Seq<(Seq<char>, JsonVal)>, k: Seq<char>)
    ensures
        msizes(map_remove(o, k)) <= msizes(o),
        forall|i: int| 0 <= i < map_remove(o, k).len() ==> o.contains(#[trigger] map_remove(o, k)[i]),
        forall|i: int| 0 <= i < map_remove(o, k).len() ==> (#[trigger] map_remove(o, k)[i]).0 != k,
    decreases o.len(),
{
    if o.len() > 0 {
        let rest = map_remove(o.drop_last(), k);
        lemma_remove_members(o.drop_last(), k);
        lemma_msizes_push(rest, o.last());
        assert forall|i: int| 0 <= i < rest.len() implies o.contains(#[trigger] rest[i]) by {
            let j = choose|j: int| 0 <= j < o.drop_last().len() && o.drop_last()[j] == rest[i];
            assert(o[j] == rest[i]);
        }
        if o.last().0 != k {
            assert(o[o.len() - 1] == o.last());
        }
    }
}

proof fn lemma_remove_keeps_get(o: Seq<(Seq<char>, JsonVal)>, k: Seq<char>, other: Seq<char>)
    requires
        other != k,
    ensures
        map_get(map_remove(o, k), other) == map_get(o, other),
    decreases o.len(),
{
    if o.len() > 0 {
        let r0 = map_remove(o.drop_last(), k);
        lemma_remove_keeps_get(o.drop_last(), k, other);
        lemma_key_pos_some(o.drop_last(), other);
        lemma_key_pos_some(r0, other);
        lemma_key_pos_some(o, other);
        let r = map_remove(o, k);
        lemma_key_pos_some(r, other);
        if o.last().0 == k {
            // the removed last member cannot be `other`
            match key_pos(o.drop_last(), other) {
                Some(p) => {
                    assert(o[p] == o.drop_last()[p]);
                    assert forall|j: int| 0 <= j < p implies o[j].0 != other by {
                        assert(o[j] == o.drop_last()[j]);
                    }
                    lemma_key_pos_first(o, other, p);
                },
                None => {
                    assert forall|j: int| 0 <= j < o.len() implies o[j].0 != other by {
                        if j < o.len() - 1 {
                            assert(o[j] == o.drop_last()[j]);
                        }
                    }
                    lemma_key_pos_none(o, other);
                },
            }
        } else {
            assert(r == r0.push(o.last()));
            match key_pos(r0, other) {
                Some(p) => {
                    assert(r[p] == r0[p]);
                    assert forall|j: int| 0 <= j < p implies r[j].0 != other by {
                        assert(r[j] == r0[j]);
                    }
                    lemma_key_pos_first(r, other, p);
                    let q = key_pos(o.drop_last(), other)->0;
                    assert(o[q] == o.drop_last()[q]);
                    assert forall|j: int| 0 <= j < q implies o[j].0 != other by {
                        assert(o[j] == o.drop_last()[j]);
                    }
                    lemma_key_pos_first(o, other, q);
                },
                None => {
                    assert forall|j: int| 0 <= j < o.len() - 1 implies o[j].0 != other by {
                        assert(o[j] == o.drop_last()[j]);
                    }
                    if o.last().0 == other {
                        assert forall|j: int| 0 <= j < r0.len() implies r[j].0 != other by {
                            assert(r[j] == r0[j]);
                        }
                        lemma_key_pos_first(r, other, r0.len() as int);
                        lemma_key_pos_first(o, other, o.len() - 1);
                    } else {
                        assert forall|j: int| 0 <= j < r.len() implies r[j].0 != other by {
                            if j < r0.len() {
                                assert(r[j] == r0[j]);
                            }
                        }
                        lemma_key_pos_none(r, other);
                        lemma_key_pos_none(o, other);
                    }
                },
            }
        }
    }
}

pub proof fn lemma_get_member(o: Seq<(Seq<char>, JsonVal)>, k: Seq<char>)
    ensures
        map_get(o, k) matches Some(c) ==> exists|i: int| 0 <= i < o.len() && #[trigger] o[i] == (k, c),
{
    lemma_key_pos_some(o, k);
    if let Some(i) = key_pos(o, k) {
        assert(o[i] == (k, o[i].1));
    }
}

proof fn lemma_insert_members(o: Seq<(Seq<char>, JsonVal)>, k: Seq<char>, x: JsonVal)
    ensures
        forall|i: int| 0 <= i < map_insert(o, k, x).len() ==>
            (o.contains(#[trigger] map_insert(o, k, x)[i]) || map_insert(o, k, x)[i] == (k, x)),
{
    lemma_key_pos_some(o, k);
    let n = map_insert(o, k, x);
    assert forall|i: int| 0 <= i < n.len() implies (o.contains(#[trigger] n[i]) || n[i] == (k, x)) by {
        if i < o.len() && n[i] != (k, x) {
            assert(n[i] == o[i]);
        }
    }
}

// ---------------------------------------------------------------------------
// The rewrites
// ---------------------------------------------------------------------------

/// A rewrite of the `sql` policy, applied to one schema node.
#[derive(Clone, Copy, PartialEq, Eq, Structural, Debug)]
pub enum SqlRule {
    /// `type: [T, "null"]` and `oneOf: [X, {"type": "null"}]` become `anyOf: [.., {"type": "null"}]`.
    Nullable,
    /// An array schema without `items` gains `items: {}`.
    ArrayItems,
    /// PostgreSQL formats and `x-pg-type` annotations become the importer's own formats.
    PgType,
}

/// The array stored under `k`, if the member is an array.
pub open spec fn arr_member(o: Seq<(Seq<char>, JsonVal)>, k: Seq<char>) -> Option<Seq<JsonVal>> {
    match map_get(o, k) {
        Some(JsonVal::Arr(s)) => Some(s),
        _ => None,
    }
}

pub open spec fn null_schema() -> JsonVal {
    JsonVal::Obj(seq![("type"@, jstr("null"@))])
}

/// `{"anyOf": [x, {"type": "null"}]}`.
pub open spec fn or_null(x: JsonVal) -> JsonVal {
    JsonVal::Obj(seq![("anyOf"@, JsonVal::Arr(seq![x, null_schema()]))])
}

/// Whether one of the strings of `s` is `"null"`.
pub open spec fn mentions_null(s: Seq<JsonVal>) -> bool
    decreases s.len(),
{
    if s.len() == 0 {
        false
    } else {
        mentions_null(s.drop_last()) || s.last() == jstr("null"@)
    }
}

/// The strings of `s` other than `"null"`, in order.
pub open spec fn non_null_names(s: Seq<JsonVal>) -> Seq<Seq<char>>
    decreases s.len(),
{
    if s.len() == 0 {
        Seq::empty()
    } else {
        let rest = non_null_names(s.drop_last());
        match s.last() {
            JsonVal::Str(t) => if t == "null"@ { rest } else { rest.push(t) },
            _ => rest,
        }
    }
}

/// Exactly `{"type": "null"}`.
pub open spec fn is_null_schema(x: JsonVal) -> bool {
    match x {
        JsonVal::Obj(p) => p.len() == 1 && str_member(p, "type"@) == Some("null"@),
        _ => false,
    }
}

/// The `Nullable` rewrite of one node.
pub open spec fn nullable_rule(v: JsonVal) -> JsonVal {
    match v {
        JsonVal::Obj(o) => {
            let types = arr_member(o, "type"@);
            let alts = arr_member(o, "oneOf"@);
            if types is Some && mentions_null(types->0) && non_null_names(types->0).len() == 1 {
                let named = map_insert(o, "type"@, jstr(non_null_names(types->0)[0]));
                or_null(JsonVal::Obj(map_remove(map_remove(named, "oneOf"@), "allOf"@)))
            } else if alts is Some && alts->0.len() == 2 && (is_null_schema(alts->0[0]) || is_null_schema(alts->0[1])) {
                or_null(if is_null_schema(alts->0[0]) { alts->0[1] } else { alts->0[0] })
            } else {
                v
            }
        },
        _ => v,
    }
}

/// The `ArrayItems` rewrite of one node.
pub open spec fn array_items_rule(v: JsonVal) -> JsonVal {
    match v {
        JsonVal::Obj(o) => if str_member(o, "type"@) == Some("array"@) && map_get(o, "items"@) is None {
            JsonVal::Obj(map_insert(o, "items"@, JsonVal::Obj(Seq::empty())))
        } else {
            v
        },
        _ => v,
    }
}

/// ASCII case-insensitive equality of two characters.
pub open spec fn char_eq_ignore_case(a: char, b: char) -> bool {
    a == b || (is_ascii_letter(a) && is_ascii_letter(b) && (a as int - b as int == 32 || b as int - a as int == 32))
}

pub open spec fn is_ascii_letter(c: char) -> bool {
    ('a' <= c && c <= 'z') || ('A' <= c && c <= 'Z')
}

/// ASCII case-insensitive equality of two strings (`str::eq_ignore_ascii_case`).
pub open spec fn eq_ignore_case(a: Seq<char>, b: Seq<char>) -> bool {
    a.len() == b.len() && forall|i: int| 0 <= i < a.len() ==> char_eq_ignore_case(#[trigger] a[i], b[i])
}

/// `o` with `k` set to the string `s`.
pub open spec fn with_str(o: Seq<(Seq<char>, JsonVal)>, k: Seq<char>, s: Seq<char>) -> Seq<(Seq<char>, JsonVal)> {
    map_insert(o, k, jstr(s))
}

/// The `PgType` rewrite of one node.
pub open spec fn pg_type_rule(v: JsonVal) -> JsonVal {
    match v {
        JsonVal::Obj(o) => {
            let typ = str_member(o, "type"@);
            let fmt = str_member(o, "format"@);
            let pg = str_member(o, "x-pg-type"@);
            if typ == Some("string"@) && ((fmt is Some && eq_ignore_case(fmt->0, "bytea"@)) || pg == Some("bytea"@)) {
                JsonVal::Obj(with_str(map_remove(o, "x-pg-type"@), "format"@, "buffer"@))
            } else if typ == Some("string"@) && (fmt == Some("timestamp without time zone"@)
                || fmt == Some("timestamp with time zone"@) || fmt == Some("timestamptz"@)) {
                JsonVal::Obj(with_str(o, "format"@, "date-time"@))
            } else if pg == Some("json"@) || pg == Some("jsonb"@) {
                JsonVal::Obj(with_str(map_remove(map_remove(o, "x-pg-type"@), "type"@), "format"@, "json"@))
            } else if typ == Some("number"@) && fmt == Some("int64"@) {
                JsonVal::Obj(with_str(map_remove(map_remove(o, "format"@), "x-pg-type"@), "type"@, "string"@))
            } else if typ == Some("number"@) && pg == Some("int8"@) {
                JsonVal::Obj(with_str(map_remove(o, "x-pg-type"@), "type"@, "string"@))
            } else if typ == Some("number"@) && (fmt == Some("numeric"@) || fmt == Some("decimal"@)) {
                JsonVal::Obj(with_str(map_remove(map_remove(o, "format"@), "x-pg-type"@), "type"@, "string"@))
            } else if typ == Some("number"@) && pg == Some("numeric"@) {
                JsonVal::Obj(with_str(map_remove(o, "x-pg-type"@), "type"@, "string"@))
            } else {
                v
            }
        },
        _ => v,
    }
}

/// A rewrite applied to one node.
pub open spec fn rule_at(r: SqlRule, v: JsonVal) -> JsonVal {
    match r {
        SqlRule::Nullable => nullable_rule(v),
        SqlRule::ArrayItems => array_items_rule(v),
        SqlRule::PgType => pg_type_rule(v),
    }
}

// ---------------------------------------------------------------------------
// A rewritten node is walked only through parts smaller than the node
// ---------------------------------------------------------------------------

/// A member value that the walk enters: smaller than `n`, or an array whose elements are.
pub open spec fn small_member(c: JsonVal, n: nat) -> bool {
    jsize(c) < n || (c matches JsonVal::Arr(s) && forall|j: int| 0 <= j < s.len() ==> #[trigger] jsize(s[j]) < n)
}

proof fn lemma_jsizes_len(s: Seq<JsonVal>)
    ensures
        jsizes(s) >= s.len(),
    decreases s.len(),
{
    if s.len() > 0 {
        lemma_jsizes_len(s.drop_last());
        assert(jsize(s.last()) >= 1) by {
            reveal_with_fuel(jsize, 1);
        }
    }
}

proof fn lemma_names_count(s: Seq<JsonVal>)
    ensures
        non_null_names(s).len() + (if mentions_null(s) { 1int } else { 0int }) <= s.len(),
    decreases s.len(),
{
    if s.len() > 0 {
        lemma_names_count(s.drop_last());
    }
}

proof fn lemma_single_member_size(k: Seq<char>, x: JsonVal)
    ensures
        jsize(JsonVal::Obj(seq![(k, x)])) == 1 + jsize(x),
{
    let o = seq![(k, x)];
    assert(o.drop_last() =~= Seq::<(Seq<char>, JsonVal)>::empty());
    assert(msizes(o.drop_last()) == 0);
    assert(msizes(o) == msizes(o.drop_last()) + jsize(o.last().1));
}

proof fn lemma_members_from_remove(a: Seq<(Seq<char>, JsonVal)>, p: Seq<(Seq<char>, JsonVal)>, k: Seq<char>)
    requires
        members_from(a, p),
    ensures
        members_from(map_remove(a, k), p),
{
    lemma_remove_members(a, k);
    let r = map_remove(a, k);
    assert forall|i: int| 0 <= i < r.len() implies (#[trigger] r[i].1 is Str || p.contains(r[i])) by {
        assert(a.contains(r[i]));
        let j = choose|j: int| 0 <= j < a.len() && a[j] == r[i];
        assert(a[j].1 is Str || p.contains(a[j]));
    }
}

proof fn lemma_members_from_str(a: Seq<(Seq<char>, JsonVal)>, p: Seq<(Seq<char>, JsonVal)>, k: Seq<char>, t: Seq<char>)
    requires
        members_from(a, p),
    ensures
        members_from(with_str(a, k, t), p),
{
    lemma_insert_members(a, k, jstr(t));
    let n = with_str(a, k, t);
    assert forall|i: int| 0 <= i < n.len() implies (#[trigger] n[i].1 is Str || p.contains(n[i])) by {
        if n[i] != (k, jstr(t)) {
            assert(a.contains(n[i]));
            let j = choose|j: int| 0 <= j < a.len() && a[j] == n[i];
            assert(a[j].1 is Str || p.contains(a[j]));
        }
    }
}

proof fn lemma_small_from(mo: Seq<(Seq<char>, JsonVal)>, o: Seq<(Seq<char>, JsonVal)>)
    requires
        o.len() > 0,
        members_from(mo, o),
    ensures
        forall|i: int| 0 <= i < mo.len() ==> small_member(#[trigger] mo[i].1, jsize(JsonVal::Obj(o))),
{
    let v = JsonVal::Obj(o);
    lemma_parts_smaller(v);
    assert(jsize(o[0].1) < jsize(v));
    assert forall|i: int| 0 <= i < mo.len() implies small_member(#[trigger] mo[i].1, jsize(v)) by {
        if !(mo[i].1 is Str) {
            assert(o.contains(mo[i]));
            let j = choose|j: int| 0 <= j < o.len() && o[j] == mo[i];
            assert(jsize(o[j].1) < jsize(v));
        }
    }
}

proof fn lemma_nullable_shrinks(v: JsonVal)
    ensures
        nullable_rule(v) matches JsonVal::Obj(mo) ==> forall|i: int| 0 <= i < mo.len() ==> small_member(#[trigger] mo[i].1, jsize(v)),
{
    lemma_parts_smaller(v);
    if let JsonVal::Obj(o) = v {
        let types = arr_member(o, "type"@);
        let alts = arr_member(o, "oneOf"@);
        lemma_single_member_size("type"@, jstr("null"@));
        if types is Some && mentions_null(types->0) && non_null_names(types->0).len() == 1 {
            let ts = types->0;
            lemma_get_member(o, "type"@);
            lemma_key_pos_some(o, "type"@);
            let p = key_pos(o, "type"@)->0;
            assert(o[p].1 == JsonVal::Arr(ts));
            lemma_msizes_elem(o, p);
            lemma_names_count(ts);
            lemma_jsizes_len(ts);
            let named = map_insert(o, "type"@, jstr(non_null_names(ts)[0]));
            lemma_msizes_update(o, p, ("type"@, jstr(non_null_names(ts)[0])));
            lemma_remove_members(named, "oneOf"@);
            lemma_remove_members(map_remove(named, "oneOf"@), "allOf"@);
            let base = map_remove(map_remove(named, "oneOf"@), "allOf"@);
            assert(jsize(JsonVal::Obj(base)) < jsize(v));
            let arr = seq![JsonVal::Obj(base), null_schema()];
            assert(forall|j: int| 0 <= j < arr.len() ==> #[trigger] jsize(arr[j]) < jsize(v));
        } else if alts is Some && alts->0.len() == 2 && (is_null_schema(alts->0[0]) || is_null_schema(alts->0[1])) {
            let al = alts->0;
            lemma_key_pos_some(o, "oneOf"@);
            let q = key_pos(o, "oneOf"@)->0;
            assert(o[q].1 == JsonVal::Arr(al));
            lemma_parts_smaller(JsonVal::Arr(al));
            let ni: int = if is_null_schema(al[0]) { 0 } else { 1 };
            if let JsonVal::Obj(np) = al[ni] {
                lemma_parts_smaller(al[ni]);
                assert(jsize(np[0].1) < jsize(al[ni]));
            }
            let other = if is_null_schema(al[0]) { al[1] } else { al[0] };
            let arr = seq![other, null_schema()];
            assert(forall|j: int| 0 <= j < arr.len() ==> #[trigger] jsize(arr[j]) < jsize(v));
        }
    }
}

proof fn lemma_array_items_shrinks(v: JsonVal)
    ensures
        array_items_rule(v) matches JsonVal::Obj(mo) ==> forall|i: int| 0 <= i < mo.len() ==> small_member(#[trigger] mo[i].1, jsize(v)),
{
    if let JsonVal::Obj(o) = v {
        if str_member(o, "type"@) == Some("array"@) && map_get(o, "items"@) is None {
            lemma_key_pos_some(o, "type"@);
            let mo = map_insert(o, "items"@, JsonVal::Obj(Seq::empty()));
            lemma_insert_members(o, "items"@, JsonVal::Obj(Seq::empty()));
            lemma_parts_smaller(v);
            assert(jsize(o[0].1) < jsize(v));
            assert forall|i: int| 0 <= i < mo.len() implies small_member(#[trigger] mo[i].1, jsize(v)) by {
                if mo[i] != ("items"@, JsonVal::Obj(Seq::<(Seq<char>, JsonVal)>::empty())) {
                    let j = choose|j: int| 0 <= j < o.len() && o[j] == mo[i];
                    assert(jsize(o[j].1) < jsize(v));
                }
            }
        } else {
            lemma_parts_smaller(v);
        }
    }
}

proof fn lemma_pg_type_shrinks(v: JsonVal)
    ensures
        pg_type_rule(v) matches JsonVal::Obj(mo) ==> forall|i: int| 0 <= i < mo.len() ==> small_member(#[trigger] mo[i].1, jsize(v)),
{
    if let JsonVal::Obj(o) = v {
        lemma_parts_smaller(v);
        let mo = match pg_type_rule(v) {
            JsonVal::Obj(mo) => mo,
            _ => o,
        };
        if mo != o {
            // some string member was found, so `o` is not empty
            lemma_key_pos_some(o, "type"@);
            lemma_key_pos_some(o, "format"@);
            lemma_key_pos_some(o, "x-pg-type"@);
            assert(o.len() > 0);
            assert(members_from(o, o)) by {
                assert forall|i: int| 0 <= i < o.len() implies (#[trigger] o[i].1 is Str || o.contains(o[i])) by {
                    assert(o[i] == o[i]);
                }
            }
            lemma_members_from_remove(o, o, "x-pg-type"@);
            lemma_members_from_remove(o, o, "format"@);
            lemma_members_from_remove(map_remove(o, "x-pg-type"@), o, "type"@);
            lemma_members_from_remove(map_remove(o, "format"@), o, "x-pg-type"@);
            lemma_members_from_str(map_remove(o, "x-pg-type"@), o, "format"@, "buffer"@);
            lemma_members_from_str(o, o, "format"@, "date-time"@);
            lemma_members_from_str(map_remove(map_remove(o, "x-pg-type"@), "type"@), o, "format"@, "json"@);
            lemma_members_from_str(map_remove(map_remove(o, "format"@), "x-pg-type"@), o, "type"@, "string"@);
            lemma_members_from_str(map_remove(o, "x-pg-type"@), o, "type"@, "string"@);
            lemma_small_from(mo, o);
        }
    }
}

/// Every member of a rewritten node that the walk enters is smaller than the node.
pub proof fn lemma_rule_shrinks(r: SqlRule, v: JsonVal)
    ensures
        rule_at(r, v) matches JsonVal::Obj(mo) ==> forall|i: int| 0 <= i < mo.len() ==> small_member(#[trigger] mo[i].1, jsize(v)),
{
    match r {
        SqlRule::Nullable => lemma_nullable_shrinks(v),
        SqlRule::ArrayItems => lemma_array_items_shrinks(v),
        SqlRule::PgType => lemma_pg_type_shrinks(v),
    }
}

// ---------------------------------------------------------------------------
// Walking a document
// ---------------------------------------------------------------------------

/// Each element of `a` walked; `n` bounds the elements' sizes.
pub open spec fn walk_list(r: SqlRule, a: Seq<JsonVal>, n: nat) -> Seq<JsonVal>
    decreases n, 0int, a.len(),
    when forall|j: int| 0 <= j < a.len() ==> #[trigger] jsize(a[j]) < n
{
    if a.len() == 0 {
        Seq::empty()
    } else {
        walk_list(r, a.drop_last(), n).push(walk(r, a.last()))
    }
}

/// Each member value of `p` walked, keys kept; `n` bounds the values' sizes.
pub open spec fn walk_members(r: SqlRule, p: Seq<(Seq<char>, JsonVal)>, n: nat) -> Seq<(Seq<char>, JsonVal)>
    decreases n, 0int, p.len(),
    when forall|j: int| 0 <= j < p.len() ==> #[trigger] jsize(p[j].1) < n
{
    if p.len() == 0 {
        Seq::empty()
    } else {
        walk_members(r, p.drop_last(), n).push((p.last().0, walk(r, p.last().1)))
    }
}

/// The list under `k` of `src` walked into `o`, when there is one.
pub open spec fn walk_list_at(r: SqlRule, src: Seq<(Seq<char>, JsonVal)>, o: Seq<(Seq<char>, JsonVal)>, k: Seq<char>, n: nat) -> Seq<(Seq<char>, JsonVal)>
    decreases n, 1int, 0int,
{
    match map_get(src, k) {
        Some(JsonVal::Arr(a)) => map_insert(o, k, JsonVal::Arr(walk_list(r, a, n))),
        _ => o,
    }
}

/// The object under `k` of `src`, its member values walked, into `o`, when there is one.
pub open spec fn walk_members_at(r: SqlRule, src: Seq<(Seq<char>, JsonVal)>, o: Seq<(Seq<char>, JsonVal)>, k: Seq<char>, n: nat) -> Seq<(Seq<char>, JsonVal)>
    decreases n, 1int, 0int,
{
    match map_get(src, k) {
        Some(JsonVal::Obj(p)) => map_insert(o, k, JsonVal::Obj(walk_members(r, p, n))),
        _ => o,
    }
}

/// The member `items` of `src` walked into `o`: a list element by element, any other
/// value as one schema.
pub open spec fn walk_items_at(r: SqlRule, src: Seq<(Seq<char>, JsonVal)>, o: Seq<(Seq<char>, JsonVal)>, n: nat) -> Seq<(Seq<char>, JsonVal)>
    decreases n, 1int, 0int,
    when forall|i: int| 0 <= i < src.len() ==> small_member(#[trigger] src[i].1, n)
{
    proof {
        lemma_get_member(src, "items"@);
    }
    match map_get(src, "items"@) {
        Some(JsonVal::Arr(a)) => map_insert(o, "items"@, JsonVal::Arr(walk_list(r, a, n))),
        Some(c) => map_insert(o, "items"@, walk(r, c)),
        None => o,
    }
}

/// The member under `k` of `src`, when it is an object, walked as one schema into `o`.
pub open spec fn walk_schema_at(r: SqlRule, src: Seq<(Seq<char>, JsonVal)>, o: Seq<(Seq<char>, JsonVal)>, k: Seq<char>, n: nat) -> Seq<(Seq<char>, JsonVal)>
    decreases n, 1int, 0int,
    when forall|i: int| 0 <= i < src.len() ==> small_member(#[trigger] src[i].1, n)
{
    proof {
        lemma_get_member(src, k);
    }
    match map_get(src, k) {
        Some(JsonVal::Obj(p)) => map_insert(o, k, walk(r, JsonVal::Obj(p))),
        _ => o,
    }
}

/// A document with the rewrite applied to every schema node, top down: the node
/// first, then the subschemas of what it became, under `properties`, `$defs`,
/// `items` (one schema or a list), `prefixItems`, `additionalProperties` (when it
/// is a schema), `anyOf`, `oneOf` and `allOf`.
pub open spec fn walk(r: SqlRule, v: JsonVal) -> JsonVal
    decreases jsize(v), 2int, 0int,
{
    let m = rule_at(r, v);
    match m {
        JsonVal::Obj(o) => {
            let n = jsize(v);
            let o1 = walk_members_at(r, o, o, "properties"@, n);
            let o2 = walk_members_at(r, o, o1, "$defs"@, n);
            let o3 = walk_items_at(r, o, o2, n);
            let o4 = walk_list_at(r, o, o3, "prefixItems"@, n);
            let o5 = walk_schema_at(r, o, o4, "additionalProperties"@, n);
            let o6 = walk_list_at(r, o, o5, "anyOf"@, n);
            let o7 = walk_list_at(r, o, o6, "oneOf"@, n);
            JsonVal::Obj(walk_list_at(r, o, o7, "allOf"@, n))
        },
        _ => m,
    }
}

// ---------------------------------------------------------------------------
// Documents: copying, reading and removing members
// ---------------------------------------------------------------------------

fn clone_list(a: &Vec<JsonValue>) -> (r: Vec<JsonValue>)
    ensures
        jsons_view(r@) == jsons_view(a@),
    decreases a,
{
    let mut out: Vec<JsonValue> = Vec::new();
    let mut i: usize = 0;
    while i < a.len()
        invariant
            i <= a.len(),
            out@.len() == i,
            forall|j: int| 0 <= j < i ==> json_view(#[trigger] out@[j]) == json_view(a@[j]),
        decreases a.len() - i,
    {
        assert(decreases_to!(a => a@[i as int]));
        out.push(a[i].deep_clone());
        i += 1;
    }
    assert(jsons_view(out@) =~= jsons_view(a@));
    out
}

pub(crate) fn clone_members(m: &Vec<(String, JsonValue)>) -> (r: Vec<(String, JsonValue)>)
    ensures
        members_view(r@) == members_view(m@),
    decreases m,
{
    let mut out: Vec<(String, JsonValue)> = Vec::new();
    let mut i: usize = 0;
    while i < m.len()
        invariant
            i <= m.len(),
            out@.len() == i,
            forall|j: int| 0 <= j < i ==> (#[trigger] out@[j]).0@ == m@[j].0@ && json_view(out@[j].1) == json_view(m@[j].1),
        decreases m.len() - i,
    {
        assert(decreases_to!(m => m@[i as int].1));
        let k = m[i].0.clone();
        let x = m[i].1.deep_clone();
        out.push((k, x));
        i += 1;
    }
    assert(members_view(out@) =~= members_view(m@));
    out
}

impl JsonValue {
    /// A copy of this document, equal to it in every respect.
    pub fn deep_clone(&self) -> (r: JsonValue)
        ensures
            r@ == self@,
        decreases self,
    {
        match self {
            JsonValue::Bool(b) => JsonValue::Bool(*b),
            JsonValue::String(s) => JsonValue::String(s.clone()),
            JsonValue::Array(a) => {
                let r = clone_list(a);
                proof {
                    lemma_json_array_view(*a);
                    lemma_json_array_view(r);
                }
                JsonValue::Array(r)
            },
            JsonValue::Object(m) => {
                let r = clone_members(m);
                proof {
                    lemma_json_object_view(*m);
                    lemma_json_object_view(r);
                }
                JsonValue::Object(r)
            },
            JsonValue::Value(v) => JsonValue::Value(v.clone()),
        }
    }
}

/// The member named `k`, if any.
pub(crate) fn member<'a>(m: &'a Vec<(String, JsonValue)>, k: &str) -> (r: Option<&'a JsonValue>)
    ensures
        match r {
            Some(x) => map_get(members_view(m@), k@) == Some(x@),
            None => map_get(members_view(m@), k@) is None,
        },
{
    let ghost mv = members_view(m@);
    let mut i: usize = 0;
    while i < m.len()
        invariant
            i <= m@.len(),
            mv == members_view(m@),
            forall|j: int| 0 <= j < i ==> mv[j].0 != k@,
        decreases m.len() - i,
    {
        if str_eq(m[i].0.as_str(), k) {
            proof {
                lemma_key_pos_first(mv, k@, i as int);
            }
            return Some(&m[i].1);
        }
        i += 1;
    }
    proof {
        lemma_key_pos_none(mv, k@);
    }
    None
}

/// The string member named `k`, if the member is a string.
fn str_member_of<'a>(m: &'a Vec<(String, JsonValue)>, k: &str) -> (r: Option<&'a String>)
    ensures
        match r {
            Some(s) => str_member(members_view(m@), k@) == Some(s@),
            None => str_member(members_view(m@), k@) is None,
        },
{
    match member(m, k) {
        Some(JsonValue::String(s)) => Some(s),
        _ => None,
    }
}

/// Whether the string member named `k` is exactly `s`.
fn str_member_is(m: &Vec<(String, JsonValue)>, k: &str, s: &str) -> (r: bool)
    ensures
        r == (str_member(members_view(m@), k@) == Some(s@)),
{
    match str_member_of(m, k) {
        Some(t) => str_eq(t.as_str(), s),
        None => false,
    }
}

/// `m` without the members named `k`.
fn without(m: &Vec<(String, JsonValue)>, k: &str) -> (r: Vec<(String, JsonValue)>)
    ensures
        members_view(r@) == map_remove(members_view(m@), k@),
{
    let ghost mv = members_view(m@);
    let mut out: Vec<(String, JsonValue)> = Vec::new();
    let mut i: usize = 0;
    assert(mv.take(0) =~= Seq::<(Seq<char>, JsonVal)>::empty());
    while i < m.len()
        invariant
            i <= m@.len(),
            mv == members_view(m@),
            members_view(out@) == map_remove(mv.take(i as int), k@),
        decreases m.len() - i,
    {
        assert(mv.take(i + 1).drop_last() =~= mv.take(i as int));
        assert(mv.take(i + 1).last() == mv[i as int]);
        if !str_eq(m[i].0.as_str(), k) {
            let ghost before = out@;
            out.push((m[i].0.clone(), m[i].1.deep_clone()));
            assert(members_view(out@) =~= members_view(before).push(mv[i as int]));
        }
        i += 1;
    }
    assert(mv.take(m@.len() as int) =~= mv);
    out
}

// ---------------------------------------------------------------------------
// The rewrites, executed
// ---------------------------------------------------------------------------

fn text(s: &str) -> (r: JsonValue)
    ensures
        r@ == jstr(s@),
{
    JsonValue::String(owned(s))
}

/// `{"anyOf": [x, {"type": "null"}]}`.
fn or_null_exec(x: JsonValue) -> (r: JsonValue)
    ensures
        r@ == or_null(x@),
{
    let ghost xv = x@;
    let mut ns: Vec<(String, JsonValue)> = Vec::new();
    ns.push((owned("type"), text("null")));
    proof {
        lemma_json_object_view(ns);
        assert(members_view(ns@) =~= seq![("type"@, jstr("null"@))]);
    }
    let mut arr: Vec<JsonValue> = Vec::new();
    arr.push(x);
    arr.push(JsonValue::Object(ns));
    proof {
        lemma_json_array_view(arr);
        assert(jsons_view(arr@) =~= seq![xv, null_schema()]);
    }
    let mut top: Vec<(String, JsonValue)> = Vec::new();
    top.push((owned("anyOf"), JsonValue::Array(arr)));
    proof {
        lemma_json_object_view(top);
        assert(members_view(top@) =~= seq![("anyOf"@, JsonVal::Arr(seq![xv, null_schema()]))]);
    }
    JsonValue::Object(top)
}

fn is_null_schema_exec(x: &JsonValue) -> (r: bool)
    ensures
        r == is_null_schema(x@),
{
    match x {
        JsonValue::Object(p) => {
            proof {
                lemma_json_object_view(*p);
            }
            p.len() == 1 && str_member_is(p, "type", "null")
        },
        _ => false,
    }
}

/// Whether the strings of `ts` include `"null"`, and the others in order.
fn type_names(ts: &Vec<JsonValue>) -> (r: (bool, Vec<String>))
    ensures
        r.0 == mentions_null(jsons_view(ts@)),
        strings_view(r.1@) == non_null_names(jsons_view(ts@)),
{
    let ghost tv = jsons_view(ts@);
    let mut has_null = false;
    let mut names: Vec<String> = Vec::new();
    let mut i: usize = 0;
    assert(tv.take(0) =~= Seq::<JsonVal>::empty());
    assert(strings_view(names@) =~= Seq::<Seq<char>>::empty());
    while i < ts.len()
        invariant
            i <= ts@.len(),
            tv == jsons_view(ts@),
            has_null == mentions_null(tv.take(i as int)),
            strings_view(names@) == non_null_names(tv.take(i as int)),
        decreases ts.len() - i,
    {
        assert(tv.take(i + 1).drop_last() =~= tv.take(i as int));
        assert(tv.take(i + 1).last() == tv[i as int]);
        if let JsonValue::String(t) = &ts[i] {
            if str_eq(t.as_str(), "null") {
                has_null = true;
            } else {
                let ghost before = names@;
                names.push(t.clone());
                assert(strings_view(names@) =~= strings_view(before).push(t@));
            }
        }
        i += 1;
    }
    assert(tv.take(ts@.len() as int) =~= tv);
    (has_null, names)
}

fn nullable_exec(v: &JsonValue) -> (r: JsonValue)
    ensures
        r@ == nullable_rule(v@),
{
    match v {
        JsonValue::Object(o) => {
            proof {
                lemma_json_object_view(*o);
            }
            if let Some(JsonValue::Array(ts)) = member(o, "type") {
                proof {
                    lemma_json_array_view(*ts);
                }
                let (has_null, names) = type_names(ts);
                if has_null && names.len() == 1 {
                    let mut named = clone_members(o);
                    json_insert(&mut named, owned("type"), JsonValue::String(names[0].clone()));
                    let b1 = without(&named, "oneOf");
                    let base = without(&b1, "allOf");
                    proof {
                        lemma_json_object_view(base);
                    }
                    return or_null_exec(JsonValue::Object(base));
                }
            }
            if let Some(JsonValue::Array(alts)) = member(o, "oneOf") {
                proof {
                    lemma_json_array_view(*alts);
                }
                if alts.len() == 2 {
                    let n0 = is_null_schema_exec(&alts[0]);
                    let n1 = is_null_schema_exec(&alts[1]);
                    if n0 || n1 {
                        let other = if n0 { alts[1].deep_clone() } else { alts[0].deep_clone() };
                        return or_null_exec(other);
                    }
                }
            }
            v.deep_clone()
        },
        _ => v.deep_clone(),
    }
}

fn array_items_exec(v: &JsonValue) -> (r: JsonValue)
    ensures
        r@ == array_items_rule(v@),
{
    match v {
        JsonValue::Object(o) => {
            proof {
                lemma_json_object_view(*o);
            }
            if str_member_is(o, "type", "array") && member(o, "items").is_none() {
                let mut m = clone_members(o);
                let empty: Vec<(String, JsonValue)> = Vec::new();
                proof {
                    lemma_json_object_view(empty);
                    assert(members_view(empty@) =~= Seq::<(Seq<char>, JsonVal)>::empty());
                }
                json_insert(&mut m, owned("items"), JsonValue::Object(empty));
                proof {
                    lemma_json_object_view(m);
                }
                JsonValue::Object(m)
            } else {
                v.deep_clone()
            }
        },
        _ => v.deep_clone(),
    }
}

fn char_eq_ignore_case_exec(a: char, b: char) -> (r: bool)
    ensures
        r == char_eq_ignore_case(a, b),
{
    let la = ('a' <= a && a <= 'z') || ('A' <= a && a <= 'Z');
    let lb = ('a' <= b && b <= 'z') || ('A' <= b && b <= 'Z');
    a == b || (la && lb && ((a as u32) == (b as u32) + 32 || (b as u32) == (a as u32) + 32))
}

/// `str::eq_ignore_ascii_case`.
fn eq_ignore_case_exec(a: &str, b: &str) -> (r: bool)
    ensures
        r == eq_ignore_case(a@, b@),
{
    let x = chars_of(a);
    let y = chars_of(b);
    if x.len() != y.len() {
        return false;
    }
    let mut i: usize = 0;
    while i < x.len()
        invariant
            i <= x@.len(),
            x@ == a@,
            y@ == b@,
            x@.len() == y@.len(),
            forall|j: int| 0 <= j < i ==> char_eq_ignore_case(#[trigger] a@[j], b@[j]),
        decreases x.len() - i,
    {
        if !char_eq_ignore_case_exec(x[i], y[i]) {
            return false;
        }
        i += 1;
    }
    true
}

/// `o` with `k` set to the string `s`.
fn with_str_exec(o: Vec<(String, JsonValue)>, k: &str, s: &str) -> (r: JsonValue)
    ensures
        r@ == JsonVal::Obj(with_str(members_view(o@), k@, s@)),
{
    let mut m = o;
    json_insert(&mut m, owned(k), text(s));
    proof {
        lemma_json_object_view(m);
    }
    JsonValue::Object(m)
}

fn pg_type_exec(v: &JsonValue) -> (r: JsonValue)
    ensures
        r@ == pg_type_rule(v@),
{
    match v {
        JsonValue::Object(o) => {
            proof {
                lemma_json_object_view(*o);
            }
            let is_string = str_member_is(o, "type", "string");
            let is_number = str_member_is(o, "type", "number");
            let fmt_bytea = match str_member_of(o, "format") {
                Some(f) => eq_ignore_case_exec(f.as_str(), "bytea"),
                None => false,
            };
            if is_string && (fmt_bytea || str_member_is(o, "x-pg-type", "bytea")) {
                with_str_exec(without(o, "x-pg-type"), "format", "buffer")
            } else if is_string && (str_member_is(o, "format", "timestamp without time zone")
                || str_member_is(o, "format", "timestamp with time zone") || str_member_is(o, "format", "timestamptz")) {
                with_str_exec(clone_members(o), "format", "date-time")
            } else if str_member_is(o, "x-pg-type", "json") || str_member_is(o, "x-pg-type", "jsonb") {
                with_str_exec(without(&without(o, "x-pg-type"), "type"), "format", "json")
            } else if is_number && str_member_is(o, "format", "int64") {
                with_str_exec(without(&without(o, "format"), "x-pg-type"), "type", "string")
            } else if is_number && str_member_is(o, "x-pg-type", "int8") {
                with_str_exec(without(o, "x-pg-type"), "type", "string")
            } else if is_number && (str_member_is(o, "format", "numeric") || str_member_is(o, "format", "decimal")) {
                with_str_exec(without(&without(o, "format"), "x-pg-type"), "type", "string")
            } else if is_number && str_member_is(o, "x-pg-type", "numeric") {
                with_str_exec(without(o, "x-pg-type"), "type", "string")
            } else {
                v.deep_clone()
            }
        },
        _ => v.deep_clone(),
    }
}

fn apply_rule(r: SqlRule, v: &JsonValue) -> (m: JsonValue)
    ensures
        m@ == rule_at(r, v@),
{
    match r {
        SqlRule::Nullable => nullable_exec(v),
        SqlRule::ArrayItems => array_items_exec(v),
        SqlRule::PgType => pg_type_exec(v),
    }
}

// ---------------------------------------------------------------------------
// Walking a document, executed
// ---------------------------------------------------------------------------

fn walk_list_exec(r: SqlRule, a: &Vec<JsonValue>, Ghost(n): Ghost<nat>) -> (out: Vec<JsonValue>)
    requires
        forall|j: int| 0 <= j < a@.len() ==> #[trigger] jsize(json_view(a@[j])) < n,
    ensures
        jsons_view(out@) == walk_list(r, jsons_view(a@), n),
    decreases n, 0int, 0int,
{
    let ghost av = jsons_view(a@);
    let mut out: Vec<JsonValue> = Vec::new();
    let mut i: usize = 0;
    assert(av.take(0) =~= Seq::<JsonVal>::empty());
    assert(jsons_view(out@) =~= Seq::<JsonVal>::empty());
    while i < a.len()
        invariant
            i <= a@.len(),
            av == jsons_view(a@),
            forall|j: int| 0 <= j < a@.len() ==> #[trigger] jsize(json_view(a@[j])) < n,
            jsons_view(out@) == walk_list(r, av.take(i as int), n),
        decreases a.len() - i,
    {
        assert(av.take(i + 1).drop_last() =~= av.take(i as int));
        assert(av.take(i + 1).last() == av[i as int]);
        assert(jsize(json_view(a@[i as int])) < n);
        let ghost before = out@;
        let x = walk_exec(r, &a[i]);
        out.push(x);
        assert(jsons_view(out@) =~= jsons_view(before).push(x@));
        i += 1;
    }
    assert(av.take(a@.len() as int) =~= av);
    out
}

fn walk_members_exec(r: SqlRule, p: &Vec<(String, JsonValue)>, Ghost(n): Ghost<nat>) -> (out: Vec<(String, JsonValue)>)
    requires
        forall|j: int| 0 <= j < p@.len() ==> #[trigger] jsize(json_view(p@[j].1)) < n,
    ensures
        members_view(out@) == walk_members(r, members_view(p@), n),
    decreases n, 0int, 0int,
{
    let ghost pv = members_view(p@);
    let mut out: Vec<(String, JsonValue)> = Vec::new();
    let mut i: usize = 0;
    assert(pv.take(0) =~= Seq::<(Seq<char>, JsonVal)>::empty());
    assert(members_view(out@) =~= Seq::<(Seq<char>, JsonVal)>::empty());
    while i < p.len()
        invariant
            i <= p@.len(),
            pv == members_view(p@),
            forall|j: int| 0 <= j < p@.len() ==> #[trigger] jsize(json_view(p@[j].1)) < n,
            members_view(out@) == walk_members(r, pv.take(i as int), n),
        decreases p.len() - i,
    {
        assert(pv.take(i + 1).drop_last() =~= pv.take(i as int));
        assert(pv.take(i + 1).last() == pv[i as int]);
        assert(jsize(json_view(p@[i as int].1)) < n);
        let ghost before = out@;
        let x = walk_exec(r, &p[i].1);
        out.push((p[i].0.clone(), x));
        assert(members_view(out@) =~= members_view(before).push((pv[i as int].0, x@)));
        i += 1;
    }
    assert(pv.take(p@.len() as int) =~= pv);
    out
}

/// The member under `k` of `src`, when it is a list, walked into `o`.
fn walk_list_at_exec(r: SqlRule, src: &Vec<(String, JsonValue)>, o: &mut Vec<(String, JsonValue)>, k: &str, Ghost(n): Ghost<nat>)
    requires
        forall|i: int| 0 <= i < src@.len() ==> small_member(#[trigger] json_view(src@[i].1), n),
    ensures
        members_view(final(o)@) == walk_list_at(r, members_view(src@), members_view(old(o)@), k@, n),
    decreases n, 1int, 0int,
{
    let ghost sv = members_view(src@);
    proof {
        lemma_get_member(sv, k@);
    }
    match member(src, k) {
        Some(JsonValue::Array(a)) => {
            proof {
                lemma_json_array_view(*a);
                let i = choose|i: int| 0 <= i < sv.len() && #[trigger] sv[i] == (k@, JsonVal::Arr(jsons_view(a@)));
                assert(small_member(json_view(src@[i].1), n));
                assert forall|j: int| 0 <= j < a@.len() implies #[trigger] jsize(json_view(a@[j])) < n by {
                    lemma_parts_smaller(JsonVal::Arr(jsons_view(a@)));
                    assert(jsons_view(a@)[j] == json_view(a@[j]));
                }
            }
            let w = walk_list_exec(r, a, Ghost(n));
            proof {
                lemma_json_array_view(w);
            }
            json_insert(o, owned(k), JsonValue::Array(w));
        },
        _ => {},
    }
}

/// The member under `k` of `src`, when it is an object, its values walked into `o`.
fn walk_members_at_exec(r: SqlRule, src: &Vec<(String, JsonValue)>, o: &mut Vec<(String, JsonValue)>, k: &str, Ghost(n): Ghost<nat>)
    requires
        forall|i: int| 0 <= i < src@.len() ==> small_member(#[trigger] json_view(src@[i].1), n),
    ensures
        members_view(final(o)@) == walk_members_at(r, members_view(src@), members_view(old(o)@), k@, n),
    decreases n, 1int, 0int,
{
    let ghost sv = members_view(src@);
    proof {
        lemma_get_member(sv, k@);
    }
    match member(src, k) {
        Some(JsonValue::Object(p)) => {
            proof {
                lemma_json_object_view(*p);
                let i = choose|i: int| 0 <= i < sv.len() && #[trigger] sv[i] == (k@, JsonVal::Obj(members_view(p@)));
                assert(small_member(json_view(src@[i].1), n));
                assert forall|j: int| 0 <= j < p@.len() implies #[trigger] jsize(json_view(p@[j].1)) < n by {
                    lemma_parts_smaller(JsonVal::Obj(members_view(p@)));
                    assert(members_view(p@)[j].1 == json_view(p@[j].1));
                }
            }
            let w = walk_members_exec(r, p, Ghost(n));
            proof {
                lemma_json_object_view(w);
            }
            json_insert(o, owned(k), JsonValue::Object(w));
        },
        _ => {},
    }
}

/// The member `items` of `src` walked into `o`.
fn walk_items_at_exec(r: SqlRule, src: &Vec<(String, JsonValue)>, o: &mut Vec<(String, JsonValue)>, Ghost(n): Ghost<nat>)
    requires
        forall|i: int| 0 <= i < src@.len() ==> small_member(#[trigger] json_view(src@[i].1), n),
    ensures
        members_view(final(o)@) == walk_items_at(r, members_view(src@), members_view(old(o)@), n),
    decreases n, 1int, 0int,
{
    let ghost sv = members_view(src@);
    proof {
        lemma_get_member(sv, "items"@);
        assert forall|i: int| 0 <= i < sv.len() implies small_member(#[trigger] sv[i].1, n) by {
            assert(sv[i].1 == json_view(src@[i].1));
        }
    }
    match member(src, "items") {
        Some(JsonValue::Array(a)) => {
            proof {
                lemma_json_array_view(*a);
                let i = choose|i: int| 0 <= i < sv.len() && #[trigger] sv[i] == ("items"@, JsonVal::Arr(jsons_view(a@)));
                assert(small_member(sv[i].1, n));
                assert forall|j: int| 0 <= j < a@.len() implies #[trigger] jsize(json_view(a@[j])) < n by {
                    lemma_parts_smaller(JsonVal::Arr(jsons_view(a@)));
                    assert(jsons_view(a@)[j] == json_view(a@[j]));
                }
            }
            let w = walk_list_exec(r, a, Ghost(n));
            proof {
                lemma_json_array_view(w);
            }
            json_insert(o, owned("items"), JsonValue::Array(w));
        },
        Some(c) => {
            proof {
                let i = choose|i: int| 0 <= i < sv.len() && #[trigger] sv[i] == ("items"@, json_view(*c));
                assert(small_member(sv[i].1, n));
            }
            let w = walk_exec(r, c);
            json_insert(o, owned("items"), w);
        },
        None => {},
    }
}

/// The member under `k` of `src`, when it is an object, walked as one schema into `o`.
fn walk_schema_at_exec(r: SqlRule, src: &Vec<(String, JsonValue)>, o: &mut Vec<(String, JsonValue)>, k: &str, Ghost(n): Ghost<nat>)
    requires
        forall|i: int| 0 <= i < src@.len() ==> small_member(#[trigger] json_view(src@[i].1), n),
    ensures
        members_view(final(o)@) == walk_schema_at(r, members_view(src@), members_view(old(o)@), k@, n),
    decreases n, 1int, 0int,
{
    let ghost sv = members_view(src@);
    proof {
        lemma_get_member(sv, k@);
        assert forall|i: int| 0 <= i < sv.len() implies small_member(#[trigger] sv[i].1, n) by {
            assert(sv[i].1 == json_view(src@[i].1));
        }
    }
    if let Some(c) = member(src, k) {
        if let JsonValue::Object(_) = c {
            proof {
                let i = choose|i: int| 0 <= i < sv.len() && #[trigger] sv[i] == (k@, json_view(*c));
                assert(small_member(sv[i].1, n));
            }
            let w = walk_exec(r, c);
            json_insert(o, owned(k), w);
        }
    }
}

fn walk_exec(r: SqlRule, v: &JsonValue) -> (out: JsonValue)
    ensures
        out@ == walk(r, v@),
    decreases jsize(v@), 2int, 0int,
{
    let m = apply_rule(r, v);
    proof {
        lemma_rule_shrinks(r, v@);
    }
    match m {
        JsonValue::Object(o) => {
            let ghost n = jsize(v@);
            proof {
                lemma_json_object_view(o);
                assert forall|i: int| 0 <= i < o@.len() implies small_member(#[trigger] json_view(o@[i].1), n) by {
                    assert(members_view(o@)[i].1 == json_view(o@[i].1));
                }
            }
            let mut out = clone_members(&o);
            walk_members_at_exec(r, &o, &mut out, "properties", Ghost(n));
            walk_members_at_exec(r, &o, &mut out, "$defs", Ghost(n));
            walk_items_at_exec(r, &o, &mut out, Ghost(n));
            walk_list_at_exec(r, &o, &mut out, "prefixItems", Ghost(n));
            walk_schema_at_exec(r, &o, &mut out, "additionalProperties", Ghost(n));
            walk_list_at_exec(r, &o, &mut out, "anyOf", Ghost(n));
            walk_list_at_exec(r, &o, &mut out, "oneOf", Ghost(n));
            walk_list_at_exec(r, &o, &mut out, "allOf", Ghost(n));
            proof {
                lemma_json_object_view(out);
            }
            JsonValue::Object(out)
        },
        other => other,
    }
}

// ---------------------------------------------------------------------------
// The transforms
// ---------------------------------------------------------------------------

/// The document with `rule` applied to every schema node, top down.
pub fn deep_map_schema(value: &JsonValue, rule: SqlRule) -> (r: JsonValue)
    ensures
        r@ == walk(rule, value@),
{
    walk_exec(rule, value)
}

/// Nullable types and nullable `oneOf`s rewritten as `anyOf` with `{"type": "null"}`.
pub fn sql_nullable_normalise(value: &JsonValue) -> (r: JsonValue)
    ensures
        r@ == walk(SqlRule::Nullable, value@),
{
    deep_map_schema(value, SqlRule::Nullable)
}

/// Array schemas without `items` given `items: {}`.
pub fn sql_array_items_fallback(value: &JsonValue) -> (r: JsonValue)
    ensures
        r@ == walk(SqlRule::ArrayItems, value@),
{
    deep_map_schema(value, SqlRule::ArrayItems)
}

/// PostgreSQL types rewritten: `bytea` as buffers, timestamps as `date-time`, `json` and
/// `jsonb` as JSON, `int64`, `int8`, `numeric` and `decimal` numbers as strings.
pub fn sql_pg_type_substitute(value: &JsonValue) -> (r: JsonValue)
    ensures
        r@ == walk(SqlRule::PgType, value@),
{
    deep_map_schema(value, SqlRule::PgType)
}

/// The schema transforms of the built-in `sql` policy, in their order.
pub fn apply_sql_policy(value: &JsonValue) -> (r: JsonValue)
    ensures
        r@ == walk(SqlRule::PgType, walk(SqlRule::ArrayItems, walk(SqlRule::Nullable, value@))),
{
    let a = sql_nullable_normalise(value);
    let b = sql_array_items_fallback(&a);
    sql_pg_type_substitute(&b)
}

// ---------------------------------------------------------------------------
// Laws
// ---------------------------------------------------------------------------

proof fn lemma_remove_gets_none(o: Seq<(Seq<char>, JsonVal)>, k: Seq<char>)
    ensures
        map_get(map_remove(o, k), k) is None,
{
    lemma_remove_members(o, k);
    lemma_key_pos_none(map_remove(o, k), k);
}

/// When the `PgType` rewrite changes a node other than by turning a timestamp format
/// into `date-time`, the node keeps no `x-pg-type` annotation.
pub proof fn law_pg_type_consumes_annotation(o: Seq<(Seq<char>, JsonVal)>)
    requires
        pg_type_rule(JsonVal::Obj(o)) != JsonVal::Obj(o),
        pg_type_rule(JsonVal::Obj(o)) != JsonVal::Obj(with_str(o, "format"@, "date-time"@)),
    ensures
        pg_type_rule(JsonVal::Obj(o)) matches JsonVal::Obj(mo) && map_get(mo, "x-pg-type"@) is None,
{
    let k = "x-pg-type"@;
    lemma_remove_gets_none(o, k);
    lemma_remove_gets_none(map_remove(o, "format"@), k);
    assert(k != "format"@ && k != "type"@) by {
        reveal_strlit("x-pg-type");
        reveal_strlit("format");
        reveal_strlit("type");
        assert(k.len() != "format"@.len() && k.len() != "type"@.len());
    }
    crate::value::law_map_insert_keeps_others(map_remove(o, k), "format"@, jstr("buffer"@), k);
    crate::value::law_map_insert_keeps_others(map_remove(o, k), "type"@, jstr("string"@), k);
    crate::value::law_map_insert_keeps_others(map_remove(map_remove(o, "format"@), k), "type"@, jstr("string"@), k);
    lemma_remove_keeps_get(map_remove(o, k), "type"@, k);
    crate::value::law_map_insert_keeps_others(map_remove(map_remove(o, k), "type"@), "format"@, jstr("json"@), k);
}

/// The schema `{"type": "null"}`, written out.
pub open spec fn null_literal() -> JsonVal {
    JsonVal::Obj(seq![("type"@, JsonVal::Str("null"@))])
}

proof fn lemma_null_schema_is_literal(x: JsonVal)
    ensures
        is_null_schema(x) <==> x == null_literal(),
{
    if let JsonVal::Obj(p) = x {
        if p.len() == 1 && str_member(p, "type"@) == Some("null"@) {
            lemma_key_pos_some(p, "type"@);
            assert(p =~= seq![("type"@, JsonVal::Str("null"@))]);
        }
    }
    let q = seq![("type"@, JsonVal::Str("null"@))];
    lemma_key_pos_first(q, "type"@, 0);
}

/// A node whose `oneOf` has two members, exactly one of them `{"type": "null"}` (and
/// whose `type` is not a list), becomes `{"anyOf": [other, {"type": "null"}]}`, where
/// `other` is the member that is not null, whichever place it held.
pub proof fn law_nullable_one_of_keeps_other(o: Seq<(Seq<char>, JsonVal)>, alts: Seq<JsonVal>, null_at: int)
    requires
        !(map_get(o, "type"@) matches Some(JsonVal::Arr(_))),
        map_get(o, "oneOf"@) == Some(JsonVal::Arr(alts)),
        alts.len() == 2,
        0 <= null_at < 2,
        alts[null_at] == null_literal(),
        alts[1 - null_at] != null_literal(),
    ensures
        nullable_rule(JsonVal::Obj(o)) == JsonVal::Obj(seq![(
            "anyOf"@,
            JsonVal::Arr(seq![alts[1 - null_at], JsonVal::Obj(seq![("type"@, JsonVal::Str("null"@))])]),
        )]),
{
    lemma_null_schema_is_literal(alts[0]);
    lemma_null_schema_is_literal(alts[1]);
    assert(arr_member(o, "type"@) is None);
    assert(arr_member(o, "oneOf"@) == Some(alts));
}

/// `t` is the one string of `ts` other than `"null"`, at place `a`.
pub open spec fn sole_non_null(ts: Seq<JsonVal>, a: int, t: Seq<char>) -> bool {
    &&& 0 <= a < ts.len()
    &&& ts[a] == JsonVal::Str(t)
    &&& t != "null"@
    &&& forall|i: int| 0 <= i < ts.len() && i != a ==> !(#[trigger] ts[i] matches JsonVal::Str(u) && u != "null"@)
}

proof fn lemma_no_names(ts: Seq<JsonVal>)
    requires
        forall|i: int| 0 <= i < ts.len() ==> !(#[trigger] ts[i] matches JsonVal::Str(u) && u != "null"@),
    ensures
        non_null_names(ts) == Seq::<Seq<char>>::empty(),
    decreases ts.len(),
{
    if ts.len() > 0 {
        lemma_no_names(ts.drop_last());
        assert(ts.last() == ts[ts.len() - 1]);
    }
}

proof fn lemma_sole_name(ts: Seq<JsonVal>, a: int, t: Seq<char>)
    requires
        sole_non_null(ts, a, t),
    ensures
        non_null_names(ts) == seq![t],
    decreases ts.len(),
{
    let l = ts.len() - 1;
    assert(ts.last() == ts[l]);
    if a == l {
        lemma_no_names(ts.drop_last());
        assert(Seq::<Seq<char>>::empty().push(t) =~= seq![t]);
    } else {
        assert(sole_non_null(ts.drop_last(), a, t));
        lemma_sole_name(ts.drop_last(), a, t);
    }
}

proof fn lemma_mentions_null(ts: Seq<JsonVal>, z: int)
    requires
        0 <= z < ts.len(),
        ts[z] == JsonVal::Str("null"@),
    ensures
        mentions_null(ts),
    decreases ts.len(),
{
    if z < ts.len() - 1 {
        lemma_mentions_null(ts.drop_last(), z);
    }
}

proof fn lemma_names_empty(ts: Seq<JsonVal>)
    requires
        non_null_names(ts).len() == 0,
    ensures
        forall|i: int| 0 <= i < ts.len() ==> !(#[trigger] ts[i] matches JsonVal::Str(u) && u != "null"@),
    decreases ts.len(),
{
    if ts.len() > 0 {
        lemma_names_empty(ts.drop_last());
        assert forall|i: int| 0 <= i < ts.len() implies !(#[trigger] ts[i] matches JsonVal::Str(u) && u != "null"@) by {
            if i < ts.len() - 1 {
                assert(ts[i] == ts.drop_last()[i]);
            } else {
                assert(ts[i] == ts.last());
            }
        }
    }
}

proof fn lemma_names_one(ts: Seq<JsonVal>)
    requires
        non_null_names(ts).len() == 1,
    ensures
        exists|a: int, t: Seq<char>| sole_non_null(ts, a, t),
    decreases ts.len(),
{
    let l = ts.len() - 1;
    assert(ts.last() == ts[l]);
    if non_null_names(ts.drop_last()).len() == 1 {
        lemma_names_one(ts.drop_last());
        let (a, t) = choose|a: int, t: Seq<char>| sole_non_null(ts.drop_last(), a, t);
        assert forall|i: int| 0 <= i < ts.len() && i != a implies !(#[trigger] ts[i] matches JsonVal::Str(u) && u != "null"@) by {
            if i < l {
                assert(ts[i] == ts.drop_last()[i]);
            }
        }
        assert(ts[a] == ts.drop_last()[a]);
        assert(sole_non_null(ts, a, t));
    } else {
        lemma_names_empty(ts.drop_last());
        let t = ts[l]->Str_0;
        assert forall|i: int| 0 <= i < ts.len() && i != l implies !(#[trigger] ts[i] matches JsonVal::Str(u) && u != "null"@) by {
            assert(ts[i] == ts.drop_last()[i]);
        }
        assert(sole_non_null(ts, l, t));
    }
}

proof fn lemma_mentions_null_at(ts: Seq<JsonVal>)
    requires
        mentions_null(ts),
    ensures
        exists|z: int| 0 <= z < ts.len() && ts[z] == JsonVal::Str("null"@),
    decreases ts.len(),
{
    if mentions_null(ts.drop_last()) {
        lemma_mentions_null_at(ts.drop_last());
        let z = choose|z: int| 0 <= z < ts.drop_last().len() && ts.drop_last()[z] == JsonVal::Str("null"@);
        assert(ts[z] == ts.drop_last()[z]);
    } else {
        assert(ts[ts.len() - 1] == ts.last());
    }
}

/// The nullable rewrite touches no other node: unless `type` is a list holding `"null"`
/// and exactly one other type name, or `oneOf` has two members one of which is
/// `{"type": "null"}`, the node is kept as it is.
pub proof fn law_nullable_otherwise_kept(o: Seq<(Seq<char>, JsonVal)>)
    requires
        !(exists|ts: Seq<JsonVal>, a: int, t: Seq<char>, z: int|
            map_get(o, "type"@) == Some(JsonVal::Arr(ts)) && #[trigger] sole_non_null(ts, a, t)
            && 0 <= z < ts.len() && #[trigger] ts[z] == JsonVal::Str("null"@)),
        !(exists|alts: Seq<JsonVal>, i: int|
            map_get(o, "oneOf"@) == Some(JsonVal::Arr(alts)) && alts.len() == 2
            && 0 <= i < 2 && #[trigger] alts[i] == null_literal()),
    ensures
        nullable_rule(JsonVal::Obj(o)) == JsonVal::Obj(o),
{
    if let Some(JsonVal::Arr(ts)) = map_get(o, "type"@) {
        if mentions_null(ts) && non_null_names(ts).len() == 1 {
            lemma_names_one(ts);
            lemma_mentions_null_at(ts);
            let (a, t) = choose|a: int, t: Seq<char>| sole_non_null(ts, a, t);
            let z = choose|z: int| 0 <= z < ts.len() && ts[z] == JsonVal::Str("null"@);
            assert(map_get(o, "type"@) == Some(JsonVal::Arr(ts)) && sole_non_null(ts, a, t) && 0 <= z < ts.len() && ts[z] == JsonVal::Str("null"@));
        }
    }
    if let Some(JsonVal::Arr(alts)) = map_get(o, "oneOf"@) {
        if alts.len() == 2 {
            lemma_null_schema_is_literal(alts[0]);
            lemma_null_schema_is_literal(alts[1]);
            if is_null_schema(alts[0]) {
                assert(alts[0] == null_literal());
            }
            if is_null_schema(alts[1]) {
                assert(alts[1] == null_literal());
            }
        }
    }
}

/// A node whose `type` is a list of `"null"` and exactly one other type name `t`
/// becomes `{"anyOf": [base, {"type": "null"}]}`, where `base` is the node with `type`
/// set to `t`, without `oneOf` and `allOf`, and with every other member kept.
pub proof fn law_nullable_type_list(o: Seq<(Seq<char>, JsonVal)>, ts: Seq<JsonVal>, a: int, t: Seq<char>, z: int)
    requires
        map_get(o, "type"@) == Some(JsonVal::Arr(ts)),
        sole_non_null(ts, a, t),
        0 <= z < ts.len(),
        ts[z] == JsonVal::Str("null"@),
    ensures
        ({
            let r = nullable_rule(JsonVal::Obj(o));
            let b = ((r->Obj_0)[0].1->Arr_0)[0]->Obj_0;
            &&& r == JsonVal::Obj(seq![(
                "anyOf"@,
                JsonVal::Arr(seq![JsonVal::Obj(b), JsonVal::Obj(seq![("type"@, JsonVal::Str("null"@))])]),
            )])
            &&& map_get(b, "type"@) == Some(JsonVal::Str(t))
            &&& map_get(b, "oneOf"@) is None
            &&& map_get(b, "allOf"@) is None
            &&& forall|k: Seq<char>| k != "type"@ && k != "oneOf"@ && k != "allOf"@ ==> #[trigger] map_get(b, k) == map_get(o, k)
        }),
{
    lemma_sole_name(ts, a, t);
    lemma_mentions_null(ts, z);
    assert(arr_member(o, "type"@) == Some(ts));
    let named = map_insert(o, "type"@, jstr(t));
    let b = map_remove(map_remove(named, "oneOf"@), "allOf"@);
    assert(nullable_rule(JsonVal::Obj(o)) == or_null(JsonVal::Obj(b)));
    reveal_strlit("type");
    reveal_strlit("oneOf");
    reveal_strlit("allOf");
    assert("type"@.len() == 4 && "oneOf"@.len() == 5 && "allOf"@.len() == 5);
    assert("oneOf"@[0] != "allOf"@[0]);
    crate::value::law_map_get_after_insert(o, "type"@, jstr(t));
    lemma_remove_keeps_get(named, "oneOf"@, "type"@);
    lemma_remove_keeps_get(map_remove(named, "oneOf"@), "allOf"@, "type"@);
    lemma_remove_gets_none(named, "oneOf"@);
    lemma_remove_keeps_get(map_remove(named, "oneOf"@), "allOf"@, "oneOf"@);
    lemma_remove_gets_none(map_remove(named, "oneOf"@), "allOf"@);
    assert forall|k: Seq<char>| k != "type"@ && k != "oneOf"@ && k != "allOf"@ implies #[trigger] map_get(b, k) == map_get(o, k) by {
        crate::value::law_map_insert_keeps_others(o, "type"@, jstr(t), k);
        lemma_remove_keeps_get(named, "oneOf"@, k);
        lemma_remove_keeps_get(map_remove(named, "oneOf"@), "allOf"@, k);
    }
}

proof fn lemma_pg_literals()
    ensures
        "type"@ != "format"@, "type"@ != "x-pg-type"@, "format"@ != "x-pg-type"@,
        "number"@ != "string"@,
        "int8"@ != "json"@, "int8"@ != "jsonb"@, "numeric"@ != "json"@, "numeric"@ != "jsonb"@,
        "numeric"@ != "int64"@, "decimal"@ != "int64"@, "numeric"@ != "int8"@,
{
    reveal_strlit("type");
    reveal_strlit("format");
    reveal_strlit("x-pg-type");
    reveal_strlit("number");
    reveal_strlit("string");
    reveal_strlit("int8");
    reveal_strlit("json");
    reveal_strlit("jsonb");
    reveal_strlit("numeric");
    reveal_strlit("int64");
    reveal_strlit("decimal");
    assert("type"@.len() == 4 && "format"@.len() == 6 && "x-pg-type"@.len() == 9);
    assert("number"@[0] != "string"@[0]);
    assert("int8"@[0] != "json"@[0]);
    assert("int8"@.len() == 4 && "jsonb"@.len() == 5 && "numeric"@.len() == 7 && "json"@.len() == 4);
    assert("int64"@.len() == 5 && "decimal"@.len() == 7);
}

proof fn lemma_set_get(o: Seq<(Seq<char>, JsonVal)>, k: Seq<char>, t: Seq<char>, other: Seq<char>)
    ensures
        map_get(with_str(o, k, t), k) == Some(jstr(t)),
        other != k ==> map_get(with_str(o, k, t), other) == map_get(o, other),
{
    crate::value::law_map_get_after_insert(o, k, jstr(t));
    if other != k {
        crate::value::law_map_insert_keeps_others(o, k, jstr(t), other);
    }
}

proof fn lemma_removed_get(o: Seq<(Seq<char>, JsonVal)>, k: Seq<char>, other: Seq<char>)
    ensures
        map_get(map_remove(o, k), k) is None,
        other != k ==> map_get(map_remove(o, k), other) == map_get(o, other),
{
    lemma_remove_gets_none(o, k);
    if other != k {
        lemma_remove_keeps_get(o, k, other);
    }
}

/// The PostgreSQL rewrites, case by case, in the order they are tried: a string whose
/// format is `bytea` (any case) or whose `x-pg-type` is `bytea` becomes format `buffer`;
/// a string with a timestamp format becomes format `date-time`; an `x-pg-type` of `json`
/// or `jsonb` becomes format `json` with no `type`; a number with format `int64`,
/// `x-pg-type` `int8`, format `numeric` or `decimal`, or `x-pg-type` `numeric` becomes a
/// string (losing the format in the format cases). Each rewrite drops `x-pg-type`
/// (but the timestamp one); any other node is kept as it is.
pub proof fn law_pg_type_rewrites(o: Seq<(Seq<char>, JsonVal)>)
    ensures
        pg_type_rule(JsonVal::Obj(o)) is Obj,
        ({
            let r = pg_type_rule(JsonVal::Obj(o))->Obj_0;
            let typ = str_member(o, "type"@);
            let fmt = str_member(o, "format"@);
            let pg = str_member(o, "x-pg-type"@);
            let bytea = typ == Some("string"@) && ((fmt is Some && eq_ignore_case(fmt->0, "bytea"@)) || pg == Some("bytea"@));
            let stamp = typ == Some("string"@) && !bytea && (fmt == Some("timestamp without time zone"@)
                || fmt == Some("timestamp with time zone"@) || fmt == Some("timestamptz"@));
            let json = !bytea && !stamp && (pg == Some("json"@) || pg == Some("jsonb"@));
            let int64 = typ == Some("number"@) && fmt == Some("int64"@) && !json;
            let int8 = typ == Some("number"@) && pg == Some("int8"@) && fmt != Some("int64"@);
            let numeric = typ == Some("number"@) && (fmt == Some("numeric"@) || fmt == Some("decimal"@))
                && !json && pg != Some("int8"@);
            let pg_numeric = typ == Some("number"@) && pg == Some("numeric"@)
                && fmt != Some("int64"@) && fmt != Some("numeric"@) && fmt != Some("decimal"@);
            &&& bytea ==> str_member(r, "format"@) == Some("buffer"@) && map_get(r, "x-pg-type"@) is None
                && map_get(r, "type"@) == map_get(o, "type"@)
            &&& stamp ==> str_member(r, "format"@) == Some("date-time"@) && map_get(r, "type"@) == map_get(o, "type"@)
                && map_get(r, "x-pg-type"@) == map_get(o, "x-pg-type"@)
            &&& json ==> str_member(r, "format"@) == Some("json"@) && map_get(r, "type"@) is None
                && map_get(r, "x-pg-type"@) is None
            &&& (int64 || numeric) ==> str_member(r, "type"@) == Some("string"@) && map_get(r, "format"@) is None
                && map_get(r, "x-pg-type"@) is None
            &&& (int8 || pg_numeric) ==> str_member(r, "type"@) == Some("string"@) && map_get(r, "x-pg-type"@) is None
                && map_get(r, "format"@) == map_get(o, "format"@)
        }),
{
    lemma_pg_literals();
    let t = "type"@;
    let f = "format"@;
    let x = "x-pg-type"@;
    lemma_removed_get(o, x, t);
    lemma_removed_get(o, x, f);
    lemma_set_get(map_remove(o, x), f, "buffer"@, t);
    lemma_set_get(map_remove(o, x), f, "buffer"@, x);
    lemma_set_get(o, f, "date-time"@, t);
    lemma_set_get(o, f, "date-time"@, x);
    lemma_removed_get(map_remove(o, x), t, x);
    lemma_removed_get(map_remove(o, x), t, t);
    lemma_set_get(map_remove(map_remove(o, x), t), f, "json"@, t);
    lemma_set_get(map_remove(map_remove(o, x), t), f, "json"@, x);
    lemma_removed_get(o, f, x);
    lemma_removed_get(map_remove(o, f), x, f);
    lemma_removed_get(map_remove(o, f), x, x);
    lemma_set_get(map_remove(map_remove(o, f), x), t, "string"@, f);
    lemma_set_get(map_remove(map_remove(o, f), x), t, "string"@, x);
    lemma_set_get(map_remove(o, x), t, "string"@, f);
    lemma_set_get(map_remove(o, x), t, "string"@, x);
}

/// An array schema without `items` gains `items: {}` and keeps every other member; a
/// node that has `items`, or whose type is not `array`, is kept as it is.
pub proof fn law_array_items_fallback(o: Seq<(Seq<char>, JsonVal)>)
    ensures
        str_member(o, "type"@) == Some("array"@) && map_get(o, "items"@) is None ==> ({
            let r = array_items_rule(JsonVal::Obj(o))->Obj_0;
            &&& array_items_rule(JsonVal::Obj(o)) is Obj
            &&& map_get(r, "items"@) == Some(JsonVal::Obj(Seq::empty()))
            &&& forall|k: Seq<char>| k != "items"@ ==> #[trigger] map_get(r, k) == map_get(o, k)
        }),
        !(str_member(o, "type"@) == Some("array"@) && map_get(o, "items"@) is None)
            ==> array_items_rule(JsonVal::Obj(o)) == JsonVal::Obj(o),
{
    crate::value::law_map_get_after_insert(o, "items"@, JsonVal::Obj(Seq::empty()));
    assert forall|k: Seq<char>| k != "items"@ implies #[trigger] map_get(map_insert(o, "items"@, JsonVal::Obj(Seq::empty())), k) == map_get(o, k) by {
        crate::value::law_map_insert_keeps_others(o, "items"@, JsonVal::Obj(Seq::empty()), k);
    }
}

// ---------------------------------------------------------------------------
// External references
// ---------------------------------------------------------------------------

/// The external reference a node asks to be resolved: its `$ref` string, unless the
/// node is not an object, has no string `$ref`, or refers inside the document (`#/…`).
pub open spec fn deref_ref(v: JsonVal) -> Option<Seq<char>> {
    match v {
        JsonVal::Obj(o) => match str_member(o, "$ref"@) {
            Some(r) => if r.len() >= 2 && r[0] == '#' && r[1] == '/' { None } else { Some(r) },
            None => None,
        },
        _ => None,
    }
}

/// `acc` with the first `n` members of `node` other than `$ref` put in, in order.
pub open spec fn merge_siblings(acc: Seq<(Seq<char>, JsonVal)>, node: Seq<(Seq<char>, JsonVal)>, n: int) -> Seq<(Seq<char>, JsonVal)>
    decreases n,
{
    if n <= 0 {
        acc
    } else {
        let prev = merge_siblings(acc, node, n - 1);
        if node[n - 1].0 == "$ref"@ { prev } else { map_insert(prev, node[n - 1].0, node[n - 1].1) }
    }
}

pub open spec fn members_of(v: JsonVal) -> Seq<(Seq<char>, JsonVal)> {
    match v {
        JsonVal::Obj(o) => o,
        _ => Seq::empty(),
    }
}

/// The node that replaces `node` once its reference `r` resolved to `resolved`: the
/// resolved object with the node's other members put in (they win); a resolved value
/// that is not an object is `import_malformed`.
pub open spec fn deref_merged(node: JsonVal, resolved: JsonVal, r: Seq<char>) -> Result<JsonVal, ErrorView> {
    match resolved {
        JsonVal::Obj(m) => Ok(JsonVal::Obj(merge_siblings(m, members_of(node), members_of(node).len() as int))),
        _ => Err(ev_new("import_malformed"@, "deref: resolver did not return an object for ref '"@ + r + "'"@)),
    }
}

/// The external reference of `node` to resolve, if it has one.
pub fn deref_target(node: &JsonValue) -> (r: Option<String>)
    ensures
        opt_view(r) == deref_ref(node@),
{
    match node {
        JsonValue::Object(o) => {
            proof {
                lemma_json_object_view(*o);
            }
            match str_member_of(o, "$ref") {
                Some(t) => {
                    let cs = chars_of(t.as_str());
                    if cs.len() >= 2 && cs[0] == '#' && cs[1] == '/' {
                        None
                    } else {
                        Some(t.clone())
                    }
                },
                None => None,
            }
        },
        _ => None,
    }
}

/// `node` after its reference `r` resolved to `resolved` (see [`deref_merged`]).
pub fn deref_merge(node: &JsonValue, resolved: JsonValue, r: &str) -> (out: Result<JsonValue, ZerxError>)
    ensures
        match (out, deref_merged(node@, resolved@, r@)) {
            (Ok(a), Ok(b)) => a@ == b,
            (Err(e), Err(ev)) => error_view(e) == ev,
            _ => false,
        },
{
    let empty: Vec<(String, JsonValue)> = Vec::new();
    let siblings: &Vec<(String, JsonValue)> = match node {
        JsonValue::Object(o) => o,
        _ => &empty,
    };
    proof {
        lemma_json_object_view(*siblings);
        if !(node@ is Obj) {
            assert(members_view(siblings@) =~= Seq::<(Seq<char>, JsonVal)>::empty());
        }
    }
    let ghost sv = members_view(siblings@);
    assert(sv == members_of(node@));
    match resolved {
        JsonValue::Object(m) => {
            let mut merged = m;
            proof {
                lemma_json_object_view(merged);
            }
            let ghost start = members_view(merged@);
            assert(resolved@ == JsonVal::Obj(start));
            let mut i: usize = 0;
            while i < siblings.len()
                invariant
                    i <= siblings@.len(),
                    sv == members_view(siblings@),
                    members_view(merged@) == merge_siblings(start, sv, i as int),
                decreases siblings.len() - i,
            {
                if !str_eq(siblings[i].0.as_str(), "$ref") {
                    json_insert(&mut merged, siblings[i].0.clone(), siblings[i].1.deep_clone());
                }
                i += 1;
            }
            proof {
                lemma_json_object_view(merged);
                assert(members_view(merged@) == merge_siblings(start, sv, sv.len() as int));
            }
            Ok(JsonValue::Object(merged))
        },
        _ => {
            let msg = concat3("deref: resolver did not return an object for ref '", r, "'");
            Err(ZerxError::new(ErrorCode::IMPORT_MALFORMED(), msg))
        },
    }
}

// ---------------------------------------------------------------------------
// The walk reaches every subschema
// ---------------------------------------------------------------------------

/// Each element of `b` is the walk of the element of `a` at its place.
pub open spec fn sql_each(r: SqlRule, a: Seq<JsonVal>, b: Seq<JsonVal>) -> bool {
    &&& b.len() == a.len()
    &&& forall|i: int| 0 <= i < a.len() ==> #[trigger] b[i] == walk(r, a[i])
}

/// Each member of `q` has the key of the member of `p` at its place, and its value walked.
pub open spec fn sql_members(r: SqlRule, p: Seq<(Seq<char>, JsonVal)>, q: Seq<(Seq<char>, JsonVal)>) -> bool {
    &&& q.len() == p.len()
    &&& forall|i: int| 0 <= i < p.len() ==> (#[trigger] q[i]).0 == p[i].0 && q[i].1 == walk(r, p[i].1)
}

/// What the `j`-th step of walking a rewritten node's members promises under its key:
/// objects of subschemas (`properties`, `$defs`) and lists of them (`prefixItems`,
/// `anyOf`, `oneOf`, `allOf`) walked member by member, `items` walked as a list or as
/// one schema, `additionalProperties` walked when it is a schema; any other value kept.
pub open spec fn sql_slot_ok(r: SqlRule, o: Seq<(Seq<char>, JsonVal)>, w: Seq<(Seq<char>, JsonVal)>, j: int) -> bool {
    let k = step_key(j);
    if j == 1 || j == 2 {
        match map_get(o, k) {
            Some(JsonVal::Obj(p)) => map_get(w, k) matches Some(JsonVal::Obj(q)) && sql_members(r, p, q),
            other => map_get(w, k) == other,
        }
    } else if j == 3 {
        match map_get(o, k) {
            Some(JsonVal::Arr(a)) => map_get(w, k) matches Some(JsonVal::Arr(b)) && sql_each(r, a, b),
            Some(c) => map_get(w, k) == Some(walk(r, c)),
            None => map_get(w, k) is None,
        }
    } else if j == 5 {
        match map_get(o, k) {
            Some(JsonVal::Obj(p)) => map_get(w, k) == Some(walk(r, JsonVal::Obj(p))),
            other => map_get(w, k) == other,
        }
    } else {
        match map_get(o, k) {
            Some(JsonVal::Arr(a)) => map_get(w, k) matches Some(JsonVal::Arr(b)) && sql_each(r, a, b),
            other => map_get(w, k) == other,
        }
    }
}

/// After the first `j` steps: each of their keys holds what its step promises, every other
/// key what it held.
pub open spec fn sql_done_upto(r: SqlRule, o: Seq<(Seq<char>, JsonVal)>, w: Seq<(Seq<char>, JsonVal)>, j: int) -> bool {
    &&& forall|i: int| 1 <= i <= j ==> #[trigger] sql_slot_ok(r, o, w, i)
    &&& forall|k: Seq<char>| (forall|i: int| 1 <= i <= j ==> k != #[trigger] step_key(i)) ==> #[trigger] map_get(w, k) == map_get(o, k)
}

proof fn lemma_walk_list_each(r: SqlRule, a: Seq<JsonVal>, n: nat)
    requires
        forall|j: int| 0 <= j < a.len() ==> #[trigger] jsize(a[j]) < n,
    ensures
        sql_each(r, a, walk_list(r, a, n)),
    decreases a.len(),
{
    if a.len() > 0 {
        lemma_walk_list_each(r, a.drop_last(), n);
        let b = walk_list(r, a, n);
        assert forall|i: int| 0 <= i < a.len() implies #[trigger] b[i] == walk(r, a[i]) by {
            if i < a.len() - 1 {
                assert(a[i] == a.drop_last()[i]);
            }
        }
    }
}

proof fn lemma_walk_members_each(r: SqlRule, p: Seq<(Seq<char>, JsonVal)>, n: nat)
    requires
        forall|j: int| 0 <= j < p.len() ==> #[trigger] jsize(p[j].1) < n,
    ensures
        sql_members(r, p, walk_members(r, p, n)),
    decreases p.len(),
{
    if p.len() > 0 {
        lemma_walk_members_each(r, p.drop_last(), n);
        let q = walk_members(r, p, n);
        assert forall|i: int| 0 <= i < p.len() implies (#[trigger] q[i]).0 == p[i].0 && q[i].1 == walk(r, p[i].1) by {
            if i < p.len() - 1 {
                assert(p[i] == p.drop_last()[i]);
            }
        }
    }
}

proof fn lemma_sql_member_small(src: Seq<(Seq<char>, JsonVal)>, k: Seq<char>, n: nat)
    requires
        forall|i: int| 0 <= i < src.len() ==> small_member(#[trigger] src[i].1, n),
    ensures
        map_get(src, k) matches Some(c) ==> small_member(c, n),
        map_get(src, k) matches Some(JsonVal::Arr(a)) ==> forall|j: int| 0 <= j < a.len() ==> #[trigger] jsize(a[j]) < n,
        map_get(src, k) matches Some(JsonVal::Obj(p)) ==> forall|j: int| 0 <= j < p.len() ==> #[trigger] jsize(p[j].1) < n,
{
    lemma_get_member(src, k);
    if let Some(c) = map_get(src, k) {
        let i = choose|i: int| 0 <= i < src.len() && #[trigger] src[i] == (k, c);
        assert(small_member(src[i].1, n));
        lemma_parts_smaller(c);
    }
}

proof fn lemma_sql_done_next(r: SqlRule, o: Seq<(Seq<char>, JsonVal)>, w: Seq<(Seq<char>, JsonVal)>, w2: Seq<(Seq<char>, JsonVal)>, j: int)
    requires
        1 <= j <= 8,
        sql_done_upto(r, o, w, j - 1),
        forall|k2: Seq<char>| k2 != step_key(j) ==> #[trigger] map_get(w2, k2) == map_get(w, k2),
        sql_slot_ok(r, o, w2, j),
    ensures
        sql_done_upto(r, o, w2, j),
{
    assert forall|i: int| 1 <= i <= j implies #[trigger] sql_slot_ok(r, o, w2, i) by {
        if i < j {
            lemma_step_keys_differ(i, j);
            assert(sql_slot_ok(r, o, w, i));
            assert(map_get(w2, step_key(i)) == map_get(w, step_key(i)));
        }
    }
    assert forall|k: Seq<char>| (forall|i: int| 1 <= i <= j ==> k != #[trigger] step_key(i)) implies #[trigger] map_get(w2, k) == map_get(o, k) by {
        assert(k != step_key(j));
        assert(forall|i: int| 1 <= i <= j - 1 ==> k != #[trigger] step_key(i));
    }
}

/// The `j`-th step, whatever its kind, keeps the promises of the earlier ones and adds its
/// own.
proof fn lemma_sql_step(r: SqlRule, o: Seq<(Seq<char>, JsonVal)>, w: Seq<(Seq<char>, JsonVal)>, j: int, n: nat)
    requires
        1 <= j <= 8,
        forall|i: int| 0 <= i < o.len() ==> small_member(#[trigger] o[i].1, n),
        sql_done_upto(r, o, w, j - 1),
    ensures
        sql_done_upto(r, o, sql_step(r, o, w, j, n), j),
{
    let k = step_key(j);
    lemma_sql_member_small(o, k, n);
    assert(forall|i: int| 1 <= i <= j - 1 ==> k != #[trigger] step_key(i)) by {
        assert forall|i: int| 1 <= i <= j - 1 implies k != #[trigger] step_key(i) by { lemma_step_keys_differ(i, j); }
    }
    assert(map_get(w, k) == map_get(o, k));
    let w2 = sql_step(r, o, w, j, n);
    let x: JsonVal = if j == 1 || j == 2 {
        match map_get(o, k) {
            Some(JsonVal::Obj(p)) => { lemma_walk_members_each(r, p, n); JsonVal::Obj(walk_members(r, p, n)) },
            _ => JsonVal::Bool(true),
        }
    } else if j == 3 {
        lemma_get_member(o, "items"@);
        match map_get(o, k) {
            Some(JsonVal::Arr(a)) => { lemma_walk_list_each(r, a, n); JsonVal::Arr(walk_list(r, a, n)) },
            Some(c) => walk(r, c),
            None => JsonVal::Bool(true),
        }
    } else if j == 5 {
        lemma_get_member(o, k);
        match map_get(o, k) {
            Some(JsonVal::Obj(p)) => walk(r, JsonVal::Obj(p)),
            _ => JsonVal::Bool(true),
        }
    } else {
        match map_get(o, k) {
            Some(JsonVal::Arr(a)) => { lemma_walk_list_each(r, a, n); JsonVal::Arr(walk_list(r, a, n)) },
            _ => JsonVal::Bool(true),
        }
    };
    if w2 != w {
        assert(w2 == map_insert(w, k, x));
        crate::value::law_map_get_after_insert(w, k, x);
        assert forall|k2: Seq<char>| k2 != k implies #[trigger] map_get(w2, k2) == map_get(w, k2) by {
            crate::value::law_map_insert_keeps_others(w, k, x, k2);
        }
    }
    lemma_sql_done_next(r, o, w, w2, j);
}

/// The `j`-th step of walking the members `o` of a rewritten node, applied to `w`.
pub open spec fn sql_step(r: SqlRule, o: Seq<(Seq<char>, JsonVal)>, w: Seq<(Seq<char>, JsonVal)>, j: int, n: nat) -> Seq<(Seq<char>, JsonVal)> {
    if j == 1 || j == 2 {
        walk_members_at(r, o, w, step_key(j), n)
    } else if j == 3 {
        walk_items_at(r, o, w, n)
    } else if j == 5 {
        walk_schema_at(r, o, w, step_key(j), n)
    } else {
        walk_list_at(r, o, w, step_key(j), n)
    }
}

/// The `sql` rewrites reach every subschema: walking a document rewrites the node first,
/// and then, when it became an object, each subschema of it (under `properties`, `$defs`,
/// `items`, `prefixItems`, `additionalProperties`, `anyOf`, `oneOf`, `allOf`) is replaced
/// by its own walk, every other member being kept.
pub proof fn law_sql_walk_reaches_every_subschema(r: SqlRule, v: JsonVal)
    ensures
        !(rule_at(r, v) is Obj) ==> walk(r, v) == rule_at(r, v),
        rule_at(r, v) matches JsonVal::Obj(o) ==> (walk(r, v) matches JsonVal::Obj(w)
            && forall|j: int| 1 <= j <= 8 ==> #[trigger] sql_slot_ok(r, o, w, j))
            && forall|k: Seq<char>| !subschema_key(k) ==> #[trigger] map_get(walk(r, v)->Obj_0, k) == map_get(o, k),
{
    if let JsonVal::Obj(o) = rule_at(r, v) {
        let n = jsize(v);
        lemma_rule_shrinks(r, v);
        assert(sql_done_upto(r, o, o, 0));
        let o1 = sql_step(r, o, o, 1, n);
        lemma_sql_step(r, o, o, 1, n);
        let o2 = sql_step(r, o, o1, 2, n);
        lemma_sql_step(r, o, o1, 2, n);
        let o3 = sql_step(r, o, o2, 3, n);
        lemma_sql_step(r, o, o2, 3, n);
        let o4 = sql_step(r, o, o3, 4, n);
        lemma_sql_step(r, o, o3, 4, n);
        let o5 = sql_step(r, o, o4, 5, n);
        lemma_sql_step(r, o, o4, 5, n);
        let o6 = sql_step(r, o, o5, 6, n);
        lemma_sql_step(r, o, o5, 6, n);
        let o7 = sql_step(r, o, o6, 7, n);
        lemma_sql_step(r, o, o6, 7, n);
        let w = sql_step(r, o, o7, 8, n);
        lemma_sql_step(r, o, o7, 8, n);
        assert(walk(r, v) == JsonVal::Obj(w));
        assert forall|k: Seq<char>| !subschema_key(k) implies #[trigger] map_get(w, k) == map_get(o, k) by {
            assert forall|i: int| 1 <= i <= 8 implies k != #[trigger] step_key(i) by {}
        }
    }
}

} // verus!
