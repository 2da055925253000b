//! Sub-tree updates addressed by JSON Pointer: validating a value against the schema at
//! a path, and replacing the value at a path of an instance and revalidating the root.
use vstd::prelude::*;
use crate::error::{ZerxError, ErrorCode, ErrorView, error_view, strings_view, ev_new, ev_at, ev_expected, ev_received};
use crate::value::{ZerxValue, Val, ObjectMap, map_get, map_insert, law_map_get_after_insert, law_map_insert_keeps_others, law_map_insert_order, values_view, clone_values, lemma_array_view, lemma_object_view};
use crate::schema::{Schema, SchemaKind, Hooks};
use crate::semantics::sem_present;
use crate::parse::value_result_is;
use crate::pointer::{parse_pointer, parse_index, pointer_tokens, index_result, debug_quoted, debug_text, split_char, replace_pair, unescape_token};
use crate::types::shape_view;
use crate::text::{owned, concat, concat3, usize_to_string, decimal};

verus! {

// ---------------------------------------------------------------------------
// Schema navigation
// ---------------------------------------------------------------------------

/// The error for a chain of lazy schemas that does not end within the hop count.
pub open spec fn endless_chain() -> ErrorView {
    ev_new("parse_depth_exceeded"@, "lazy schemas resolve to lazy schemas without end"@)
}

/// `s` with lazy layers resolved, at most `hops` of them; a longer chain is
/// [`endless_chain`]. Navigation and Lua conversion start the count at `usize::MAX`, a
/// machine bound: every chain a host can build is followed to its end, and only one that
/// never ends (a lazy schema resolving to itself) stops there.
pub open spec fn resolved<H: Hooks>(h: &H, s: Schema, hops: nat) -> Result<Schema, ErrorView>
    decreases hops,
{
    match s.kind {
        SchemaKind::Lazy(id) => if hops == 0 {
            Err(endless_chain())
        } else {
            match h.spec_resolve(id) {
                Err(e) => Err(e),
                Ok(inner) => resolved(h, inner, (hops - 1) as nat),
            }
        },
        _ => Ok(s),
    }
}

/// A chain that ends is followed to its end whatever the hop count beyond its length: when
/// `s` resolves within `k` hops, any count `m >= k` (`usize::MAX`, the one navigation and
/// Lua conversion use, among them) gives the same schema, or the same resolver error.
pub proof fn law_resolved_past_chain_end<H: Hooks>(h: &H, s: Schema, k: nat, m: nat)
    requires
        k <= m,
        resolved(h, s, k) != Err::<Schema, ErrorView>(endless_chain()),
    ensures
        resolved(h, s, m) == resolved(h, s, k),
    decreases k,
{
    if let SchemaKind::Lazy(id) = s.kind {
        if k > 0 {
            if let Ok(inner) = h.spec_resolve(id) {
                law_resolved_past_chain_end(h, inner, (k - 1) as nat, (m - 1) as nat);
            }
        }
    }
}

/// The error for descending from `s` with a path ending at `path`.
pub open spec fn descend_error(code: Seq<char>, message: Seq<char>, path: Seq<Seq<char>>) -> ErrorView {
    ev_at(ev_new(code, message), path)
}

/// One step of schema navigation: the sub-schema of `s` (not lazy) under token `seg`;
/// `consumed` holds the tokens before it.
pub open spec fn nav_step(s: Schema, seg: Seq<char>, consumed: Seq<Seq<char>>) -> Result<Schema, ErrorView> {
    let path = consumed.push(seg);
    match s.kind {
        SchemaKind::Object(body) => match map_get(shape_view(body.shape@), seg) {
            Some(f) => Ok(f),
            None => Err(ev_received(ev_expected(
                descend_error("unknown_property"@, "property "@ + debug_text(seg) + " is not defined in schema"@, path),
                "property defined in schema"@,
            ), seg)),
        },
        SchemaKind::Record(vs) => Ok(*vs),
        SchemaKind::Array(item) => match index_result(seg, consumed) {
            Err(e) => Err(e),
            Ok(_) => Ok(*item),
        },
        SchemaKind::Tuple(items) => match index_result(seg, consumed) {
            Err(e) => Err(e),
            Ok(idx) => if idx >= items@.len() {
                Err(descend_error(
                    "index_out_of_range"@,
                    "tuple index "@ + decimal(idx) + " is out of range (tuple length "@ + decimal(items@.len()) + ")"@,
                    path,
                ))
            } else {
                Ok(items@[idx as int])
            },
        },
        SchemaKind::Union(_) | SchemaKind::DiscriminatedUnion(_) => Err(descend_error(
            "union_path_requires_instance"@,
            "cannot descend into a union without an instance; use replace() instead"@,
            path,
        )),
        _ => Err(descend_error("invalid_path"@, "cannot descend into a leaf/scalar schema kind"@, path)),
    }
}

/// The sub-schema at tokens `segs[i..]` below `s`: lazy layers are resolved before each
/// step, not after the last.
pub open spec fn navigate<H: Hooks>(h: &H, s: Schema, segs: Seq<Seq<char>>, i: int) -> Result<Schema, ErrorView>
    decreases segs.len() - i,
{
    if i >= segs.len() {
        Ok(s)
    } else {
        match resolved(h, s, usize::MAX as nat) {
            Err(e) => Err(e),
            Ok(r) => match nav_step(r, segs[i], segs.take(i)) {
                Err(e) => Err(e),
                Ok(next) => navigate(h, next, segs, i + 1),
            },
        }
    }
}

/// What `parse_delta` yields: the pointer's tokens, the sub-schema they reach, and the
/// value parsed against it.
pub open spec fn delta_result<H: Hooks>(h: &H, s: Schema, path: Seq<char>, v: Val) -> Result<Val, ErrorView> {
    match pointer_tokens(path) {
        None => Err(ev_new("invalid_pointer"@, "JSON Pointer must be empty or start with '/'; got "@ + debug_text(path))),
        Some(segs) => match navigate(h, s, segs, 0) {
            Err(e) => Err(e),
            Ok(t) => sem_present(h, t, v, 0),
        },
    }
}

/// Resolves the lazy schema `s` until a schema that is not lazy comes back.
pub(crate) fn resolve_chain<H: Hooks>(h: &H, s: &Schema) -> (r: Result<Schema, ZerxError>)
    requires
        s.kind is Lazy,
    ensures
        match (r, resolved(h, *s, usize::MAX as nat)) {
            (Ok(a), Ok(b)) => a == b && !(a.kind is Lazy),
            (Err(e), Err(ev)) => error_view(e) == ev,
            _ => false,
        },
{
    let id = match &s.kind {
        SchemaKind::Lazy(id) => *id,
        _ => 0,
    };
    let mut cur = match h.resolve(id) {
        Ok(c) => c,
        Err(e) => return Err(e),
    };
    let mut hops: usize = usize::MAX - 1;
    loop
        invariant
            hops < usize::MAX,
            resolved(h, *s, usize::MAX as nat) == resolved(h, cur, hops as nat),
        decreases hops,
    {
        let next_id = match &cur.kind {
            SchemaKind::Lazy(i) => Some(*i),
            _ => None,
        };
        let next_id = match next_id {
            Some(i) => i,
            None => return Ok(cur),
        };
        if hops == 0 {
            return Err(ZerxError::new(ErrorCode::PARSE_DEPTH_EXCEEDED(), owned("lazy schemas resolve to lazy schemas without end")));
        }
        cur = match h.resolve(next_id) {
            Ok(c) => c,
            Err(e) => return Err(e),
        };
        hops = hops - 1;
    }
}

/// The tokens `segs[..n]`, as an error path.
fn path_prefix(segs: &Vec<String>, n: usize) -> (r: Vec<String>)
    requires
        n <= segs@.len(),
    ensures
        strings_view(r@) == strings_view(segs@).take(n as int),
{
    let mut out: Vec<String> = Vec::new();
    let mut i: usize = 0;
    while i < n
        invariant
            i <= n <= segs@.len(),
            strings_view(out@) == strings_view(segs@).take(i as int),
        decreases n - i,
    {
        let ghost prev = out@;
        out.push(segs[i].clone());
        proof {
            assert(strings_view(out@) =~= strings_view(prev).push(segs@[i as int]@));
            assert(strings_view(segs@).take(i + 1) =~= strings_view(segs@).take(i as int).push(segs@[i as int]@));
        }
        i += 1;
    }
    out
}

/// Validates `value` against the sub-schema reached from `s` by `segs[i..]`.
fn delta_at<H: Hooks>(h: &H, s: &Schema, segs: &Vec<String>, i: usize, value: &ZerxValue) -> (r: Result<ZerxValue, ZerxError>)
    requires
        i <= segs@.len(),
    ensures
        value_result_is(r, match navigate(h, *s, strings_view(segs@), i as int) {
            Err(e) => Err(e),
            Ok(t) => sem_present(h, t, value@, 0),
        }),
    decreases segs@.len() - i, 1int,
{
    if i >= segs.len() {
        return s.validate(h, value);
    }
    if let SchemaKind::Lazy(_) = &s.kind {
        let r = match resolve_chain(h, s) {
            Ok(r) => r,
            Err(e) => return Err(e),
        };
        step_at(h, &r, segs, i, value)
    } else {
        step_at(h, s, segs, i, value)
    }
}

/// One navigation step from `s` (not lazy) by `segs[i]`, then the rest.
fn step_at<H: Hooks>(h: &H, s: &Schema, segs: &Vec<String>, i: usize, value: &ZerxValue) -> (r: Result<ZerxValue, ZerxError>)
    requires
        i < segs@.len(),
        !(s.kind is Lazy),
    ensures
        value_result_is(r, match nav_step(*s, strings_view(segs@)[i as int], strings_view(segs@).take(i as int)) {
            Err(e) => Err(e),
            Ok(next) => match navigate(h, next, strings_view(segs@), i + 1) {
                Err(e) => Err(e),
                Ok(t) => sem_present(h, t, value@, 0),
            },
        }),
    decreases segs@.len() - i, 0int,
{
    let len = segs.len();
    let seg = &segs[i];
    let ghost sv = strings_view(segs@);
    assert(sv[i as int] == seg@);
    assert(sv.take(i + 1) =~= sv.take(i as int).push(sv[i as int]));
    match &s.kind {
        SchemaKind::Object(body) => {
            match find_shape_field(&body.shape, seg) {
                Some(p) => delta_at(h, &body.shape[p].1, segs, i + 1, value),
                None => {
                    let msg = concat3("property ", debug_quoted(seg.as_str()).as_str(), " is not defined in schema");
                    Err(ZerxError::new(ErrorCode::UNKNOWN_PROPERTY(), msg)
                        .at(path_prefix(segs, i + 1))
                        .expected(owned("property defined in schema"))
                        .received(seg.clone()))
                },
            }
        },
        SchemaKind::Record(vs) => delta_at(h, vs, segs, i + 1, value),
        SchemaKind::Array(item) => {
            match parse_index(seg.as_str(), &path_prefix(segs, i)) {
                Err(e) => Err(e),
                Ok(_) => delta_at(h, item, segs, i + 1, value),
            }
        },
        SchemaKind::Tuple(items) => {
            let idx = match parse_index(seg.as_str(), &path_prefix(segs, i)) {
                Err(e) => return Err(e),
                Ok(n) => n,
            };
            if idx >= items.len() {
                let m1 = concat3("tuple index ", usize_to_string(idx).as_str(), " is out of range (tuple length ");
                let msg = concat3(m1.as_str(), usize_to_string(items.len()).as_str(), ")");
                return Err(ZerxError::new(ErrorCode::INDEX_OUT_OF_RANGE(), msg).at(path_prefix(segs, i + 1)));
            }
            delta_at(h, &items[idx], segs, i + 1, value)
        },
        SchemaKind::Union(_) | SchemaKind::DiscriminatedUnion(_) => {
            Err(ZerxError::new(
                ErrorCode::UNION_PATH_REQUIRES_INSTANCE(),
                owned("cannot descend into a union without an instance; use replace() instead"),
            ).at(path_prefix(segs, i + 1)))
        },
        _ => {
            Err(ZerxError::new(ErrorCode::INVALID_PATH(), owned("cannot descend into a leaf/scalar schema kind"))
                .at(path_prefix(segs, i + 1)))
        },
    }
}

/// The position of the first shape field named `key`.
fn find_shape_field(shape: &Vec<(String, Schema)>, key: &String) -> (r: Option<usize>)
    ensures
        match r {
            Some(p) => p < shape@.len() && map_get(shape_view(shape@), key@) == Some(shape@[p as int].1),
            None => map_get(shape_view(shape@), key@) is None,
        },
{
    let ghost sv = shape_view(shape@);
    let mut i: usize = 0;
    while i < shape.len()
        invariant
            i <= shape@.len(),
            sv == shape_view(shape@),
            forall|j: int| 0 <= j < i ==> sv[j].0 != key@,
        decreases shape.len() - i,
    {
        if shape[i].0 == *key {
            proof {
                crate::value::lemma_key_pos_first(sv, key@, i as int);
            }
            return Some(i);
        }
        i += 1;
    }
    proof {
        crate::value::lemma_key_pos_none(sv, key@);
    }
    None
}

// ---------------------------------------------------------------------------
// Instance update
// ---------------------------------------------------------------------------

/// `v` with the sub-tree at tokens `segs[i..]` replaced by `new`; object keys and array
/// indices on the way must exist.
pub open spec fn set_val(v: Val, segs: Seq<Seq<char>>, i: int, new: Val) -> Result<Val, ErrorView>
    decreases segs.len() - i,
{
    if i >= segs.len() {
        Ok(new)
    } else {
        let seg = segs[i];
        let path = segs.take(i + 1);
        match v {
            Val::Obj(m) => match map_get(m, seg) {
                None => Err(ev_received(ev_expected(
                    descend_error("missing_parent"@, "object key "@ + debug_text(seg) + " is absent from the instance"@, path),
                    "existing parent key"@,
                ), seg)),
                Some(child) => match set_val(child, segs, i + 1, new) {
                    Err(e) => Err(e),
                    Ok(c) => Ok(Val::Obj(map_insert(m, seg, c))),
                },
            },
            Val::Arr(items) => match index_result(seg, segs.take(i)) {
                Err(e) => Err(e),
                Ok(idx) => if idx >= items.len() {
                    Err(descend_error(
                        "index_out_of_range"@,
                        "array index "@ + decimal(idx) + " is out of range (length "@ + decimal(items.len()) + ")"@,
                        path,
                    ))
                } else {
                    match set_val(items[idx as int], segs, i + 1, new) {
                        Err(e) => Err(e),
                        Ok(c) => Ok(Val::Arr(items.update(idx as int, c))),
                    }
                },
            },
            _ => Err(descend_error("invalid_path"@, "cannot descend into a non-container value"@, path)),
        }
    }
}

/// The sub-tree at tokens `segs[i..]` of `v`, if every key and index on the way exists.
pub open spec fn get_val(v: Val, segs: Seq<Seq<char>>, i: int) -> Option<Val>
    decreases segs.len() - i,
{
    if i >= segs.len() {
        Some(v)
    } else {
        match v {
            Val::Obj(m) => match map_get(m, segs[i]) {
                None => None,
                Some(child) => get_val(child, segs, i + 1),
            },
            Val::Arr(items) => match index_result(segs[i], segs.take(i)) {
                Ok(idx) => if idx < items.len() { get_val(items[idx as int], segs, i + 1) } else { None },
                Err(_) => None,
            },
            _ => None,
        }
    }
}

/// `value` with the sub-tree at `segs[i..]` replaced by `new`.
fn set_at(value: &ZerxValue, segs: &Vec<String>, i: usize, new: &ZerxValue) -> (r: Result<ZerxValue, ZerxError>)
    requires
        i <= segs@.len(),
    ensures
        match (r, set_val(value@, strings_view(segs@), i as int, new@)) {
            (Ok(a), Ok(b)) => a@ == b,
            (Err(e), Err(ev)) => error_view(e) == ev,
            _ => false,
        },
    decreases segs@.len() - i,
{
    if i >= segs.len() {
        return Ok(new.clone());
    }
    let seg = &segs[i];
    let ghost sv = strings_view(segs@);
    assert(sv[i as int] == seg@);
    match value {
        ZerxValue::Object(map) => {
            proof {
                lemma_object_view(*map);
            }
            match map.get(seg.as_str()) {
                None => {
                    let msg = concat3("object key ", debug_quoted(seg.as_str()).as_str(), " is absent from the instance");
                    Err(ZerxError::new(ErrorCode::MISSING_PARENT(), msg)
                        .at(path_prefix(segs, i + 1))
                        .expected(owned("existing parent key"))
                        .received(seg.clone()))
                },
                Some(child) => {
                    let child2 = match set_at(child, segs, i + 1, new) {
                        Ok(c) => c,
                        Err(e) => return Err(e),
                    };
                    let mut new_map = map.clone();
                    new_map.insert(seg.clone(), child2);
                    let r = ZerxValue::Object(new_map);
                    proof {
                        lemma_object_view(new_map);
                    }
                    Ok(r)
                },
            }
        },
        ZerxValue::Array(items) => {
            proof {
                lemma_array_view(*items);
            }
            let idx = match parse_index(seg.as_str(), &path_prefix(segs, i)) {
                Err(e) => return Err(e),
                Ok(n) => n,
            };
            if idx >= items.len() {
                let m1 = concat3("array index ", usize_to_string(idx).as_str(), " is out of range (length ");
                let msg = concat3(m1.as_str(), usize_to_string(items.len()).as_str(), ")");
                return Err(ZerxError::new(ErrorCode::INDEX_OUT_OF_RANGE(), msg).at(path_prefix(segs, i + 1)));
            }
            let child2 = match set_at(&items[idx], segs, i + 1, new) {
                Ok(c) => c,
                Err(e) => return Err(e),
            };
            let mut new_vec = clone_values(items);
            let ghost c2 = child2@;
            new_vec.set(idx, child2);
            proof {
                assert(values_view(new_vec@) =~= values_view(items@).update(idx as int, c2));
                lemma_array_view(new_vec);
            }
            Ok(ZerxValue::Array(new_vec))
        },
        _ => {
            Err(ZerxError::new(ErrorCode::INVALID_PATH(), owned("cannot descend into a non-container value"))
                .at(path_prefix(segs, i + 1)))
        },
    }
}

/// What `replace` yields: the pointer's tokens, the instance with the sub-tree replaced
/// (the whole value for the empty pointer), and the root parsed again.
pub open spec fn replace_result<H: Hooks>(h: &H, s: Schema, instance: Val, path: Seq<char>, v: Val) -> Result<Val, ErrorView> {
    match pointer_tokens(path) {
        None => Err(ev_new("invalid_pointer"@, "JSON Pointer must be empty or start with '/'; got "@ + debug_text(path))),
        Some(segs) => if segs.len() == 0 {
            sem_present(h, s, v, 0)
        } else {
            match set_val(instance, segs, 0, v) {
                Err(e) => Err(e),
                Ok(rebuilt) => sem_present(h, s, rebuilt, 0),
            }
        },
    }
}

impl Schema {
    /// Validates `value` against the sub-schema at the JSON Pointer `path`; the empty
    /// pointer validates against the whole schema. Navigation uses the schema only, so it
    /// cannot descend into a union. Each chain of lazy schemas met on the way is followed
    /// to the schema at its end (see [`resolved`]).
    pub fn parse_delta<H: Hooks>(&self, hooks: &H, path: &str, value: &ZerxValue) -> (r: Result<ZerxValue, ZerxError>)
        ensures
            value_result_is(r, delta_result(hooks, *self, path@, value@)),
    {
        let segs = match parse_pointer(path) {
            Ok(s) => s,
            Err(e) => return Err(e),
        };
        delta_at(hooks, self, &segs, 0, value)
    }

    /// A new instance: `instance` with the value at the JSON Pointer `path` replaced by
    /// `value` (the empty pointer replaces the root), validated again from the root so that
    /// cross-field refinements and defaults apply. `instance` itself is not changed, and
    /// absent object keys are not created.
    pub fn replace<H: Hooks>(&self, hooks: &H, instance: &ZerxValue, path: &str, value: &ZerxValue) -> (r: Result<ZerxValue, ZerxError>)
        ensures
            value_result_is(r, replace_result(hooks, *self, instance@, path@, value@)),
    {
        let segs = match parse_pointer(path) {
            Ok(s) => s,
            Err(e) => return Err(e),
        };
        if segs.len() == 0 {
            return self.validate(hooks, value);
        }
        let rebuilt = match set_at(instance, &segs, 0, value) {
            Ok(v) => v,
            Err(e) => return Err(e),
        };
        self.validate(hooks, &rebuilt)
    }
}

// ---------------------------------------------------------------------------
// Laws
// ---------------------------------------------------------------------------

/// After a successful update, reading the same path gives the value written.
pub proof fn law_get_after_set(v: Val, segs: Seq<Seq<char>>, i: int, new: Val)
    requires
        0 <= i <= segs.len(),
        set_val(v, segs, i, new) is Ok,
    ensures
        get_val(set_val(v, segs, i, new)->Ok_0, segs, i) == Some(new),
    decreases segs.len() - i,
{
    if i < segs.len() {
        let seg = segs[i];
        match v {
            Val::Obj(m) => {
                let child = map_get(m, seg)->Some_0;
                law_get_after_set(child, segs, i + 1, new);
                let c = set_val(child, segs, i + 1, new)->Ok_0;
                law_map_get_after_insert(m, seg, c);
            },
            Val::Arr(items) => {
                let idx = index_result(seg, segs.take(i))->Ok_0;
                law_get_after_set(items[idx as int], segs, i + 1, new);
            },
            _ => {},
        }
    }
}

/// An update below the object key `segs[0]` leaves every other key of the root as it
/// was.
pub proof fn law_set_keeps_siblings(m: Seq<(Seq<char>, Val)>, segs: Seq<Seq<char>>, new: Val, other: Seq<char>)
    requires
        segs.len() >= 1,
        other != segs[0],
        set_val(Val::Obj(m), segs, 0, new) is Ok,
    ensures
        set_val(Val::Obj(m), segs, 0, new)->Ok_0 matches Val::Obj(m2) && map_get(m2, other) == map_get(m, other),
{
    let child = map_get(m, segs[0])->Some_0;
    let c = set_val(child, segs, 1, new)->Ok_0;
    law_map_insert_keeps_others(m, segs[0], c, other);
}

/// An update never creates a missing parent: a key absent from an object on the way is
/// refused with `missing_parent`.
pub proof fn law_set_never_creates(m: Seq<(Seq<char>, Val)>, segs: Seq<Seq<char>>, i: int, new: Val)
    requires
        0 <= i < segs.len(),
        map_get(m, segs[i]) is None,
    ensures
        set_val(Val::Obj(m), segs, i, new) matches Err(e) && e.code == "missing_parent"@,
{
}

/// An update never deletes: the updated object has the keys it had, in the same order.
pub proof fn law_set_keeps_keys(m: Seq<(Seq<char>, Val)>, segs: Seq<Seq<char>>, new: Val)
    requires
        segs.len() >= 1,
        set_val(Val::Obj(m), segs, 0, new) is Ok,
    ensures
        set_val(Val::Obj(m), segs, 0, new)->Ok_0 matches Val::Obj(m2) && m2.len() == m.len()
            && forall|j: int| 0 <= j < m.len() ==> (#[trigger] m2[j]).0 == m[j].0,
{
    let child = map_get(m, segs[0])->Some_0;
    let c = set_val(child, segs, 1, new)->Ok_0;
    law_map_insert_order(m, segs[0], c);
}

/// The empty pointer replaces the whole root: the result is the new value validated
/// against the whole schema, whatever the instance was.
pub proof fn law_replace_empty_pointer<H: Hooks>(h: &H, s: Schema, instance: Val, v: Val)
    ensures
        replace_result(h, s, instance, Seq::empty(), v) == sem_present(h, s, v, 0),
{
}

/// The empty pointer validates against the whole schema.
pub proof fn law_delta_empty_pointer<H: Hooks>(h: &H, s: Schema, v: Val)
    ensures
        delta_result(h, s, Seq::empty(), v) == sem_present(h, s, v, 0),
{
}

proof fn lemma_split_without_separator(s: Seq<char>, c: char)
    requires
        !s.contains(c),
    ensures
        split_char(s, c) == seq![s],
    decreases s.len(),
{
    if s.len() > 0 {
        assert(!s.drop_first().contains(c)) by {
            if s.drop_first().contains(c) {
                let j = choose|j: int| 0 <= j < s.drop_first().len() && s.drop_first()[j] == c;
                assert(s[j + 1] == c);
            }
        }
        lemma_split_without_separator(s.drop_first(), c);
        assert(s[0] != c) by {
            if s[0] == c {
                assert(s.contains(c));
            }
        }
        assert(seq![s[0]] + s.drop_first() =~= s);
        assert(split_char(s, c) =~= seq![s]);
    } else {
        assert(s =~= Seq::<char>::empty());
    }
}

proof fn lemma_replace_pair_absent(s: Seq<char>, a: char, b: char, r: char)
    requires
        !s.contains(a),
    ensures
        replace_pair(s, a, b, r) == s,
    decreases s.len(),
{
    if s.len() >= 2 {
        assert(s[0] != a) by {
            if s[0] == a {
                assert(s.contains(a));
            }
        }
        assert(!s.drop_first().contains(a)) by {
            if s.drop_first().contains(a) {
                let j = choose|j: int| 0 <= j < s.drop_first().len() && s.drop_first()[j] == a;
                assert(s[j + 1] == a);
            }
        }
        lemma_replace_pair_absent(s.drop_first(), a, b, r);
        assert(seq![s[0]] + s.drop_first() =~= s);
    }
}

/// `/k` addresses the field `k` of an object schema (a key without `/` or `~`, which
/// need no escaping): `parse_delta` there validates against that field's schema.
pub proof fn law_delta_field<H: Hooks>(h: &H, s: Schema, k: Seq<char>, field: Schema, v: Val)
    requires
        s.kind matches SchemaKind::Object(body) && map_get(shape_view(body.shape@), k) == Some(field),
        !k.contains('/'),
        !k.contains('~'),
    ensures
        delta_result(h, s, seq!['/'] + k, v) == sem_present(h, field, v, 0),
{
    let p = seq!['/'] + k;
    assert(p.drop_first() =~= k);
    lemma_split_without_separator(k, '/');
    lemma_replace_pair_absent(k, '~', '1', '/');
    lemma_replace_pair_absent(k, '~', '0', '~');
    let toks = split_char(k, '/').map_values(|t: Seq<char>| unescape_token(t));
    assert(toks =~= seq![k]);
    assert(pointer_tokens(p) == Some(seq![k]));
    let segs = seq![k];
    assert(segs.take(0) =~= Seq::<Seq<char>>::empty());
    assert(resolved(h, s, usize::MAX as nat) == Ok::<Schema, ErrorView>(s));
    assert(nav_step(s, segs[0], segs.take(0)) == Ok::<Schema, ErrorView>(field));
    assert(navigate(h, field, segs, 1) == Ok::<Schema, ErrorView>(field));
    assert(navigate(h, s, segs, 0) == Ok::<Schema, ErrorView>(field));
}

} // verus!
