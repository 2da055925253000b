//! Resolving the external `$ref`s of a JSON Schema document before it is imported: every
//! schema node that refers outside the document is replaced by what the host's resolver
//! gives for the reference, with the node's other keywords put over it, and the walk goes
//! on into the subschemas of the result.
use vstd::prelude::*;
use crate::value::{map_get, map_insert};
use crate::export::{JsonValue, JsonVal, json_view, jsons_view, members_view, lemma_json_array_view, lemma_json_object_view, json_insert};
use crate::policy::{jsize, small_member, lemma_parts_smaller, lemma_get_member, deref_ref, deref_merged, merge_siblings, deref_target, deref_merge, clone_members, member};
use crate::error::{ZerxError, ErrorCode, ErrorView, error_view, ev_new};
use crate::text::{owned, concat3};

verus! {

/// The host's resolver of external references. What the walk proves of a resolver rests
/// on `spec_deref`: an impl that keeps the default below and answers otherwise (one
/// outside this crate, which Verus does not read) is not held to it.
pub trait RefResolver {
    /// The document that reference `r` resolves to, or the error resolving it raises; by
    /// default, no reference resolves.
    open spec fn spec_deref(&self, r: Seq<char>) -> Result<JsonVal, ErrorView> {
        Err(unknown_ref(r))
    }

    /// Resolves reference `r`.
    fn deref(&self, r: &str) -> (out: Result<JsonValue, ZerxError>)
        ensures
            json_result_is(out, self.spec_deref(r@)),
    ;
}

/// Whether an executed result stands for the result `s` of the model.
pub open spec fn json_result_is(r: Result<JsonValue, ZerxError>, s: Result<JsonVal, ErrorView>) -> bool {
    match (r, s) {
        (Ok(a), Ok(b)) => a@ == b,
        (Err(e), Err(ev)) => error_view(e) == ev,
        _ => false,
    }
}

pub open spec fn list_result_is(r: Result<Vec<JsonValue>, ZerxError>, s: Result<Seq<JsonVal>, ErrorView>) -> bool {
    match (r, s) {
        (Ok(a), Ok(b)) => jsons_view(a@) == b,
        (Err(e), Err(ev)) => error_view(e) == ev,
        _ => false,
    }
}

pub open spec fn members_result_is(r: Result<Vec<(String, JsonValue)>, ZerxError>, s: Result<Seq<(Seq<char>, JsonVal)>, ErrorView>) -> bool {
    match (r, s) {
        (Ok(a), Ok(b)) => members_view(a@) == b,
        (Err(e), Err(ev)) => error_view(e) == ev,
        _ => false,
    }
}

/// A resolver that looks references up in a table of documents.
pub struct RefTable {
    /// Each reference with the document it resolves to.
    pub entries: Vec<(String, JsonValue)>,
}

/// The error for a reference that a [`RefTable`] does not hold.
pub open spec fn unknown_ref(r: Seq<char>) -> ErrorView {
    ev_new("unknown_error"@, "deref: no document for ref '"@ + r + "'"@)
}

impl RefResolver for RefTable {
    open spec fn spec_deref(&self, r: Seq<char>) -> Result<JsonVal, ErrorView> {
        match map_get(members_view(self.entries@), r) {
            Some(x) => Ok(x),
            None => Err(unknown_ref(r)),
        }
    }

    fn deref(&self, r: &str) -> (out: Result<JsonValue, ZerxError>) {
        match member(&self.entries, r) {
            Some(x) => Ok(x.deep_clone()),
            None => Err(ZerxError::new(ErrorCode::UNKNOWN_ERROR(), concat3("deref: no document for ref '", r, "'"))),
        }
    }
}

/// The error for references resolved inside the results of `usize::MAX` other
/// resolutions: a machine bound that only a resolver whose documents refer to
/// themselves for ever can reach.
pub open spec fn deref_too_deep() -> ErrorView {
    ev_new("import_malformed"@, "deref: references nested too deeply"@)
}

/// Each element of `a` walked; `n` bounds the elements' sizes.
pub open spec fn dwalk_list<R: RefResolver>(res: &R, a: Seq<JsonVal>, fuel: nat, n: nat) -> Result<Seq<JsonVal>, ErrorView>
    decreases fuel, n, 0int, a.len(),
    when forall|j: int| 0 <= j < a.len() ==> #[trigger] jsize(a[j]) < n
{
    if a.len() == 0 {
        Ok(Seq::empty())
    } else {
        match dwalk_list(res, a.drop_last(), fuel, n) {
            Err(e) => Err(e),
            Ok(p) => match dwalk(res, a.last(), fuel) {
                Err(e) => Err(e),
                Ok(x) => Ok(p.push(x)),
            },
        }
    }
}

/// Each member value of `p` walked, keys kept; `n` bounds the values' sizes.
pub open spec fn dwalk_members<R: RefResolver>(res: &R, p: Seq<(Seq<char>, JsonVal)>, fuel: nat, n: nat) -> Result<Seq<(Seq<char>, JsonVal)>, ErrorView>
    decreases fuel, n, 0int, p.len(),
    when forall|j: int| 0 <= j < p.len() ==> #[trigger] jsize(p[j].1) < n
{
    if p.len() == 0 {
        Ok(Seq::empty())
    } else {
        match dwalk_members(res, p.drop_last(), fuel, n) {
            Err(e) => Err(e),
            Ok(q) => match dwalk(res, p.last().1, fuel) {
                Err(e) => Err(e),
                Ok(x) => Ok(q.push((p.last().0, x))),
            },
        }
    }
}

/// After `acc`, the list under `k` of `src` walked and put in, when there is one.
pub open spec fn dlist_at<R: RefResolver>(res: &R, src: Seq<(Seq<char>, JsonVal)>, acc: Result<Seq<(Seq<char>, JsonVal)>, ErrorView>, k: Seq<char>, fuel: nat, n: nat) -> Result<Seq<(Seq<char>, JsonVal)>, ErrorView>
    decreases fuel, n, 1int, 0int,
{
    match acc {
        Err(e) => Err(e),
        Ok(o) => match map_get(src, k) {
            Some(JsonVal::Arr(a)) => match dwalk_list(res, a, fuel, n) {
                Err(e) => Err(e),
                Ok(w) => Ok(map_insert(o, k, JsonVal::Arr(w))),
            },
            _ => Ok(o),
        },
    }
}

/// After `acc`, the object under `k` of `src`, its member values walked, put in.
pub open spec fn dmembers_at<R: RefResolver>(res: &R, src: Seq<(Seq<char>, JsonVal)>, acc: Result<Seq<(Seq<char>, JsonVal)>, ErrorView>, k: Seq<char>, fuel: nat, n: nat) -> Result<Seq<(Seq<char>, JsonVal)>, ErrorView>
    decreases fuel, n, 1int, 0int,
{
    match acc {
        Err(e) => Err(e),
        Ok(o) => match map_get(src, k) {
            Some(JsonVal::Obj(p)) => match dwalk_members(res, p, fuel, n) {
                Err(e) => Err(e),
                Ok(w) => Ok(map_insert(o, k, JsonVal::Obj(w))),
            },
            _ => Ok(o),
        },
    }
}

/// After `acc`, the member `items` of `src` walked and put in: a list element by element,
/// any other value as one schema.
pub open spec fn ditems_at<R: RefResolver>(res: &R, src: Seq<(Seq<char>, JsonVal)>, acc: Result<Seq<(Seq<char>, JsonVal)>, ErrorView>, fuel: nat, n: nat) -> Result<Seq<(Seq<char>, JsonVal)>, ErrorView>
    decreases fuel, n, 1int, 0int,
    when forall|i: int| 0 <= i < src.len() ==> small_member(#[trigger] src[i].1, n)
{
    proof {
        lemma_get_member(src, "items"@);
    }
    match acc {
        Err(e) => Err(e),
        Ok(o) => match map_get(src, "items"@) {
            Some(JsonVal::Arr(a)) => match dwalk_list(res, a, fuel, n) {
                Err(e) => Err(e),
                Ok(w) => Ok(map_insert(o, "items"@, JsonVal::Arr(w))),
            },
            Some(c) => match dwalk(res, c, fuel) {
                Err(e) => Err(e),
                Ok(w) => Ok(map_insert(o, "items"@, w)),
            },
            None => Ok(o),
        },
    }
}

/// After `acc`, the member under `k` of `src`, when it is an object, walked as one schema
/// and put in.
pub open spec fn dschema_at<R: RefResolver>(res: &R, src: Seq<(Seq<char>, JsonVal)>, acc: Result<Seq<(Seq<char>, JsonVal)>, ErrorView>, k: Seq<char>, fuel: nat, n: nat) -> Result<Seq<(Seq<char>, JsonVal)>, ErrorView>
    decreases fuel, n, 1int, 0int,
    when forall|i: int| 0 <= i < src.len() ==> small_member(#[trigger] src[i].1, n)
{
    proof {
        lemma_get_member(src, k);
    }
    match acc {
        Err(e) => Err(e),
        Ok(o) => match map_get(src, k) {
            Some(JsonVal::Obj(p)) => match dwalk(res, JsonVal::Obj(p), fuel) {
                Err(e) => Err(e),
                Ok(w) => Ok(map_insert(o, k, w)),
            },
            _ => Ok(o),
        },
    }
}

/// The members `o` of a node with its subschemas walked, in this order: `properties`,
/// `$defs`, `items` (one schema or a list), `prefixItems`, `additionalProperties` (when
/// it is a schema), `anyOf`, `oneOf`, `allOf`; the first error ends the walk.
pub open spec fn dwalk_children<R: RefResolver>(res: &R, o: Seq<(Seq<char>, JsonVal)>, fuel: nat, n: nat) -> Result<Seq<(Seq<char>, JsonVal)>, ErrorView>
    decreases fuel, n, 2int, 0int,
{
    let r1 = dmembers_at(res, o, Ok(o), "properties"@, fuel, n);
    let r2 = dmembers_at(res, o, r1, "$defs"@, fuel, n);
    let r3 = ditems_at(res, o, r2, fuel, n);
    let r4 = dlist_at(res, o, r3, "prefixItems"@, fuel, n);
    let r5 = dschema_at(res, o, r4, "additionalProperties"@, fuel, n);
    let r6 = dlist_at(res, o, r5, "anyOf"@, fuel, n);
    let r7 = dlist_at(res, o, r6, "oneOf"@, fuel, n);
    dlist_at(res, o, r7, "allOf"@, fuel, n)
}

/// A document with its external references resolved, top down: a node that refers
/// outside the document (see [`deref_ref`]) is replaced by the resolved document with the
/// node's other members put over it ([`deref_merged`]); then the walk goes into the
/// subschemas of what the node became. `fuel` counts how many resolutions may still be
/// nested inside one another.
pub open spec fn dwalk<R: RefResolver>(res: &R, v: JsonVal, fuel: nat) -> Result<JsonVal, ErrorView>
    decreases fuel, jsize(v), 3int, 0int,
{
    match deref_ref(v) {
        None => match v {
            JsonVal::Obj(o) => match dwalk_children(res, o, fuel, jsize(v)) {
                Err(e) => Err(e),
                Ok(w) => Ok(JsonVal::Obj(w)),
            },
            _ => Ok(v),
        },
        Some(r) => if fuel == 0 {
            Err(deref_too_deep())
        } else {
            match res.spec_deref(r) {
                Err(e) => Err(e),
                Ok(x) => match deref_merged(v, x, r) {
                    Err(e) => Err(e),
                    Ok(m) => match m {
                        JsonVal::Obj(mo) => match dwalk_children(res, mo, (fuel - 1) as nat, jsize(m)) {
                            Err(e) => Err(e),
                            Ok(w) => Ok(JsonVal::Obj(w)),
                        },
                        _ => Ok(m),
                    },
                },
            }
        },
    }
}

// ---------------------------------------------------------------------------
// Laws
// ---------------------------------------------------------------------------

proof fn lemma_merge_keeps_sibling(acc: Seq<(Seq<char>, JsonVal)>, node: Seq<(Seq<char>, JsonVal)>, n: int, k: Seq<char>, p: int)
    requires
        0 <= p < n <= node.len(),
        node[p].0 == k,
        k != "$ref"@,
        forall|i: int| 0 <= i < node.len() && #[trigger] node[i].0 == k ==> i == p,
    ensures
        map_get(merge_siblings(acc, node, n), k) == Some(node[p].1),
    decreases n,
{
    if n - 1 == p {
        crate::value::law_map_get_after_insert(merge_siblings(acc, node, n - 1), k, node[p].1);
    } else {
        lemma_merge_keeps_sibling(acc, node, n - 1, k, p);
        if node[n - 1].0 != "$ref"@ {
            crate::value::law_map_insert_keeps_others(merge_siblings(acc, node, n - 1), node[n - 1].0, node[n - 1].1, k);
        }
    }
}

proof fn lemma_merge_keeps_resolved(acc: Seq<(Seq<char>, JsonVal)>, node: Seq<(Seq<char>, JsonVal)>, n: int, k: Seq<char>)
    requires
        0 <= n <= node.len(),
        k == "$ref"@ || forall|i: int| 0 <= i < node.len() ==> #[trigger] node[i].0 != k,
    ensures
        map_get(merge_siblings(acc, node, n), k) == map_get(acc, k),
    decreases n,
{
    if n > 0 {
        lemma_merge_keeps_resolved(acc, node, n - 1, k);
        if node[n - 1].0 != "$ref"@ {
            crate::value::law_map_insert_keeps_others(merge_siblings(acc, node, n - 1), node[n - 1].0, node[n - 1].1, k);
        }
    }
}

/// Siblings win: when a node's external reference resolves to an object, each member of
/// the node other than `$ref` (named once in the node) keeps its value in the node that
/// replaces it, and every other member of the resolved object keeps its value there.
pub proof fn law_deref_siblings_win(node: Seq<(Seq<char>, JsonVal)>, resolved: Seq<(Seq<char>, JsonVal)>, r: Seq<char>, k: Seq<char>)
    ensures
        deref_merged(JsonVal::Obj(node), JsonVal::Obj(resolved), r) matches Ok(JsonVal::Obj(m)) && {
            &&& (k != "$ref"@ && exists|p: int| 0 <= p < node.len() && #[trigger] node[p].0 == k
                    && forall|i: int| 0 <= i < node.len() && #[trigger] node[i].0 == k ==> i == p)
                ==> map_get(m, k) == map_get(node, k)
            &&& (k == "$ref"@ || forall|i: int| 0 <= i < node.len() ==> #[trigger] node[i].0 != k)
                ==> map_get(m, k) == map_get(resolved, k)
        },
{
    let n = node.len() as int;
    if k != "$ref"@ && exists|p: int| 0 <= p < node.len() && #[trigger] node[p].0 == k
        && forall|i: int| 0 <= i < node.len() && #[trigger] node[i].0 == k ==> i == p {
        let p = choose|p: int| 0 <= p < node.len() && #[trigger] node[p].0 == k
            && forall|i: int| 0 <= i < node.len() && #[trigger] node[i].0 == k ==> i == p;
        lemma_merge_keeps_sibling(resolved, node, n, k, p);
        crate::value::lemma_key_pos_first(node, k, p);
    }
    if k == "$ref"@ || forall|i: int| 0 <= i < node.len() ==> #[trigger] node[i].0 != k {
        lemma_merge_keeps_resolved(resolved, node, n, k);
    }
}

/// Each element of `b` is the walk of the element of `a` at its place.
pub open spec fn each_walked<R: RefResolver>(res: &R, a: Seq<JsonVal>, b: Seq<JsonVal>, fuel: nat) -> bool {
    &&& b.len() == a.len()
    &&& forall|i: int| 0 <= i < a.len() ==> dwalk(res, #[trigger] a[i], fuel) == Ok::<JsonVal, ErrorView>(b[i])
}

/// Each member of `q` has the key of the member of `p` at its place, and its value walked.
pub open spec fn members_walked<R: RefResolver>(res: &R, p: Seq<(Seq<char>, JsonVal)>, q: Seq<(Seq<char>, JsonVal)>, fuel: nat) -> bool {
    &&& q.len() == p.len()
    &&& forall|i: int| 0 <= i < p.len() ==> (#[trigger] q[i]).0 == p[i].0 && dwalk(res, p[i].1, fuel) == Ok::<JsonVal, ErrorView>(q[i].1)
}

/// Under `k`, an object of subschemas in `o` is an object of their walks in `w`; any
/// other value is kept.
pub open spec fn members_slot<R: RefResolver>(res: &R, o: Seq<(Seq<char>, JsonVal)>, w: Seq<(Seq<char>, JsonVal)>, k: Seq<char>, fuel: nat) -> bool {
    match map_get(o, k) {
        Some(JsonVal::Obj(p)) => map_get(w, k) matches Some(JsonVal::Obj(q)) && members_walked(res, p, q, fuel),
        other => map_get(w, k) == other,
    }
}

/// Under `k`, a list of subschemas in `o` is the list of their walks in `w`; any other
/// value is kept.
pub open spec fn list_slot<R: RefResolver>(res: &R, o: Seq<(Seq<char>, JsonVal)>, w: Seq<(Seq<char>, JsonVal)>, k: Seq<char>, fuel: nat) -> bool {
    match map_get(o, k) {
        Some(JsonVal::Arr(a)) => map_get(w, k) matches Some(JsonVal::Arr(b)) && each_walked(res, a, b, fuel),
        other => map_get(w, k) == other,
    }
}

/// Under `items`, a list is walked element by element and any other value as one schema.
pub open spec fn items_slot<R: RefResolver>(res: &R, o: Seq<(Seq<char>, JsonVal)>, w: Seq<(Seq<char>, JsonVal)>, fuel: nat) -> bool {
    match map_get(o, "items"@) {
        Some(JsonVal::Arr(a)) => map_get(w, "items"@) matches Some(JsonVal::Arr(b)) && each_walked(res, a, b, fuel),
        Some(c) => map_get(w, "items"@) matches Some(x) && dwalk(res, c, fuel) == Ok::<JsonVal, ErrorView>(x),
        None => map_get(w, "items"@) is None,
    }
}

/// Under `k`, an object is walked as one schema; any other value is kept.
pub open spec fn schema_slot<R: RefResolver>(res: &R, o: Seq<(Seq<char>, JsonVal)>, w: Seq<(Seq<char>, JsonVal)>, k: Seq<char>, fuel: nat) -> bool {
    match map_get(o, k) {
        Some(JsonVal::Obj(p)) => map_get(w, k) matches Some(x) && dwalk(res, JsonVal::Obj(p), fuel) == Ok::<JsonVal, ErrorView>(x),
        other => map_get(w, k) == other,
    }
}

/// The keys under which a schema node holds subschemas.
pub open spec fn subschema_key(k: Seq<char>) -> bool {
    ||| k == "properties"@ ||| k == "$defs"@ ||| k == "items"@ ||| k == "prefixItems"@
    ||| k == "additionalProperties"@ ||| k == "anyOf"@ ||| k == "oneOf"@ ||| k == "allOf"@
}

/// `w` is the node `o` with every subschema walked: those under `properties` and
/// `$defs`, `items`, `prefixItems`, `additionalProperties`, `anyOf`, `oneOf` and `allOf`;
/// every other member is kept.
pub open spec fn subschemas_walked<R: RefResolver>(res: &R, o: Seq<(Seq<char>, JsonVal)>, w: Seq<(Seq<char>, JsonVal)>, fuel: nat) -> bool {
    &&& members_slot(res, o, w, "properties"@, fuel)
    &&& members_slot(res, o, w, "$defs"@, fuel)
    &&& items_slot(res, o, w, fuel)
    &&& list_slot(res, o, w, "prefixItems"@, fuel)
    &&& schema_slot(res, o, w, "additionalProperties"@, fuel)
    &&& list_slot(res, o, w, "anyOf"@, fuel)
    &&& list_slot(res, o, w, "oneOf"@, fuel)
    &&& list_slot(res, o, w, "allOf"@, fuel)
    &&& forall|k: Seq<char>| !subschema_key(k) ==> #[trigger] map_get(w, k) == map_get(o, k)
}

proof fn lemma_keys_differ()
    ensures
        "properties"@ != "$defs"@, "properties"@ != "items"@, "properties"@ != "prefixItems"@,
        "properties"@ != "additionalProperties"@, "properties"@ != "anyOf"@, "properties"@ != "oneOf"@,
        "properties"@ != "allOf"@,
        "$defs"@ != "items"@, "$defs"@ != "prefixItems"@, "$defs"@ != "additionalProperties"@,
        "$defs"@ != "anyOf"@, "$defs"@ != "oneOf"@, "$defs"@ != "allOf"@,
        "items"@ != "prefixItems"@, "items"@ != "additionalProperties"@, "items"@ != "anyOf"@,
        "items"@ != "oneOf"@, "items"@ != "allOf"@,
        "prefixItems"@ != "additionalProperties"@, "prefixItems"@ != "anyOf"@, "prefixItems"@ != "oneOf"@,
        "prefixItems"@ != "allOf"@,
        "additionalProperties"@ != "anyOf"@, "additionalProperties"@ != "oneOf"@, "additionalProperties"@ != "allOf"@,
        "anyOf"@ != "oneOf"@, "anyOf"@ != "allOf"@,
        "oneOf"@ != "allOf"@,
{
    reveal_strlit("properties");
    reveal_strlit("$defs");
    reveal_strlit("items");
    reveal_strlit("prefixItems");
    reveal_strlit("additionalProperties");
    reveal_strlit("anyOf");
    reveal_strlit("oneOf");
    reveal_strlit("allOf");
    assert("properties"@.len() == 10);
    assert("$defs"@.len() == 5);
    assert("items"@.len() == 5);
    assert("prefixItems"@.len() == 11);
    assert("additionalProperties"@.len() == 20);
    assert("anyOf"@.len() == 5);
    assert("oneOf"@.len() == 5);
    assert("allOf"@.len() == 5);
    assert("$defs"@[0] != "items"@[0]);
    assert("$defs"@[0] != "anyOf"@[0]);
    assert("$defs"@[0] != "oneOf"@[0]);
    assert("$defs"@[0] != "allOf"@[0]);
    assert("items"@[0] != "anyOf"@[0]);
    assert("items"@[0] != "oneOf"@[0]);
    assert("items"@[0] != "allOf"@[0]);
    assert("anyOf"@[0] != "oneOf"@[0]);
    assert("anyOf"@[1] != "allOf"@[1]);
    assert("oneOf"@[0] != "allOf"@[0]);
}

proof fn lemma_dwalk_list_each<R: RefResolver>(res: &R, a: Seq<JsonVal>, fuel: nat, n: nat)
    requires
        forall|j: int| 0 <= j < a.len() ==> #[trigger] jsize(a[j]) < n,
        dwalk_list(res, a, fuel, n) is Ok,
    ensures
        each_walked(res, a, dwalk_list(res, a, fuel, n)->Ok_0, fuel),
    decreases a.len(),
{
    if a.len() > 0 {
        let b = dwalk_list(res, a, fuel, n)->Ok_0;
        lemma_dwalk_list_each(res, a.drop_last(), fuel, n);
        let p = dwalk_list(res, a.drop_last(), fuel, n)->Ok_0;
        assert forall|i: int| 0 <= i < a.len() implies dwalk(res, #[trigger] a[i], fuel) == Ok::<JsonVal, ErrorView>(b[i]) by {
            if i < a.len() - 1 {
                assert(a[i] == a.drop_last()[i]);
            }
        }
    }
}

proof fn lemma_dwalk_members_each<R: RefResolver>(res: &R, p: Seq<(Seq<char>, JsonVal)>, fuel: nat, n: nat)
    requires
        forall|j: int| 0 <= j < p.len() ==> #[trigger] jsize(p[j].1) < n,
        dwalk_members(res, p, fuel, n) is Ok,
    ensures
        members_walked(res, p, dwalk_members(res, p, fuel, n)->Ok_0, fuel),
    decreases p.len(),
{
    if p.len() > 0 {
        let q = dwalk_members(res, p, fuel, n)->Ok_0;
        lemma_dwalk_members_each(res, p.drop_last(), fuel, n);
        assert forall|i: int| 0 <= i < p.len() implies (#[trigger] q[i]).0 == p[i].0 && dwalk(res, p[i].1, fuel) == Ok::<JsonVal, ErrorView>(q[i].1) by {
            if i < p.len() - 1 {
                assert(p[i] == p.drop_last()[i]);
            }
        }
    }
}

/// The parts of an object member are smaller than the node holding the member.
proof fn lemma_member_small(src: Seq<(Seq<char>, JsonVal)>, k: Seq<char>, n: nat)
    requires
        forall|i: int| 0 <= i < src.len() ==> small_member(#[trigger] src[i].1, n),
    ensures
        map_get(src, k) matches Some(c) ==> small_member(c, n),
        map_get(src, k) matches Some(JsonVal::Arr(a)) ==> forall|j: int| 0 <= j < a.len() ==> #[trigger] jsize(a[j]) < n,
        map_get(src, k) matches Some(JsonVal::Obj(p)) ==> forall|j: int| 0 <= j < p.len() ==> #[trigger] jsize(p[j].1) < n,
{
    lemma_get_member(src, k);
    if let Some(c) = map_get(src, k) {
        let i = choose|i: int| 0 <= i < src.len() && #[trigger] src[i] == (k, c);
        assert(small_member(src[i].1, n));
        lemma_parts_smaller(c);
    }
}

/// The intermediate members of the walk of a node's members, one per step.
pub open spec fn child_steps<R: RefResolver>(res: &R, o: Seq<(Seq<char>, JsonVal)>, fuel: nat, n: nat) -> Seq<Result<Seq<(Seq<char>, JsonVal)>, ErrorView>> {
    let r1 = dmembers_at(res, o, Ok(o), "properties"@, fuel, n);
    let r2 = dmembers_at(res, o, r1, "$defs"@, fuel, n);
    let r3 = ditems_at(res, o, r2, fuel, n);
    let r4 = dlist_at(res, o, r3, "prefixItems"@, fuel, n);
    let r5 = dschema_at(res, o, r4, "additionalProperties"@, fuel, n);
    let r6 = dlist_at(res, o, r5, "anyOf"@, fuel, n);
    let r7 = dlist_at(res, o, r6, "oneOf"@, fuel, n);
    let r8 = dlist_at(res, o, r7, "allOf"@, fuel, n);
    seq![Ok(o), r1, r2, r3, r4, r5, r6, r7, r8]
}

/// When the walk of a node's members succeeds, every step succeeds, and each step
/// changes only its own key.
#[verifier::spinoff_prover]
proof fn lemma_child_steps<R: RefResolver>(res: &R, o: Seq<(Seq<char>, JsonVal)>, fuel: nat, n: nat)
    requires
        forall|i: int| 0 <= i < o.len() ==> small_member(#[trigger] o[i].1, n),
        dwalk_children(res, o, fuel, n) is Ok,
    ensures
        forall|i: int| 0 <= i < 9 ==> (#[trigger] child_steps(res, o, fuel, n)[i]) is Ok,
        child_steps(res, o, fuel, n)[8] == dwalk_children(res, o, fuel, n),
{
    let rs = child_steps(res, o, fuel, n);
    assert(rs[8] is Ok);
    assert(rs[7] is Ok);
    assert(rs[6] is Ok);
    assert(rs[5] is Ok);
    assert(rs[4] is Ok);
    assert(rs[3] is Ok);
    assert(rs[2] is Ok);
    assert(rs[1] is Ok);
}

/// The key the `j`-th step of the walk of a node's members writes (from 1).
pub open spec fn step_key(j: int) -> Seq<char> {
    if j == 1 { "properties"@ } else if j == 2 { "$defs"@ } else if j == 3 { "items"@ } else if j == 4 { "prefixItems"@ }
    else if j == 5 { "additionalProperties"@ } else if j == 6 { "anyOf"@ } else if j == 7 { "oneOf"@ } else { "allOf"@ }
}

/// What the `j`-th step promises of `w` under its key.
pub open spec fn slot_ok<R: RefResolver>(res: &R, o: Seq<(Seq<char>, JsonVal)>, w: Seq<(Seq<char>, JsonVal)>, j: int, fuel: nat) -> bool {
    if j == 1 || j == 2 {
        members_slot(res, o, w, step_key(j), fuel)
    } else if j == 3 {
        items_slot(res, o, w, fuel)
    } else if j == 5 {
        schema_slot(res, o, w, step_key(j), fuel)
    } else {
        list_slot(res, o, w, step_key(j), fuel)
    }
}

/// After the first `j` steps: each of their keys holds what its step promises, and every
/// other key holds what it held in `o`.
pub open spec fn done_upto<R: RefResolver>(res: &R, o: Seq<(Seq<char>, JsonVal)>, w: Seq<(Seq<char>, JsonVal)>, j: int, fuel: nat) -> bool {
    &&& forall|i: int| 1 <= i <= j ==> #[trigger] slot_ok(res, o, w, i, fuel)
    &&& forall|k: Seq<char>| (forall|i: int| 1 <= i <= j ==> k != #[trigger] step_key(i)) ==> #[trigger] map_get(w, k) == map_get(o, k)
}

pub(crate) proof fn lemma_step_keys_differ(i: int, j: int)
    requires
        1 <= i <= 8,
        1 <= j <= 8,
        i != j,
    ensures
        step_key(i) != step_key(j),
{
    lemma_keys_differ();
}

/// A slot depends on the member under its key only.
proof fn lemma_slot_same<R: RefResolver>(res: &R, o: Seq<(Seq<char>, JsonVal)>, w: Seq<(Seq<char>, JsonVal)>, w2: Seq<(Seq<char>, JsonVal)>, i: int, fuel: nat)
    requires
        map_get(w, step_key(i)) == map_get(w2, step_key(i)),
        slot_ok(res, o, w, i, fuel),
    ensures
        slot_ok(res, o, w2, i, fuel),
{
}

/// One more step keeps what the earlier ones did.
proof fn lemma_done_next<R: RefResolver>(res: &R, o: Seq<(Seq<char>, JsonVal)>, w: Seq<(Seq<char>, JsonVal)>, w2: Seq<(Seq<char>, JsonVal)>, j: int, fuel: nat)
    requires
        1 <= j <= 8,
        done_upto(res, o, w, j - 1, fuel),
        forall|k2: Seq<char>| k2 != step_key(j) ==> #[trigger] map_get(w2, k2) == map_get(w, k2),
        slot_ok(res, o, w2, j, fuel),
    ensures
        done_upto(res, o, w2, j, fuel),
{
    assert forall|i: int| 1 <= i <= j implies #[trigger] slot_ok(res, o, w2, i, fuel) by {
        if i < j {
            lemma_step_keys_differ(i, j);
            lemma_slot_same(res, o, w, w2, i, fuel);
        }
    }
    assert forall|k: Seq<char>| (forall|i: int| 1 <= i <= j ==> k != #[trigger] step_key(i)) implies #[trigger] map_get(w2, k) == map_get(o, k) by {
        assert(k != step_key(j));
        assert(forall|i: int| 1 <= i <= j - 1 ==> k != #[trigger] step_key(i));
    }
}

proof fn lemma_done_start<R: RefResolver>(res: &R, o: Seq<(Seq<char>, JsonVal)>, fuel: nat)
    ensures
        done_upto(res, o, o, 0, fuel),
{
}

proof fn lemma_done_all<R: RefResolver>(res: &R, o: Seq<(Seq<char>, JsonVal)>, w: Seq<(Seq<char>, JsonVal)>, fuel: nat)
    requires
        done_upto(res, o, w, 8, fuel),
    ensures
        subschemas_walked(res, o, w, fuel),
{
    assert(slot_ok(res, o, w, 1, fuel));
    assert(slot_ok(res, o, w, 2, fuel));
    assert(slot_ok(res, o, w, 3, fuel));
    assert(slot_ok(res, o, w, 4, fuel));
    assert(slot_ok(res, o, w, 5, fuel));
    assert(slot_ok(res, o, w, 6, fuel));
    assert(slot_ok(res, o, w, 7, fuel));
    assert(slot_ok(res, o, w, 8, fuel));
    assert forall|k: Seq<char>| !subschema_key(k) implies #[trigger] map_get(w, k) == map_get(o, k) by {
        assert forall|i: int| 1 <= i <= 8 implies k != #[trigger] step_key(i) by {}
    }
}

proof fn lemma_done_members<R: RefResolver>(res: &R, o: Seq<(Seq<char>, JsonVal)>, w: Seq<(Seq<char>, JsonVal)>, j: int, fuel: nat, n: nat)
    requires
        j == 1 || j == 2,
        forall|i: int| 0 <= i < o.len() ==> small_member(#[trigger] o[i].1, n),
        done_upto(res, o, w, j - 1, fuel),
        dmembers_at(res, o, Ok(w), step_key(j), fuel, n) is Ok,
    ensures
        done_upto(res, o, dmembers_at(res, o, Ok(w), step_key(j), fuel, n)->Ok_0, j, fuel),
{
    let k = step_key(j);
    lemma_member_small(o, k, n);
    lemma_step_members(res, o, w, k, fuel, n);
    let w2 = dmembers_at(res, o, Ok(w), k, fuel, n)->Ok_0;
    assert(forall|i: int| 1 <= i <= j - 1 ==> k != #[trigger] step_key(i)) by {
        assert forall|i: int| 1 <= i <= j - 1 implies k != #[trigger] step_key(i) by { lemma_step_keys_differ(i, j); }
    }
    assert(map_get(w, k) == map_get(o, k));
    lemma_done_next(res, o, w, w2, j, fuel);
}

proof fn lemma_done_list<R: RefResolver>(res: &R, o: Seq<(Seq<char>, JsonVal)>, w: Seq<(Seq<char>, JsonVal)>, j: int, fuel: nat, n: nat)
    requires
        j == 4 || j == 6 || j == 7 || j == 8,
        forall|i: int| 0 <= i < o.len() ==> small_member(#[trigger] o[i].1, n),
        done_upto(res, o, w, j - 1, fuel),
        dlist_at(res, o, Ok(w), step_key(j), fuel, n) is Ok,
    ensures
        done_upto(res, o, dlist_at(res, o, Ok(w), step_key(j), fuel, n)->Ok_0, j, fuel),
{
    let k = step_key(j);
    lemma_member_small(o, k, n);
    lemma_step_list(res, o, w, k, fuel, n);
    let w2 = dlist_at(res, o, Ok(w), k, fuel, n)->Ok_0;
    assert(forall|i: int| 1 <= i <= j - 1 ==> k != #[trigger] step_key(i)) by {
        assert forall|i: int| 1 <= i <= j - 1 implies k != #[trigger] step_key(i) by { lemma_step_keys_differ(i, j); }
    }
    assert(map_get(w, k) == map_get(o, k));
    lemma_done_next(res, o, w, w2, j, fuel);
}

proof fn lemma_done_items<R: RefResolver>(res: &R, o: Seq<(Seq<char>, JsonVal)>, w: Seq<(Seq<char>, JsonVal)>, fuel: nat, n: nat)
    requires
        forall|i: int| 0 <= i < o.len() ==> small_member(#[trigger] o[i].1, n),
        done_upto(res, o, w, 2, fuel),
        ditems_at(res, o, Ok(w), fuel, n) is Ok,
    ensures
        done_upto(res, o, ditems_at(res, o, Ok(w), fuel, n)->Ok_0, 3, fuel),
{
    let k = step_key(3);
    lemma_step_items(res, o, w, fuel, n);
    let w2 = ditems_at(res, o, Ok(w), fuel, n)->Ok_0;
    assert(forall|i: int| 1 <= i <= 2 ==> k != #[trigger] step_key(i)) by {
        assert forall|i: int| 1 <= i <= 2 implies k != #[trigger] step_key(i) by { lemma_step_keys_differ(i, 3); }
    }
    assert(map_get(w, k) == map_get(o, k));
    lemma_done_next(res, o, w, w2, 3, fuel);
}

proof fn lemma_done_schema<R: RefResolver>(res: &R, o: Seq<(Seq<char>, JsonVal)>, w: Seq<(Seq<char>, JsonVal)>, fuel: nat, n: nat)
    requires
        forall|i: int| 0 <= i < o.len() ==> small_member(#[trigger] o[i].1, n),
        done_upto(res, o, w, 4, fuel),
        dschema_at(res, o, Ok(w), step_key(5), fuel, n) is Ok,
    ensures
        done_upto(res, o, dschema_at(res, o, Ok(w), step_key(5), fuel, n)->Ok_0, 5, fuel),
{
    let k = step_key(5);
    lemma_step_schema(res, o, w, k, fuel, n);
    let w2 = dschema_at(res, o, Ok(w), k, fuel, n)->Ok_0;
    assert(forall|i: int| 1 <= i <= 4 ==> k != #[trigger] step_key(i)) by {
        assert forall|i: int| 1 <= i <= 4 implies k != #[trigger] step_key(i) by { lemma_step_keys_differ(i, 5); }
    }
    assert(map_get(w, k) == map_get(o, k));
    lemma_done_next(res, o, w, w2, 5, fuel);
}

/// The walk of a node's members puts each subschema's walk in its place and keeps the
/// rest (see [`subschemas_walked`]).
proof fn lemma_children_walked<R: RefResolver>(res: &R, o: Seq<(Seq<char>, JsonVal)>, fuel: nat, n: nat)
    requires
        forall|i: int| 0 <= i < o.len() ==> small_member(#[trigger] o[i].1, n),
        dwalk_children(res, o, fuel, n) is Ok,
    ensures
        subschemas_walked(res, o, dwalk_children(res, o, fuel, n)->Ok_0, fuel),
{
    lemma_child_steps(res, o, fuel, n);
    let rs = child_steps(res, o, fuel, n);
    assert(rs[1] is Ok && rs[2] is Ok && rs[3] is Ok && rs[4] is Ok && rs[5] is Ok && rs[6] is Ok && rs[7] is Ok && rs[8] is Ok);
    let o1 = rs[1]->Ok_0;
    let o2 = rs[2]->Ok_0;
    let o3 = rs[3]->Ok_0;
    let o4 = rs[4]->Ok_0;
    let o5 = rs[5]->Ok_0;
    let o6 = rs[6]->Ok_0;
    let o7 = rs[7]->Ok_0;
    lemma_done_start(res, o, fuel);
    lemma_done_members(res, o, o, 1, fuel, n);
    lemma_done_members(res, o, o1, 2, fuel, n);
    lemma_done_items(res, o, o2, fuel, n);
    lemma_done_list(res, o, o3, 4, fuel, n);
    lemma_done_schema(res, o, o4, fuel, n);
    lemma_done_list(res, o, o5, 6, fuel, n);
    lemma_done_list(res, o, o6, 7, fuel, n);
    lemma_done_list(res, o, o7, 8, fuel, n);
    lemma_done_all(res, o, rs[8]->Ok_0, fuel);
}

proof fn lemma_step_members<R: RefResolver>(res: &R, src: Seq<(Seq<char>, JsonVal)>, o: Seq<(Seq<char>, JsonVal)>, k: Seq<char>, fuel: nat, n: nat)
    requires
        map_get(src, k) matches Some(JsonVal::Obj(p)) ==> forall|j: int| 0 <= j < p.len() ==> #[trigger] jsize(p[j].1) < n,
        dmembers_at(res, src, Ok(o), k, fuel, n) is Ok,
    ensures
        ({
            let o2 = dmembers_at(res, src, Ok(o), k, fuel, n)->Ok_0;
            &&& forall|k2: Seq<char>| k2 != k ==> #[trigger] map_get(o2, k2) == map_get(o, k2)
            &&& match map_get(src, k) {
                Some(JsonVal::Obj(p)) => map_get(o2, k) matches Some(JsonVal::Obj(q)) && members_walked(res, p, q, fuel),
                _ => map_get(o2, k) == map_get(o, k),
            }
        }),
{
    if let Some(JsonVal::Obj(p)) = map_get(src, k) {
        lemma_dwalk_members_each(res, p, fuel, n);
        let q = dwalk_members(res, p, fuel, n)->Ok_0;
        crate::value::law_map_get_after_insert(o, k, JsonVal::Obj(q));
        assert forall|k2: Seq<char>| k2 != k implies #[trigger] map_get(map_insert(o, k, JsonVal::Obj(q)), k2) == map_get(o, k2) by {
            crate::value::law_map_insert_keeps_others(o, k, JsonVal::Obj(q), k2);
        }
    }
}

proof fn lemma_step_list<R: RefResolver>(res: &R, src: Seq<(Seq<char>, JsonVal)>, o: Seq<(Seq<char>, JsonVal)>, k: Seq<char>, fuel: nat, n: nat)
    requires
        map_get(src, k) matches Some(JsonVal::Arr(a)) ==> forall|j: int| 0 <= j < a.len() ==> #[trigger] jsize(a[j]) < n,
        dlist_at(res, src, Ok(o), k, fuel, n) is Ok,
    ensures
        ({
            let o2 = dlist_at(res, src, Ok(o), k, fuel, n)->Ok_0;
            &&& forall|k2: Seq<char>| k2 != k ==> #[trigger] map_get(o2, k2) == map_get(o, k2)
            &&& match map_get(src, k) {
                Some(JsonVal::Arr(a)) => map_get(o2, k) matches Some(JsonVal::Arr(b)) && each_walked(res, a, b, fuel),
                _ => map_get(o2, k) == map_get(o, k),
            }
        }),
{
    if let Some(JsonVal::Arr(a)) = map_get(src, k) {
        lemma_dwalk_list_each(res, a, fuel, n);
        let b = dwalk_list(res, a, fuel, n)->Ok_0;
        crate::value::law_map_get_after_insert(o, k, JsonVal::Arr(b));
        assert forall|k2: Seq<char>| k2 != k implies #[trigger] map_get(map_insert(o, k, JsonVal::Arr(b)), k2) == map_get(o, k2) by {
            crate::value::law_map_insert_keeps_others(o, k, JsonVal::Arr(b), k2);
        }
    }
}

proof fn lemma_step_items<R: RefResolver>(res: &R, src: Seq<(Seq<char>, JsonVal)>, o: Seq<(Seq<char>, JsonVal)>, fuel: nat, n: nat)
    requires
        forall|i: int| 0 <= i < src.len() ==> small_member(#[trigger] src[i].1, n),
        ditems_at(res, src, Ok(o), fuel, n) is Ok,
    ensures
        ({
            let o2 = ditems_at(res, src, Ok(o), fuel, n)->Ok_0;
            &&& forall|k2: Seq<char>| k2 != "items"@ ==> #[trigger] map_get(o2, k2) == map_get(o, k2)
            &&& match map_get(src, "items"@) {
                Some(JsonVal::Arr(a)) => map_get(o2, "items"@) matches Some(JsonVal::Arr(b)) && each_walked(res, a, b, fuel),
                Some(c) => map_get(o2, "items"@) matches Some(x) && dwalk(res, c, fuel) == Ok::<JsonVal, ErrorView>(x),
                None => map_get(o2, "items"@) == map_get(o, "items"@),
            }
        }),
{
    let k = "items"@;
    lemma_member_small(src, k, n);
    match map_get(src, k) {
        Some(JsonVal::Arr(a)) => {
            lemma_dwalk_list_each(res, a, fuel, n);
            let b = dwalk_list(res, a, fuel, n)->Ok_0;
            crate::value::law_map_get_after_insert(o, k, JsonVal::Arr(b));
            assert forall|k2: Seq<char>| k2 != k implies #[trigger] map_get(map_insert(o, k, JsonVal::Arr(b)), k2) == map_get(o, k2) by {
                crate::value::law_map_insert_keeps_others(o, k, JsonVal::Arr(b), k2);
            }
        },
        Some(c) => {
            let x = dwalk(res, c, fuel)->Ok_0;
            crate::value::law_map_get_after_insert(o, k, x);
            assert forall|k2: Seq<char>| k2 != k implies #[trigger] map_get(map_insert(o, k, x), k2) == map_get(o, k2) by {
                crate::value::law_map_insert_keeps_others(o, k, x, k2);
            }
        },
        None => {},
    }
}

proof fn lemma_step_schema<R: RefResolver>(res: &R, src: Seq<(Seq<char>, JsonVal)>, o: Seq<(Seq<char>, JsonVal)>, k: Seq<char>, fuel: nat, n: nat)
    requires
        forall|i: int| 0 <= i < src.len() ==> small_member(#[trigger] src[i].1, n),
        dschema_at(res, src, Ok(o), k, fuel, n) is Ok,
    ensures
        ({
            let o2 = dschema_at(res, src, Ok(o), k, fuel, n)->Ok_0;
            &&& forall|k2: Seq<char>| k2 != k ==> #[trigger] map_get(o2, k2) == map_get(o, k2)
            &&& match map_get(src, k) {
                Some(JsonVal::Obj(p)) => map_get(o2, k) matches Some(x) && dwalk(res, JsonVal::Obj(p), fuel) == Ok::<JsonVal, ErrorView>(x),
                _ => map_get(o2, k) == map_get(o, k),
            }
        }),
{
    lemma_member_small(src, k, n);
    if let Some(JsonVal::Obj(p)) = map_get(src, k) {
        let x = dwalk(res, JsonVal::Obj(p), fuel)->Ok_0;
        crate::value::law_map_get_after_insert(o, k, x);
        assert forall|k2: Seq<char>| k2 != k implies #[trigger] map_get(map_insert(o, k, x), k2) == map_get(o, k2) by {
            crate::value::law_map_insert_keeps_others(o, k, x, k2);
        }
    }
}

/// The deref walk reaches every subschema. A node without an external reference keeps
/// its members, with each subschema (under `properties`, `$defs`, `items`, `prefixItems`,
/// `additionalProperties`, `anyOf`, `oneOf`, `allOf`) replaced by its own walk. A node
/// with an external reference `r` becomes the resolved object with the node's other
/// members merged in, and then the same holds of that merged node, one resolution
/// deeper. A value that is not an object is kept.
pub proof fn law_deref_reaches_every_subschema<R: RefResolver>(res: &R, v: JsonVal, fuel: nat)
    requires
        dwalk(res, v, fuel) is Ok,
    ensures
        !(v is Obj) ==> dwalk(res, v, fuel) == Ok::<JsonVal, ErrorView>(v),
        deref_ref(v) is None ==> (v matches JsonVal::Obj(o) ==> (dwalk(res, v, fuel) matches Ok(JsonVal::Obj(w))
            && subschemas_walked(res, o, w, fuel))),
        deref_ref(v) matches Some(r) ==> fuel > 0 && (res.spec_deref(r) matches Ok(x)
            && deref_merged(v, x, r) matches Ok(JsonVal::Obj(m))
            && dwalk(res, v, fuel) matches Ok(JsonVal::Obj(w))
            && subschemas_walked(res, m, w, (fuel - 1) as nat)),
{
    match deref_ref(v) {
        None => {
            if let JsonVal::Obj(o) = v {
                lemma_parts_smaller(v);
                lemma_children_walked(res, o, fuel, jsize(v));
            }
        },
        Some(r) => {
            let x = res.spec_deref(r)->Ok_0;
            let m = deref_merged(v, x, r)->Ok_0;
            if let JsonVal::Obj(mo) = m {
                lemma_parts_smaller(m);
                lemma_children_walked(res, mo, (fuel - 1) as nat, jsize(m));
            }
        },
    }
}

// ---------------------------------------------------------------------------
// The walk, executed
// ---------------------------------------------------------------------------

fn dwalk_list_exec<R: RefResolver>(res: &R, a: &Vec<JsonValue>, fuel: usize, Ghost(n): Ghost<nat>) -> (out: Result<Vec<JsonValue>, ZerxError>)
    requires
        forall|j: int| 0 <= j < a@.len() ==> #[trigger] jsize(json_view(a@[j])) < n,
    ensures
        list_result_is(out, dwalk_list(res, jsons_view(a@), fuel as nat, n)),
    decreases fuel, n, 0int, 0int,
{
    let ghost av = jsons_view(a@);
    let mut out: Vec<JsonValue> = Vec::new();
    let mut i: usize = 0;
    assert(av.take(0) =~= Seq::<JsonVal>::empty());
    assert(jsons_view(out@) =~= Seq::<JsonVal>::empty());
    while i < a.len()
        invariant
            i <= a@.len(),
            av == jsons_view(a@),
            forall|j: int| 0 <= j < a@.len() ==> #[trigger] jsize(json_view(a@[j])) < n,
            dwalk_list(res, av.take(i as int), fuel as nat, n) == Ok::<Seq<JsonVal>, ErrorView>(jsons_view(out@)),
        decreases a.len() - i,
    {
        assert(av.take(i + 1).drop_last() =~= av.take(i as int));
        assert(av.take(i + 1).last() == av[i as int]);
        assert(jsize(json_view(a@[i as int])) < n);
        let ghost before = out@;
        let x = match dwalk_exec(res, &a[i], fuel) {
            Ok(x) => x,
            Err(e) => {
                assert(av.take(a@.len() as int) =~= av);
                proof {
                    lemma_list_err_stays(res, av, fuel as nat, n, i as int + 1, error_view(e));
                }
                return Err(e);
            },
        };
        out.push(x);
        assert(jsons_view(out@) =~= jsons_view(before).push(x@));
        i += 1;
    }
    assert(av.take(a@.len() as int) =~= av);
    Ok(out)
}

/// Once a prefix of the list fails, the whole list fails with the same error.
proof fn lemma_list_err_stays<R: RefResolver>(res: &R, a: Seq<JsonVal>, fuel: nat, n: nat, i: int, e: ErrorView)
    requires
        0 <= i <= a.len(),
        forall|j: int| 0 <= j < a.len() ==> #[trigger] jsize(a[j]) < n,
        dwalk_list(res, a.take(i), fuel, n) == Err::<Seq<JsonVal>, ErrorView>(e),
    ensures
        dwalk_list(res, a, fuel, n) == Err::<Seq<JsonVal>, ErrorView>(e),
    decreases a.len() - i,
{
    if i < a.len() {
        assert(a.take(i + 1).drop_last() =~= a.take(i));
        lemma_list_err_stays(res, a, fuel, n, i + 1, e);
    } else {
        assert(a.take(i) =~= a);
    }
}

/// Once a prefix of the members fails, the whole walk of them fails with the same error.
proof fn lemma_members_err_stays<R: RefResolver>(res: &R, p: Seq<(Seq<char>, JsonVal)>, fuel: nat, n: nat, i: int, e: ErrorView)
    requires
        0 <= i <= p.len(),
        forall|j: int| 0 <= j < p.len() ==> #[trigger] jsize(p[j].1) < n,
        dwalk_members(res, p.take(i), fuel, n) == Err::<Seq<(Seq<char>, JsonVal)>, ErrorView>(e),
    ensures
        dwalk_members(res, p, fuel, n) == Err::<Seq<(Seq<char>, JsonVal)>, ErrorView>(e),
    decreases p.len() - i,
{
    if i < p.len() {
        assert(p.take(i + 1).drop_last() =~= p.take(i));
        lemma_members_err_stays(res, p, fuel, n, i + 1, e);
    } else {
        assert(p.take(i) =~= p);
    }
}

fn dwalk_members_exec<R: RefResolver>(res: &R, p: &Vec<(String, JsonValue)>, fuel: usize, Ghost(n): Ghost<nat>) -> (out: Result<Vec<(String, JsonValue)>, ZerxError>)
    requires
        forall|j: int| 0 <= j < p@.len() ==> #[trigger] jsize(json_view(p@[j].1)) < n,
    ensures
        members_result_is(out, dwalk_members(res, members_view(p@), fuel as nat, n)),
    decreases fuel, n, 0int, 0int,
{
    let ghost pv = members_view(p@);
    let mut out: Vec<(String, JsonValue)> = Vec::new();
    let mut i: usize = 0;
    assert(pv.take(0) =~= Seq::<(Seq<char>, JsonVal)>::empty());
    assert(members_view(out@) =~= Seq::<(Seq<char>, JsonVal)>::empty());
    while i < p.len()
        invariant
            i <= p@.len(),
            pv == members_view(p@),
            forall|j: int| 0 <= j < p@.len() ==> #[trigger] jsize(json_view(p@[j].1)) < n,
            dwalk_members(res, pv.take(i as int), fuel as nat, n) == Ok::<Seq<(Seq<char>, JsonVal)>, ErrorView>(members_view(out@)),
        decreases p.len() - i,
    {
        assert(pv.take(i + 1).drop_last() =~= pv.take(i as int));
        assert(pv.take(i + 1).last() == pv[i as int]);
        assert(jsize(json_view(p@[i as int].1)) < n);
        let ghost before = out@;
        let x = match dwalk_exec(res, &p[i].1, fuel) {
            Ok(x) => x,
            Err(e) => {
                assert forall|j: int| 0 <= j < pv.len() implies #[trigger] jsize(pv[j].1) < n by {
                    assert(pv[j].1 == json_view(p@[j].1));
                }
                proof {
                    lemma_members_err_stays(res, pv, fuel as nat, n, i as int + 1, error_view(e));
                }
                return Err(e);
            },
        };
        out.push((p[i].0.clone(), x));
        assert(members_view(out@) =~= members_view(before).push((pv[i as int].0, x@)));
        i += 1;
    }
    assert(pv.take(p@.len() as int) =~= pv);
    Ok(out)
}

/// `o` with the list under `k` of `src` walked and put in, when there is one.
fn dlist_at_exec<R: RefResolver>(res: &R, src: &Vec<(String, JsonValue)>, o: Vec<(String, JsonValue)>, k: &str, fuel: usize, Ghost(n): Ghost<nat>) -> (r: Result<Vec<(String, JsonValue)>, ZerxError>)
    requires
        forall|i: int| 0 <= i < src@.len() ==> small_member(#[trigger] json_view(src@[i].1), n),
    ensures
        members_result_is(r, dlist_at(res, members_view(src@), Ok(members_view(o@)), k@, fuel as nat, n)),
    decreases fuel, n, 1int, 0int,
{
    let ghost sv = members_view(src@);
    let mut o = o;
    proof {
        lemma_get_member(sv, k@);
    }
    match member(src, k) {
        Some(JsonValue::Array(a)) => {
            proof {
                lemma_json_array_view(*a);
                let i = choose|i: int| 0 <= i < sv.len() && #[trigger] sv[i] == (k@, JsonVal::Arr(jsons_view(a@)));
                assert(small_member(json_view(src@[i].1), n));
                assert forall|j: int| 0 <= j < a@.len() implies #[trigger] jsize(json_view(a@[j])) < n by {
                    lemma_parts_smaller(JsonVal::Arr(jsons_view(a@)));
                    assert(jsons_view(a@)[j] == json_view(a@[j]));
                }
            }
            match dwalk_list_exec(res, a, fuel, Ghost(n)) {
                Ok(w) => {
                    proof {
                        lemma_json_array_view(w);
                    }
                    json_insert(&mut o, owned(k), JsonValue::Array(w));
                    Ok(o)
                },
                Err(e) => Err(e),
            }
        },
        _ => Ok(o),
    }
}

/// `o` with the object under `k` of `src`, its member values walked, put in.
fn dmembers_at_exec<R: RefResolver>(res: &R, src: &Vec<(String, JsonValue)>, o: Vec<(String, JsonValue)>, k: &str, fuel: usize, Ghost(n): Ghost<nat>) -> (r: Result<Vec<(String, JsonValue)>, ZerxError>)
    requires
        forall|i: int| 0 <= i < src@.len() ==> small_member(#[trigger] json_view(src@[i].1), n),
    ensures
        members_result_is(r, dmembers_at(res, members_view(src@), Ok(members_view(o@)), k@, fuel as nat, n)),
    decreases fuel, n, 1int, 0int,
{
    let ghost sv = members_view(src@);
    let mut o = o;
    proof {
        lemma_get_member(sv, k@);
    }
    match member(src, k) {
        Some(JsonValue::Object(p)) => {
            proof {
                lemma_json_object_view(*p);
                let i = choose|i: int| 0 <= i < sv.len() && #[trigger] sv[i] == (k@, JsonVal::Obj(members_view(p@)));
                assert(small_member(json_view(src@[i].1), n));
                assert forall|j: int| 0 <= j < p@.len() implies #[trigger] jsize(json_view(p@[j].1)) < n by {
                    lemma_parts_smaller(JsonVal::Obj(members_view(p@)));
                    assert(members_view(p@)[j].1 == json_view(p@[j].1));
                }
            }
            match dwalk_members_exec(res, p, fuel, Ghost(n)) {
                Ok(w) => {
                    proof {
                        lemma_json_object_view(w);
                    }
                    json_insert(&mut o, owned(k), JsonValue::Object(w));
                    Ok(o)
                },
                Err(e) => Err(e),
            }
        },
        _ => Ok(o),
    }
}

/// `o` with the member `items` of `src` walked and put in.
fn ditems_at_exec<R: RefResolver>(res: &R, src: &Vec<(String, JsonValue)>, o: Vec<(String, JsonValue)>, fuel: usize, Ghost(n): Ghost<nat>) -> (r: Result<Vec<(String, JsonValue)>, ZerxError>)
    requires
        forall|i: int| 0 <= i < src@.len() ==> small_member(#[trigger] json_view(src@[i].1), n),
    ensures
        members_result_is(r, ditems_at(res, members_view(src@), Ok(members_view(o@)), fuel as nat, n)),
    decreases fuel, n, 1int, 0int,
{
    let ghost sv = members_view(src@);
    let mut o = o;
    proof {
        lemma_get_member(sv, "items"@);
        assert forall|i: int| 0 <= i < sv.len() implies small_member(#[trigger] sv[i].1, n) by {
            assert(sv[i].1 == json_view(src@[i].1));
        }
    }
    match member(src, "items") {
        Some(JsonValue::Array(a)) => {
            proof {
                lemma_json_array_view(*a);
                let i = choose|i: int| 0 <= i < sv.len() && #[trigger] sv[i] == ("items"@, JsonVal::Arr(jsons_view(a@)));
                assert(small_member(sv[i].1, n));
                assert forall|j: int| 0 <= j < a@.len() implies #[trigger] jsize(json_view(a@[j])) < n by {
                    lemma_parts_smaller(JsonVal::Arr(jsons_view(a@)));
                    assert(jsons_view(a@)[j] == json_view(a@[j]));
                }
            }
            match dwalk_list_exec(res, a, fuel, Ghost(n)) {
                Ok(w) => {
                    proof {
                        lemma_json_array_view(w);
                    }
                    json_insert(&mut o, owned("items"), JsonValue::Array(w));
                    Ok(o)
                },
                Err(e) => Err(e),
            }
        },
        Some(c) => {
            proof {
                let i = choose|i: int| 0 <= i < sv.len() && #[trigger] sv[i] == ("items"@, json_view(*c));
                assert(small_member(sv[i].1, n));
            }
            match dwalk_exec(res, c, fuel) {
                Ok(w) => {
                    json_insert(&mut o, owned("items"), w);
                    Ok(o)
                },
                Err(e) => Err(e),
            }
        },
        None => Ok(o),
    }
}

/// `o` with the member under `k` of `src`, when it is an object, walked and put in.
fn dschema_at_exec<R: RefResolver>(res: &R, src: &Vec<(String, JsonValue)>, o: Vec<(String, JsonValue)>, k: &str, fuel: usize, Ghost(n): Ghost<nat>) -> (r: Result<Vec<(String, JsonValue)>, ZerxError>)
    requires
        forall|i: int| 0 <= i < src@.len() ==> small_member(#[trigger] json_view(src@[i].1), n),
    ensures
        members_result_is(r, dschema_at(res, members_view(src@), Ok(members_view(o@)), k@, fuel as nat, n)),
    decreases fuel, n, 1int, 0int,
{
    let ghost sv = members_view(src@);
    let mut o = o;
    proof {
        lemma_get_member(sv, k@);
        assert forall|i: int| 0 <= i < sv.len() implies small_member(#[trigger] sv[i].1, n) by {
            assert(sv[i].1 == json_view(src@[i].1));
        }
    }
    if let Some(c) = member(src, k) {
        if let JsonValue::Object(_) = c {
            proof {
                let i = choose|i: int| 0 <= i < sv.len() && #[trigger] sv[i] == (k@, json_view(*c));
                assert(small_member(sv[i].1, n));
            }
            return match dwalk_exec(res, c, fuel) {
                Ok(w) => {
                    json_insert(&mut o, owned(k), w);
                    Ok(o)
                },
                Err(e) => Err(e),
            };
        }
    }
    Ok(o)
}

/// The members `src` with their subschemas walked (see [`dwalk_children`]).
fn dwalk_children_exec<R: RefResolver>(res: &R, src: &Vec<(String, JsonValue)>, fuel: usize, Ghost(n): Ghost<nat>) -> (r: Result<Vec<(String, JsonValue)>, ZerxError>)
    requires
        forall|i: int| 0 <= i < src@.len() ==> small_member(#[trigger] json_view(src@[i].1), n),
    ensures
        members_result_is(r, dwalk_children(res, members_view(src@), fuel as nat, n)),
    decreases fuel, n, 2int, 0int,
{
    let ghost sv = members_view(src@);
    let ghost f = fuel as nat;
    let out = clone_members(src);
    let o1 = match dmembers_at_exec(res, src, out, "properties", fuel, Ghost(n)) { Ok(o) => o, Err(e) => return Err(e) };
    let o2 = match dmembers_at_exec(res, src, o1, "$defs", fuel, Ghost(n)) { Ok(o) => o, Err(e) => return Err(e) };
    let o3 = match ditems_at_exec(res, src, o2, fuel, Ghost(n)) { Ok(o) => o, Err(e) => return Err(e) };
    let o4 = match dlist_at_exec(res, src, o3, "prefixItems", fuel, Ghost(n)) { Ok(o) => o, Err(e) => return Err(e) };
    let o5 = match dschema_at_exec(res, src, o4, "additionalProperties", fuel, Ghost(n)) { Ok(o) => o, Err(e) => return Err(e) };
    let o6 = match dlist_at_exec(res, src, o5, "anyOf", fuel, Ghost(n)) { Ok(o) => o, Err(e) => return Err(e) };
    let o7 = match dlist_at_exec(res, src, o6, "oneOf", fuel, Ghost(n)) { Ok(o) => o, Err(e) => return Err(e) };
    dlist_at_exec(res, src, o7, "allOf", fuel, Ghost(n))
}

fn dwalk_exec<R: RefResolver>(res: &R, v: &JsonValue, fuel: usize) -> (out: Result<JsonValue, ZerxError>)
    ensures
        json_result_is(out, dwalk(res, v@, fuel as nat)),
    decreases fuel, jsize(v@), 3int, 0int,
{
    match deref_target(v) {
        None => match v {
            JsonValue::Object(o) => {
                let ghost n = jsize(v@);
                proof {
                    lemma_json_object_view(*o);
                    lemma_parts_smaller(v@);
                    assert forall|i: int| 0 <= i < o@.len() implies small_member(#[trigger] json_view(o@[i].1), n) by {
                        assert(members_view(o@)[i].1 == json_view(o@[i].1));
                    }
                }
                match dwalk_children_exec(res, o, fuel, Ghost(n)) {
                    Ok(w) => {
                        proof {
                            lemma_json_object_view(w);
                        }
                        Ok(JsonValue::Object(w))
                    },
                    Err(e) => Err(e),
                }
            },
            _ => Ok(v.deep_clone()),
        },
        Some(r) => {
            if fuel == 0 {
                return Err(ZerxError::new(ErrorCode::IMPORT_MALFORMED(), owned("deref: references nested too deeply")));
            }
            let x = match res.deref(r.as_str()) {
                Ok(x) => x,
                Err(e) => return Err(e),
            };
            let m = match deref_merge(v, x, r.as_str()) {
                Ok(m) => m,
                Err(e) => return Err(e),
            };
            let ghost mv = m@;
            match m {
                JsonValue::Object(mo) => {
                    let ghost n = jsize(mv);
                    proof {
                        lemma_json_object_view(mo);
                        lemma_parts_smaller(mv);
                        assert forall|i: int| 0 <= i < mo@.len() implies small_member(#[trigger] json_view(mo@[i].1), n) by {
                            assert(members_view(mo@)[i].1 == json_view(mo@[i].1));
                        }
                    }
                    match dwalk_children_exec(res, &mo, fuel - 1, Ghost(n)) {
                        Ok(w) => {
                            proof {
                                lemma_json_object_view(w);
                            }
                            Ok(JsonValue::Object(w))
                        },
                        Err(e) => Err(e),
                    }
                },
                other => Ok(other),
            }
        },
    }
}

/// The document with its external references resolved by `res` (see [`dwalk`]); the
/// first error, of the resolver or of a resolved document that is not an object, ends
/// the walk. References inside the document (`#/…`) are left for the importer.
pub fn deref_document<R: RefResolver>(res: &R, doc: &JsonValue) -> (r: Result<JsonValue, ZerxError>)
    ensures
        json_result_is(r, dwalk(res, doc@, usize::MAX as nat)),
{
    dwalk_exec(res, doc, usize::MAX)
}

} // verus!
