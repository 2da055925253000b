//! A copy of a schema (what `clone` gives) validates exactly as the schema does.
use vstd::prelude::*;
use crate::value::Val;
use crate::schema::{
    Schema, SchemaKind, Hooks, ObjectBody, Validator, Refinement, DiscriminantKey, DiscriminatorState,
    DiscriminatedUnionBody, MAX_PARSE_DEPTH, same_schema, same_schemas, same_shape, same_kind, same_validator,
    same_validators, same_modifiers, same_dkey, refinements_view, opt_val,
};
use crate::semantics::{
    sem_present, sem_body, sem_inner, sem_object, sem_field, sem_discriminated, fields_upto, field_input, unknown_upto,
    passthrough_upto, is_unknown, shape_has, prestrip, flagged_keys, refine_upto, refine_all, validators_upto,
    check_validator, check_kind, array_upto, tuple_upto, record_upto, union_upto, dkey_lookup, dkey_view, fuel, DKey,
};

verus! {

// ---------------------------------------------------------------------------
// Sequences of copies, index by index
// ---------------------------------------------------------------------------

proof fn lemma_schemas_at(a: Seq<Schema>, b: Seq<Schema>)
    requires
        same_schemas(a, b),
    ensures
        a.len() == b.len(),
        forall|i: int| 0 <= i < a.len() ==> same_schema(#[trigger] a[i], b[i]),
    decreases a.len(),
{
    if a.len() > 0 {
        lemma_schemas_at(a.drop_last(), b.drop_last());
        assert forall|i: int| 0 <= i < a.len() implies same_schema(#[trigger] a[i], b[i]) by {
            if i < a.len() - 1 {
                assert(a[i] == a.drop_last()[i]);
                assert(b[i] == b.drop_last()[i]);
            }
        }
    }
}

proof fn lemma_shape_at(a: Seq<(String, Schema)>, b: Seq<(String, Schema)>)
    requires
        same_shape(a, b),
    ensures
        a.len() == b.len(),
        forall|i: int| 0 <= i < a.len() ==> (#[trigger] a[i]).0@ == b[i].0@ && same_schema(a[i].1, b[i].1),
    decreases a.len(),
{
    if a.len() > 0 {
        lemma_shape_at(a.drop_last(), b.drop_last());
        assert forall|i: int| 0 <= i < a.len() implies (#[trigger] a[i]).0@ == b[i].0@ && same_schema(a[i].1, b[i].1) by {
            if i < a.len() - 1 {
                assert(a[i] == a.drop_last()[i]);
                assert(b[i] == b.drop_last()[i]);
            }
        }
    }
}

// ---------------------------------------------------------------------------
// The flat parts: validators, refinements, the type check, the object gates
// ---------------------------------------------------------------------------

proof fn lemma_validators(va: Seq<Validator>, vb: Seq<Validator>, v: Val, n: int)
    requires
        same_validators(va, vb),
        n <= va.len(),
    ensures
        validators_upto(va, v, n) == validators_upto(vb, v, n),
    decreases n,
{
    if n > 0 {
        lemma_validators(va, vb, v, n - 1);
        assert(same_validator(va[n - 1], vb[n - 1]));
        assert(check_validator(va[n - 1], v) == check_validator(vb[n - 1], v));
    }
}

proof fn lemma_refinements<H: Hooks>(h: &H, ra: Seq<Refinement>, rb: Seq<Refinement>, out: Val, n: int)
    requires
        refinements_view(ra) == refinements_view(rb),
        n <= ra.len(),
    ensures
        refine_upto(h, ra, out, n) == refine_upto(h, rb, out, n),
    decreases n,
{
    assert(ra.len() == refinements_view(ra).len() && rb.len() == refinements_view(rb).len());
    if n > 0 {
        lemma_refinements(h, ra, rb, out, n - 1);
        assert(refinements_view(ra)[n - 1] == (ra[n - 1].id, ra[n - 1].message@));
        assert(refinements_view(rb)[n - 1] == (rb[n - 1].id, rb[n - 1].message@));
    }
}

proof fn lemma_refine_all<H: Hooks>(h: &H, a: Schema, b: Schema, out: Val)
    requires
        same_modifiers(a.modifiers, b.modifiers),
    ensures
        refine_all(h, a, out) == refine_all(h, b, out),
{
    assert(refinements_view(a.modifiers.refine@).len() == refinements_view(b.modifiers.refine@).len());
    lemma_refinements(h, a.modifiers.refine@, b.modifiers.refine@, out, a.modifiers.refine@.len() as int);
}

proof fn lemma_check_kind(ka: SchemaKind, kb: SchemaKind, v: Val)
    requires
        same_kind(ka, kb),
    ensures
        check_kind(ka, v) == check_kind(kb, v),
{
}

proof fn lemma_flagged(a: Seq<(String, Schema)>, b: Seq<(String, Schema)>, ro: bool)
    requires
        same_shape(a, b),
    ensures
        flagged_keys(a, ro) == flagged_keys(b, ro),
    decreases a.len(),
{
    if a.len() > 0 {
        lemma_flagged(a.drop_last(), b.drop_last(), ro);
        assert(same_schema(a.last().1, b.last().1));
        assert(same_modifiers(a.last().1.modifiers, b.last().1.modifiers));
    }
}

/// Two object bodies of copies.
pub open spec fn same_body(x: ObjectBody, y: ObjectBody) -> bool {
    same_kind(SchemaKind::Object(x), SchemaKind::Object(y))
}

proof fn lemma_gates(x: ObjectBody, y: ObjectBody, k: Seq<char>)
    requires
        same_body(x, y),
    ensures
        prestrip(x) == prestrip(y),
        shape_has(x.shape@, k) == shape_has(y.shape@, k),
        is_unknown(x, k) == is_unknown(y, k),
{
    lemma_flagged(x.shape@, y.shape@, true);
    lemma_flagged(x.shape@, y.shape@, false);
    lemma_shape_at(x.shape@, y.shape@);
    if shape_has(x.shape@, k) {
        let i = choose|i: int| 0 <= i < x.shape@.len() && (#[trigger] x.shape@[i]).0@ == k;
        assert(y.shape@[i].0@ == k);
    }
    if shape_has(y.shape@, k) {
        let i = choose|i: int| 0 <= i < y.shape@.len() && (#[trigger] y.shape@[i]).0@ == k;
        assert(x.shape@[i].0@ == k);
    }
}

proof fn lemma_unknown(x: ObjectBody, y: ObjectBody, input: Seq<(Seq<char>, Val)>, n: int)
    requires
        same_body(x, y),
        n <= input.len(),
    ensures
        unknown_upto(x, input, n) == unknown_upto(y, input, n),
    decreases n,
{
    if n > 0 {
        lemma_unknown(x, y, input, n - 1);
        lemma_gates(x, y, input[n - 1].0);
    }
}

proof fn lemma_passthrough(x: ObjectBody, y: ObjectBody, input: Seq<(Seq<char>, Val)>, acc: Seq<(Seq<char>, Val)>, n: int)
    requires
        same_body(x, y),
        n <= input.len(),
    ensures
        passthrough_upto(x, input, acc, n) == passthrough_upto(y, input, acc, n),
    decreases n,
{
    if n > 0 {
        lemma_passthrough(x, y, input, acc, n - 1);
        lemma_gates(x, y, input[n - 1].0);
    }
}

proof fn lemma_dkey_lookup(ea: Seq<(DiscriminantKey, usize)>, eb: Seq<(DiscriminantKey, usize)>, k: DKey)
    requires
        ea.len() == eb.len(),
        forall|i: int| 0 <= i < ea.len() ==> same_dkey(#[trigger] ea[i].0, eb[i].0) && ea[i].1 == eb[i].1,
    ensures
        dkey_lookup(ea, k) == dkey_lookup(eb, k),
    decreases ea.len(),
{
    if ea.len() > 0 {
        assert forall|i: int| 0 <= i < ea.len() - 1 implies same_dkey(#[trigger] ea.drop_last()[i].0, eb.drop_last()[i].0)
            && ea.drop_last()[i].1 == eb.drop_last()[i].1 by {
            assert(ea.drop_last()[i] == ea[i]);
            assert(eb.drop_last()[i] == eb[i]);
        }
        lemma_dkey_lookup(ea.drop_last(), eb.drop_last(), k);
        assert(same_dkey(ea[ea.len() - 1].0, eb[eb.len() - 1].0));
        assert(dkey_view(ea.last().0) == dkey_view(eb.last().0));
    }
}

// ---------------------------------------------------------------------------
// The parse flow, step by step
// ---------------------------------------------------------------------------

proof fn lemma_present<H: Hooks>(h: &H, a: Schema, b: Schema, v: Val, depth: int)
    requires
        same_schema(a, b),
    ensures
        sem_present(h, a, v, depth) == sem_present(h, b, v, depth),
    decreases fuel(depth), 0int, 0int,
{
    if depth + 1 <= MAX_PARSE_DEPTH {
        lemma_body(h, a, b, v, depth + 1);
    }
}

proof fn lemma_body<H: Hooks>(h: &H, a: Schema, b: Schema, v: Val, d: int)
    requires
        same_schema(a, b),
    ensures
        sem_body(h, a, v, d) == sem_body(h, b, v, d),
    decreases fuel(d), 3int, 0int,
{
    match a.kind {
        SchemaKind::Lazy(id) => {
            if let Ok(inner) = h.spec_resolve(id) {
                if let Ok(out) = sem_present(h, inner, v, d) {
                    lemma_refine_all(h, a, b, out);
                }
            }
        },
        _ => {
            lemma_check_kind(a.kind, b.kind, v);
            lemma_validators(a.validators@, b.validators@, v, a.validators@.len() as int);
            lemma_inner(h, a.kind, b.kind, v, d);
            if let Ok(out) = sem_inner(h, a.kind, v, d) {
                lemma_refine_all(h, a, b, out);
            }
        },
    }
}

proof fn lemma_inner<H: Hooks>(h: &H, ka: SchemaKind, kb: SchemaKind, v: Val, d: int)
    requires
        same_kind(ka, kb),
    ensures
        sem_inner(h, ka, v, d) == sem_inner(h, kb, v, d),
    decreases fuel(d), 2int, 0int,
{
    match (ka, kb) {
        (SchemaKind::Object(x), SchemaKind::Object(y)) => {
            if let Val::Obj(input) = v {
                lemma_object(h, x, y, input, d);
            }
        },
        (SchemaKind::Array(x), SchemaKind::Array(y)) => {
            if let Val::Arr(items) = v {
                lemma_array(h, *x, *y, items, items.len() as int, d);
            }
        },
        (SchemaKind::Record(x), SchemaKind::Record(y)) => {
            if let Val::Obj(input) = v {
                lemma_record(h, *x, *y, input, input.len() as int, d);
            }
        },
        (SchemaKind::Tuple(x), SchemaKind::Tuple(y)) => {
            lemma_schemas_at(x@, y@);
            if let Val::Arr(items) = v {
                if items.len() == x@.len() {
                    lemma_tuple(h, x@, y@, items, items.len() as int, d);
                }
            }
        },
        (SchemaKind::Union(x), SchemaKind::Union(y)) => {
            lemma_schemas_at(x@, y@);
            lemma_union(h, x@, y@, v, x@.len() as int, d);
        },
        (SchemaKind::DiscriminatedUnion(x), SchemaKind::DiscriminatedUnion(y)) => {
            lemma_discriminated(h, x, y, v, d);
        },
        _ => {},
    }
}

proof fn lemma_object<H: Hooks>(h: &H, x: ObjectBody, y: ObjectBody, input: Seq<(Seq<char>, Val)>, d: int)
    requires
        same_body(x, y),
    ensures
        sem_object(h, x, input, d) == sem_object(h, y, input, d),
    decreases fuel(d), 1int, x.shape@.len() + 2,
{
    lemma_shape_at(x.shape@, y.shape@);
    lemma_unknown(x, y, input, input.len() as int);
    lemma_fields(h, x, y, input, x.shape@.len() as int, d);
    if let Ok(acc) = fields_upto(h, x, input, x.shape@.len() as int, d) {
        lemma_passthrough(x, y, input, acc, input.len() as int);
    }
}

proof fn lemma_fields<H: Hooks>(h: &H, x: ObjectBody, y: ObjectBody, input: Seq<(Seq<char>, Val)>, n: int, d: int)
    requires
        same_body(x, y),
        n <= x.shape@.len(),
    ensures
        fields_upto(h, x, input, n, d) == fields_upto(h, y, input, n, d),
    decreases fuel(d), 1int, n + 1,
{
    if n > 0 {
        lemma_shape_at(x.shape@, y.shape@);
        lemma_fields(h, x, y, input, n - 1, d);
        let key = x.shape@[n - 1].0@;
        lemma_gates(x, y, key);
        assert(field_input(x, input, key) == field_input(y, input, key));
        lemma_field(h, x.shape@[n - 1].1, y.shape@[n - 1].1, field_input(x, input, key), d);
    }
}

proof fn lemma_field<H: Hooks>(h: &H, fa: Schema, fb: Schema, raw: Option<Val>, d: int)
    requires
        same_schema(fa, fb),
    ensures
        sem_field(h, fa, raw, d) == sem_field(h, fb, raw, d),
    decreases fuel(d), 1int, 0int,
{
    match raw {
        Some(x) => {
            lemma_present(h, fa, fb, x, d);
        },
        None => {
            assert(opt_val(fa.modifiers.default) == opt_val(fb.modifiers.default));
            if let Some(def) = fa.modifiers.default {
                let def2 = fb.modifiers.default->Some_0;
                assert(def@ == def2@);
                lemma_present(h, fa, fb, def@, d);
            }
        },
    }
}

proof fn lemma_array<H: Hooks>(h: &H, x: Schema, y: Schema, items: Seq<Val>, n: int, d: int)
    requires
        same_schema(x, y),
    ensures
        array_upto(h, x, items, n, d) == array_upto(h, y, items, n, d),
    decreases fuel(d), 1int, n,
{
    if n > 0 {
        lemma_array(h, x, y, items, n - 1, d);
        lemma_present(h, x, y, items[n - 1], d);
    }
}

proof fn lemma_record<H: Hooks>(h: &H, x: Schema, y: Schema, input: Seq<(Seq<char>, Val)>, n: int, d: int)
    requires
        same_schema(x, y),
    ensures
        record_upto(h, x, input, n, d) == record_upto(h, y, input, n, d),
    decreases fuel(d), 1int, n,
{
    if n > 0 {
        lemma_record(h, x, y, input, n - 1, d);
        lemma_present(h, x, y, input[n - 1].1, d);
    }
}

proof fn lemma_tuple<H: Hooks>(h: &H, sa: Seq<Schema>, sb: Seq<Schema>, items: Seq<Val>, n: int, d: int)
    requires
        sa.len() == sb.len(),
        forall|i: int| 0 <= i < sa.len() ==> same_schema(#[trigger] sa[i], sb[i]),
        n <= sa.len(),
    ensures
        tuple_upto(h, sa, items, n, d) == tuple_upto(h, sb, items, n, d),
    decreases fuel(d), 1int, n,
{
    if n > 0 {
        lemma_tuple(h, sa, sb, items, n - 1, d);
        lemma_present(h, sa[n - 1], sb[n - 1], items[n - 1], d);
    }
}

proof fn lemma_union<H: Hooks>(h: &H, sa: Seq<Schema>, sb: Seq<Schema>, v: Val, n: int, d: int)
    requires
        sa.len() == sb.len(),
        forall|i: int| 0 <= i < sa.len() ==> same_schema(#[trigger] sa[i], sb[i]),
        n <= sa.len(),
    ensures
        union_upto(h, sa, v, n, d) == union_upto(h, sb, v, n, d),
    decreases fuel(d), 1int, n,
{
    if n > 0 {
        lemma_union(h, sa, sb, v, n - 1, d);
        lemma_present(h, sa[n - 1], sb[n - 1], v, d);
    }
}

proof fn lemma_discriminated<H: Hooks>(h: &H, x: DiscriminatedUnionBody, y: DiscriminatedUnionBody, v: Val, d: int)
    requires
        same_kind(SchemaKind::DiscriminatedUnion(x), SchemaKind::DiscriminatedUnion(y)),
    ensures
        sem_discriminated(h, x, v, d) == sem_discriminated(h, y, v, d),
    decreases fuel(d), 1int, 0int,
{
    lemma_schemas_at(x.variants@, y.variants@);
    match (x.state, y.state) {
        (DiscriminatorState::Valid { entries: ea, allowed: aa }, DiscriminatorState::Valid { entries: eb, allowed: ab }) => {
            if let Val::Obj(input) = v {
                if let Some(dv) = crate::value::map_get(input, x.key@) {
                    if let Some(k) = crate::semantics::dkey_of(dv) {
                        lemma_dkey_lookup(ea@, eb@, k);
                        if let Some(i) = dkey_lookup(ea@, k) {
                            if i < x.variants@.len() {
                                lemma_present(h, x.variants@[i as int], y.variants@[i as int], v, d);
                            }
                        }
                    }
                }
            }
        },
        _ => {},
    }
}

/// A copy of a schema validates every value exactly as the schema does: the same output
/// or the same error.
pub proof fn law_copy_validates_alike<H: Hooks>(h: &H, a: Schema, b: Schema, v: Val)
    requires
        same_schema(a, b),
    ensures
        sem_present(h, a, v, 0) == sem_present(h, b, v, 0),
{
    lemma_present(h, a, b, v, 0);
}

} // verus!
