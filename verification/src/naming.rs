//! How export names the lazy schemas it meets: one `$defs` entry each, named `S1`, `S2`,
//! … in the order they are first met.
use vstd::prelude::*;
use crate::value::{map_insert, lemma_key_pos_first, lemma_key_pos_none};
use crate::schema::{Schema, SchemaKind, Hooks, ObjectBody};
use crate::export::{ExportState, JsonVal, export, export_all, export_props, base_schema, id_of, next_id, wrap_nullable, annotations};
use crate::text::{decimal, digit_char};
use crate::pointer::digits_value;

verus! {

/// The `$defs` name of the `k`-th lazy schema met (from 0).
pub open spec fn def_name(k: int) -> Seq<char> {
    "S"@ + decimal((k + 1) as nat)
}

/// The export state names lazy schemas as promised: one `$defs` entry per lazy schema met,
/// in the order met, the `k`-th named [`def_name`]`(k)`, and no lazy schema twice.
pub open spec fn well_named(st: ExportState) -> bool {
    &&& st.defs.len() == st.ids.len()
    &&& forall|k: int| 0 <= k < st.ids.len() ==> (#[trigger] st.ids[k]).1 == def_name(k) && st.defs[k].0 == def_name(k)
    &&& forall|j: int, k: int| 0 <= j < k < st.ids.len() ==> (#[trigger] st.ids[j]).0 != (#[trigger] st.ids[k]).0
}

proof fn lemma_decimal_value(n: nat)
    ensures
        digits_value(decimal(n)) == n,
    decreases n,
{
    if n < 10 {
        let s = decimal(n);
        assert(s.drop_last() =~= Seq::<char>::empty());
        assert(digits_value(s.drop_last()) == 0);
        assert(s.last() == digit_char(n as int));
        assert(digit_char(n as int) as int == 48 + n);
        assert(digits_value(s) == digits_value(s.drop_last()) * 10 + ((s.last() as int - 48) as nat));
    } else {
        lemma_decimal_value(n / 10);
        let s = decimal(n);
        assert(s.drop_last() == decimal(n / 10));
        assert(s.last() == digit_char((n % 10) as int));
        assert(digit_char((n % 10) as int) as int == 48 + n % 10);
        assert(digits_value(s) == digits_value(s.drop_last()) * 10 + ((s.last() as int - 48) as nat));
        assert((n / 10) * 10 + n % 10 == n) by (nonlinear_arith);
    }
}

proof fn lemma_names_differ(j: int, k: int)
    requires
        0 <= j,
        0 <= k,
        j != k,
    ensures
        def_name(j) != def_name(k),
{
    if def_name(j) == def_name(k) {
        reveal_strlit("S");
        assert(def_name(j).drop_first() =~= decimal((j + 1) as nat));
        assert(def_name(k).drop_first() =~= decimal((k + 1) as nat));
        lemma_decimal_value((j + 1) as nat);
        lemma_decimal_value((k + 1) as nat);
    }
}

proof fn lemma_id_of_none(ids: Seq<(u64, Seq<char>)>, lid: u64)
    requires
        id_of(ids, lid) is None,
    ensures
        forall|k: int| 0 <= k < ids.len() ==> (#[trigger] ids[k]).0 != lid,
    decreases ids.len(),
{
    if ids.len() > 0 {
        lemma_id_of_none(ids.drop_last(), lid);
        assert forall|k: int| 0 <= k < ids.len() implies (#[trigger] ids[k]).0 != lid by {
            if k < ids.len() - 1 {
                assert(ids[k] == ids.drop_last()[k]);
            }
        }
    }
}

/// A state with a new lazy schema `lid` placed: its name put in `$defs`, empty for now.
proof fn lemma_place(st: ExportState, lid: u64)
    requires
        well_named(st),
        id_of(st.ids, lid) is None,
    ensures
        well_named(ExportState {
            defs: map_insert(st.defs, next_id(st.ids), JsonVal::Obj(Seq::empty())),
            ids: st.ids.push((lid, next_id(st.ids))),
        }),
        map_insert(st.defs, next_id(st.ids), JsonVal::Obj(Seq::empty())).len() == st.defs.len() + 1,
{
    let n = st.ids.len() as int;
    let id = next_id(st.ids);
    assert(id == def_name(n));
    assert forall|j: int| 0 <= j < st.defs.len() implies st.defs[j].0 != id by {
        assert(st.ids[j].1 == def_name(j));
        lemma_names_differ(j, n);
    }
    lemma_key_pos_none(st.defs, id);
    lemma_id_of_none(st.ids, lid);
    let defs = map_insert(st.defs, id, JsonVal::Obj(Seq::empty()));
    let ids = st.ids.push((lid, id));
    assert(defs == st.defs.push((id, JsonVal::Obj(Seq::empty()))));
    assert forall|k: int| 0 <= k < ids.len() implies (#[trigger] ids[k]).1 == def_name(k) && defs[k].0 == def_name(k) by {
        if k < n {
            assert(ids[k] == st.ids[k]);
        }
    }
    assert forall|j: int, k: int| 0 <= j < k < ids.len() implies (#[trigger] ids[j]).0 != (#[trigger] ids[k]).0 by {
        if k < n {
            assert(ids[j] == st.ids[j] && ids[k] == st.ids[k]);
        } else {
            assert(ids[j] == st.ids[j]);
        }
    }
}

/// Filling the entry of the `n`-th lazy schema keeps the names.
proof fn lemma_fill(st: ExportState, n: int, x: JsonVal)
    requires
        well_named(st),
        0 <= n < st.ids.len(),
    ensures
        well_named(ExportState { defs: map_insert(st.defs, def_name(n), x), ..st }),
{
    let id = def_name(n);
    assert forall|j: int| 0 <= j < n implies st.defs[j].0 != id by {
        assert(st.ids[j].1 == def_name(j));
        lemma_names_differ(j, n);
    }
    assert(st.ids[n].1 == def_name(n));
    lemma_key_pos_first(st.defs, id, n);
    let defs = map_insert(st.defs, id, x);
    assert(defs == st.defs.update(n, (id, x)));
}

proof fn lemma_export<H: Hooks>(h: &H, s: Schema, st: ExportState, fuel: nat)
    requires
        well_named(st),
    ensures
        well_named(export(h, s, st, fuel).1),
        export(h, s, st, fuel).1.ids.len() >= st.ids.len(),
        forall|k: int| 0 <= k < st.ids.len() ==> #[trigger] export(h, s, st, fuel).1.ids[k] == st.ids[k],
    decreases fuel, s, 0int,
{
    match s.kind {
        SchemaKind::Lazy(lid) => {
            if id_of(st.ids, lid) is None {
                let n = st.ids.len() as int;
                let id = next_id(st.ids);
                lemma_place(st, lid);
                let placed = ExportState {
                    defs: map_insert(st.defs, id, JsonVal::Obj(Seq::empty())),
                    ids: st.ids.push((lid, id)),
                };
                if let Ok(inner) = h.spec_resolve(lid) {
                    if fuel > 0 {
                        lemma_export(h, inner, placed, (fuel - 1) as nat);
                        let st2 = export(h, inner, placed, (fuel - 1) as nat).1;
                        assert(id == def_name(n));
                        lemma_fill(st2, n, export(h, inner, placed, (fuel - 1) as nat).0);
                    }
                }
            }
        },
        _ => {
            lemma_base(h, s.kind, st, fuel);
        },
    }
}

proof fn lemma_export_all<H: Hooks>(h: &H, items: Seq<Schema>, st: ExportState, fuel: nat, n: int)
    requires
        well_named(st),
    ensures
        well_named(export_all(h, items, st, fuel, n).1),
        export_all(h, items, st, fuel, n).1.ids.len() >= st.ids.len(),
        forall|k: int| 0 <= k < st.ids.len() ==> #[trigger] export_all(h, items, st, fuel, n).1.ids[k] == st.ids[k],
    decreases fuel, items, n,
{
    if !(n <= 0 || n > items.len()) {
        lemma_export_all(h, items, st, fuel, n - 1);
        let st1 = export_all(h, items, st, fuel, n - 1).1;
        lemma_export(h, items[n - 1], st1, fuel);
    }
}

proof fn lemma_export_props<H: Hooks>(h: &H, body: ObjectBody, shape: Seq<(String, Schema)>, st: ExportState, fuel: nat, n: int)
    requires
        well_named(st),
    ensures
        well_named(export_props(h, body, shape, st, fuel, n).2),
        export_props(h, body, shape, st, fuel, n).2.ids.len() >= st.ids.len(),
        forall|k: int| 0 <= k < st.ids.len() ==> #[trigger] export_props(h, body, shape, st, fuel, n).2.ids[k] == st.ids[k],
    decreases fuel, shape, n,
{
    if !(n <= 0 || n > shape.len()) {
        lemma_export_props(h, body, shape, st, fuel, n - 1);
        let st1 = export_props(h, body, shape, st, fuel, n - 1).2;
        lemma_export(h, shape[n - 1].1, st1, fuel);
    }
}

proof fn lemma_base<H: Hooks>(h: &H, k: SchemaKind, st: ExportState, fuel: nat)
    requires
        well_named(st),
    ensures
        well_named(base_schema(h, k, st, fuel).1),
        base_schema(h, k, st, fuel).1.ids.len() >= st.ids.len(),
        forall|j: int| 0 <= j < st.ids.len() ==> #[trigger] base_schema(h, k, st, fuel).1.ids[j] == st.ids[j],
    decreases fuel, k, 0int,
{
    match k {
        SchemaKind::Object(body) => lemma_export_props(h, body, body.shape@, st, fuel, body.shape@.len() as int),
        SchemaKind::Array(item) => lemma_export(h, *item, st, fuel),
        SchemaKind::Record(value) => lemma_export(h, *value, st, fuel),
        SchemaKind::Tuple(items) => lemma_export_all(h, items@, st, fuel, items@.len() as int),
        SchemaKind::Union(variants) => lemma_export_all(h, variants@, st, fuel, variants@.len() as int),
        SchemaKind::DiscriminatedUnion(body) => lemma_export_all(h, body.variants@, st, fuel, body.variants@.len() as int),
        _ => {},
    }
}

/// Export gives every lazy schema it meets one `$defs` entry, named `S1`, `S2`, … in the
/// order the lazy schemas are first met, and never gives one lazy schema two entries
/// (the `$defs` of the document is this state's `defs`).
pub proof fn law_defs_named_in_order<H: Hooks>(h: &H, s: Schema)
    ensures
        well_named(export(h, s, ExportState { defs: Seq::empty(), ids: Seq::empty() }, usize::MAX as nat).1),
{
    lemma_export(h, s, ExportState { defs: Seq::empty(), ids: Seq::empty() }, usize::MAX as nat);
}

proof fn lemma_id_of_some(ids: Seq<(u64, Seq<char>)>, lid: u64)
    requires
        id_of(ids, lid) is Some,
    ensures
        exists|k: int| 0 <= k < ids.len() && #[trigger] ids[k] == (lid, id_of(ids, lid)->0),
    decreases ids.len(),
{
    if id_of(ids.drop_last(), lid) is Some {
        lemma_id_of_some(ids.drop_last(), lid);
        let k = choose|k: int| 0 <= k < ids.drop_last().len() && #[trigger] ids.drop_last()[k] == (lid, id_of(ids.drop_last(), lid)->0);
        assert(ids[k] == ids.drop_last()[k]);
    } else {
        assert(ids[ids.len() - 1] == ids.last());
    }
}

/// Export writes every lazy schema it meets as a reference into `$defs`: in any state the
/// export reaches, the lazy schema `s` (of lazy id `lid`) is exported as
/// `{"$ref": "#/$defs/Sk"}` (with its annotations, and wrapped when nullable), where `Sk`
/// is the name of the `$defs` entry that the state after it holds for `lid`.
pub proof fn law_lazy_exported_as_ref<H: Hooks>(h: &H, s: Schema, lid: u64, st: ExportState, fuel: nat)
    requires
        well_named(st),
        s.kind == SchemaKind::Lazy(lid),
    ensures
        exists|k: int| 0 <= k < export(h, s, st, fuel).1.ids.len()
            && #[trigger] export(h, s, st, fuel).1.ids[k] == (lid, def_name(k))
            && export(h, s, st, fuel).0 == wrap_nullable(s, annotations(s, seq![("$ref"@, JsonVal::Str("#/$defs/"@ + def_name(k)))])),
{
    lemma_export(h, s, st, fuel);
    let (x, fin) = export(h, s, st, fuel);
    let k: int = match id_of(st.ids, lid) {
        Some(id) => {
            lemma_id_of_some(st.ids, lid);
            let k = choose|k: int| 0 <= k < st.ids.len() && #[trigger] st.ids[k] == (lid, id_of(st.ids, lid)->0);
            assert(st.ids[k].1 == def_name(k));
            k
        },
        None => {
            let n = st.ids.len() as int;
            let id = next_id(st.ids);
            assert(id == def_name(n));
            lemma_place(st, lid);
            let placed = ExportState {
                defs: map_insert(st.defs, id, JsonVal::Obj(Seq::empty())),
                ids: st.ids.push((lid, id)),
            };
            assert(placed.ids[n] == (lid, id));
            if let Ok(inner) = h.spec_resolve(lid) {
                if fuel > 0 {
                    lemma_export(h, inner, placed, (fuel - 1) as nat);
                    assert(export(h, inner, placed, (fuel - 1) as nat).1.ids[n] == (lid, id));
                }
            }
            n
        },
    };
    assert(0 <= k < fin.ids.len() && fin.ids[k] == (lid, def_name(k))
        && x == wrap_nullable(s, annotations(s, seq![("$ref"@, JsonVal::Str("#/$defs/"@ + def_name(k)))])));
}

} // verus!
