//! The life of a lazy schema on the host side: built once, on first use, then kept;
//! asked for again while it is being built, it refuses. The host keeps a [`LazyState`]
//! per lazy schema and runs the builder when [`lazy_begin`] says so.
use vstd::prelude::*;
use crate::error::{ZerxError, ErrorCode, ErrorView, error_view, ev_new};
use crate::schema::{Schema, same_schema};
use crate::text::owned;

verus! {

/// Where the resolution of one lazy schema stands.
pub enum LazyState {
    /// Not asked for yet.
    Unresolved,
    /// Its builder is running.
    Resolving,
    /// Built; this is the schema.
    Resolved(Schema),
}

/// What the host does next when a lazy schema is asked for.
pub enum LazyStep {
    /// Run the builder, then hand its schema to [`lazy_finish`].
    Build,
    /// Answer with this copy of the schema built before.
    Cached(Schema),
    /// Answer with this error: the schema was asked for while being built.
    Reentered(ZerxError),
}

/// The error for a lazy schema asked for while its builder runs.
pub open spec fn reentrance_error() -> ErrorView {
    ev_new("lazy_reentrance"@, "lazy schema re-entered its own resolution"@)
}

/// Whether a request in state `st` runs the builder.
pub open spec fn builds(st: LazyState) -> bool {
    st is Unresolved
}

/// The state after [`lazy_begin`] in state `st`.
pub open spec fn begun(st: LazyState) -> LazyState {
    match st {
        LazyState::Resolved(s) => LazyState::Resolved(s),
        _ => LazyState::Resolving,
    }
}

/// The state after one request served in state `st`, by a host whose builder gives
/// `built`: [`lazy_begin`], then, when it says to build, [`lazy_finish`].
pub open spec fn served(st: LazyState, built: Schema) -> LazyState {
    if builds(st) { LazyState::Resolved(built) } else { begun(st) }
}

/// The state after `n` requests served one after the other from state `st`.
pub open spec fn served_n(st: LazyState, built: Schema, n: nat) -> LazyState
    decreases n,
{
    if n == 0 { st } else { served(served_n(st, built, (n - 1) as nat), built) }
}

/// How many of `n` requests served one after the other from `st` ran the builder.
pub open spec fn builder_runs(st: LazyState, built: Schema, n: nat) -> nat
    decreases n,
{
    if n == 0 {
        0
    } else {
        builder_runs(st, built, (n - 1) as nat) + if builds(served_n(st, built, (n - 1) as nat)) { 1nat } else { 0nat }
    }
}

/// The step for a lazy schema in state `st`, and the state after it: an unresolved one is
/// built (and is then being resolved), a resolved one answers a copy of its schema, and
/// one being resolved refuses with `lazy_reentrance`.
pub fn lazy_begin(st: LazyState) -> (r: (LazyStep, LazyState))
    ensures
        r.0 is Build <==> builds(st),
        r.1 == begun(st),
        match st {
            LazyState::Unresolved => r.0 is Build && r.1 is Resolving,
            LazyState::Resolving => r.0 matches LazyStep::Reentered(e) && error_view(e) == reentrance_error()
                && r.1 is Resolving,
            LazyState::Resolved(s) => r.0 matches LazyStep::Cached(c) && same_schema(c, s)
                && r.1 == LazyState::Resolved(s),
        },
{
    match st {
        LazyState::Unresolved => (LazyStep::Build, LazyState::Resolving),
        LazyState::Resolving => {
            let e = ZerxError::new(ErrorCode::LAZY_REENTRANCE(), owned("lazy schema re-entered its own resolution"));
            (LazyStep::Reentered(e), LazyState::Resolving)
        },
        LazyState::Resolved(s) => {
            let c = s.clone();
            (LazyStep::Cached(c), LazyState::Resolved(s))
        },
    }
}

/// The answer once the builder gave `built`, and the state after it: resolved, keeping
/// `built`.
pub fn lazy_finish(built: Schema) -> (r: (Schema, LazyState))
    ensures
        same_schema(r.0, built),
        r.1 == LazyState::Resolved(built),
{
    let c = built.clone();
    (c, LazyState::Resolved(built))
}

/// A lazy schema is built once: of any number `n >= 1` of requests served one after the
/// other from the unresolved state, exactly one runs the builder, and after each of them
/// the schema it gave is kept, so every later request is answered with a copy of it.
pub proof fn law_lazy_built_once(built: Schema, n: nat)
    requires
        n >= 1,
    ensures
        builder_runs(LazyState::Unresolved, built, n) == 1,
        forall|k: nat| 1 <= k <= n ==> served_n(LazyState::Unresolved, built, k) == LazyState::Resolved(built),
    decreases n,
{
    if n > 1 {
        law_lazy_built_once(built, (n - 1) as nat);
        assert(!builds(served_n(LazyState::Unresolved, built, (n - 1) as nat)));
    } else {
        assert(builds(served_n(LazyState::Unresolved, built, 0)));
        assert(builder_runs(LazyState::Unresolved, built, 0) == 0);
    }
    assert forall|k: nat| 1 <= k <= n implies served_n(LazyState::Unresolved, built, k) == LazyState::Resolved(built) by {
        if k < n {
            law_lazy_built_once(built, k);
        }
    }
}

/// A lazy schema asked for while its builder runs never starts the builder again: from
/// the resolving state, no request of any number runs it, and the state stays resolving
/// (each request is refused with `lazy_reentrance`).
pub proof fn law_lazy_reentrance_never_builds(built: Schema, n: nat)
    ensures
        builder_runs(LazyState::Resolving, built, n) == 0,
        served_n(LazyState::Resolving, built, n) == LazyState::Resolving,
    decreases n,
{
    if n > 0 {
        law_lazy_reentrance_never_builds(built, (n - 1) as nat);
    }
}

} // verus!
