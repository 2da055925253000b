use vstd::prelude::*;
use crate::error::{ZerxError, ErrorView, error_view, opt_view};
use crate::semantics::strs;
use crate::value::{Float, ObjectMap, ZerxValue, Val};

verus! {

/// Maximum nesting of schema-directed parse steps before `parse_depth_exceeded`.
pub const MAX_PARSE_DEPTH: usize = 100;

/// A refinement predicate attached with `refine`: the host keeps the predicate under
/// `id`; `message` is reported when it rejects.
#[derive(Debug)]
pub struct Refinement {
    pub id: u64,
    pub message: String,
}

/// Universal modifiers carried by every schema.
#[derive(Debug)]
pub struct Modifiers {
    pub optional: bool,
    pub nullable: bool,
    pub default: Option<ZerxValue>,
    pub description: Option<String>,
    pub refine: Vec<Refinement>,
    pub format: Option<String>,
    pub mime: Option<String>,
    pub deprecated: bool,
    pub read_only: bool,
    pub write_only: bool,
    pub meta: ObjectMap,
    pub example: Option<ZerxValue>,
    pub title: Option<String>,
}

/// The validators a schema can carry; they run in storage order after the type check.
#[derive(Debug)]
pub enum Validator {
    /// Strings with fewer characters fail.
    MinLength(usize),
    /// Strings with more characters fail.
    MaxLength(usize),
    /// Strings must match the regular expression.
    Pattern(String),
    /// Strings must be email addresses.
    Email,
    /// Strings must be UUIDs.
    Uuid,
    /// Numbers below the bound fail.
    MinValue(Float),
    /// Numbers above the bound fail.
    MaxValue(Float),
    /// Floating-point numbers with a fractional part fail.
    Int,
    /// Arrays with fewer items fail.
    ArrayMinLength(usize),
    /// Arrays with more items fail.
    ArrayMaxLength(usize),
}

/// How an object treats properties its shape does not name.
#[derive(Clone, Debug)]
pub enum ObjectMode {
    /// The first unknown property is an error.
    Strict,
    /// Unknown properties are copied to the output.
    Passthrough,
    /// Unknown properties are dropped.
    Strip,
}

/// Shape and policy of an object schema.
#[derive(Debug)]
pub struct ObjectBody {
    pub shape: Vec<(String, Schema)>,
    pub mode: ObjectMode,
    pub all_optional: bool,
    pub prestrip_keys: Vec<String>,
    pub prestrip_read_only: bool,
    pub prestrip_write_only: bool,
}

/// A value a discriminator literal can take.
#[derive(Debug)]
pub enum DiscriminantKey {
    Bool(bool),
    Int(i128),
    Str(String),
}

/// The discriminator lookup a discriminated union builds at construction, or why it
/// could not.
#[derive(Debug)]
pub enum DiscriminatorState {
    Valid { entries: Vec<(DiscriminantKey, usize)>, allowed: Vec<String> },
    Invalid(String),
}

#[derive(Debug)]
pub struct DiscriminatedUnionBody {
    pub key: String,
    pub variants: Vec<Schema>,
    pub state: DiscriminatorState,
}

/// The closed set of schema kinds.
#[derive(Debug)]
pub enum SchemaKind {
    Any,
    /// A schema the host resolves on demand (for recursive structures).
    Lazy(u64),
    String,
    Number,
    Boolean,
    Enum(Vec<String>),
    Null,
    Object(ObjectBody),
    Array(Box<Schema>),
    Record(Box<Schema>),
    Tuple(Vec<Schema>),
    Union(Vec<Schema>),
    DiscriminatedUnion(DiscriminatedUnionBody),
    Literal(ZerxValue),
    Buffer,
    Uri,
    Url,
    Json,
    JsonSchema,
}

/// A schema: its kind, its modifiers and its validators.
#[derive(Debug)]
pub struct Schema {
    pub kind: SchemaKind,
    pub modifiers: Modifiers,
    pub validators: Vec<Validator>,
}

/// What the host supplies to validation: the predicates behind refinements and the
/// schemas behind lazy parts, both looked up by id. Both are expected to be pure: the
/// same question gets the same answer. A host that does not say otherwise has no
/// predicate (a refinement does not pass) and no lazy schema (resolving fails with
/// `lazy_unresolved`). What is proved of validation holds of a host whose `refine` and
/// `resolve` answer as its `spec_refine` and `spec_resolve` say; a host written outside
/// Verus gives no such functions, and nothing here checks its answers. A host that builds
/// lazy schemas once (see [`crate::lazy`]) answers the same schema every time, except
/// while that schema is being built.
pub trait Hooks {
    /// The answer of refinement `id` on a value.
    open spec fn spec_refine(&self, id: u64, value: Val) -> bool {
        false
    }

    /// The schema lazy `id` resolves to, or the error resolving it raises.
    open spec fn spec_resolve(&self, id: u64) -> Result<Schema, ErrorView> {
        Err(ErrorView {
            path: Seq::empty(),
            code: "lazy_unresolved"@,
            message: "lazy schema has no resolver"@,
            received: None,
            expected: None,
            inner: Seq::empty(),
        })
    }

    /// Runs refinement `id` on `value`.
    fn refine(&self, id: u64, value: &ZerxValue) -> (r: bool)
        ensures
            r == self.spec_refine(id, value@),
    ;

    /// Resolves lazy schema `id`.
    fn resolve(&self, id: u64) -> (r: Result<Schema, ZerxError>)
        ensures
            match (r, self.spec_resolve(id)) {
                (Ok(s), Ok(t)) => s == t,
                (Err(e), Err(ev)) => error_view(e) == ev,
                _ => false,
            },
    ;
}

// ---------------------------------------------------------------------------
// Copies
// ---------------------------------------------------------------------------

pub open spec fn opt_val(o: Option<ZerxValue>) -> Option<Val> {
    match o {
        Some(v) => Some(v@),
        None => None,
    }
}

pub open spec fn refinements_view(r: Seq<Refinement>) -> Seq<(u64, Seq<char>)> {
    Seq::new(r.len(), |i: int| (r[i].id, r[i].message@))
}

/// Two modifier sets that hold the same values.
pub open spec fn same_modifiers(a: Modifiers, b: Modifiers) -> bool {
    &&& a.optional == b.optional
    &&& a.nullable == b.nullable
    &&& opt_val(a.default) == opt_val(b.default)
    &&& opt_view(a.description) == opt_view(b.description)
    &&& refinements_view(a.refine@) == refinements_view(b.refine@)
    &&& opt_view(a.format) == opt_view(b.format)
    &&& opt_view(a.mime) == opt_view(b.mime)
    &&& a.deprecated == b.deprecated
    &&& a.read_only == b.read_only
    &&& a.write_only == b.write_only
    &&& a.meta@ == b.meta@
    &&& opt_val(a.example) == opt_val(b.example)
    &&& opt_view(a.title) == opt_view(b.title)
}

/// Two validators that check the same thing.
pub open spec fn same_validator(a: Validator, b: Validator) -> bool {
    match (a, b) {
        (Validator::MinLength(x), Validator::MinLength(y)) => x == y,
        (Validator::MaxLength(x), Validator::MaxLength(y)) => x == y,
        (Validator::Pattern(x), Validator::Pattern(y)) => x@ == y@,
        (Validator::Email, Validator::Email) => true,
        (Validator::Uuid, Validator::Uuid) => true,
        (Validator::MinValue(x), Validator::MinValue(y)) => x.bits == y.bits && x.text@ == y.text@,
        (Validator::MaxValue(x), Validator::MaxValue(y)) => x.bits == y.bits && x.text@ == y.text@,
        (Validator::Int, Validator::Int) => true,
        (Validator::ArrayMinLength(x), Validator::ArrayMinLength(y)) => x == y,
        (Validator::ArrayMaxLength(x), Validator::ArrayMaxLength(y)) => x == y,
        _ => false,
    }
}

pub open spec fn same_validators(a: Seq<Validator>, b: Seq<Validator>) -> bool {
    a.len() == b.len() && forall|i: int| 0 <= i < a.len() ==> same_validator(#[trigger] a[i], b[i])
}

pub open spec fn same_dkey(a: DiscriminantKey, b: DiscriminantKey) -> bool {
    match (a, b) {
        (DiscriminantKey::Bool(x), DiscriminantKey::Bool(y)) => x == y,
        (DiscriminantKey::Int(x), DiscriminantKey::Int(y)) => x == y,
        (DiscriminantKey::Str(x), DiscriminantKey::Str(y)) => x@ == y@,
        _ => false,
    }
}

pub open spec fn same_state(a: DiscriminatorState, b: DiscriminatorState) -> bool {
    match (a, b) {
        (DiscriminatorState::Valid { entries: e1, allowed: a1 }, DiscriminatorState::Valid { entries: e2, allowed: a2 }) => {
            &&& e1@.len() == e2@.len()
            &&& forall|i: int| 0 <= i < e1@.len() ==> same_dkey(#[trigger] e1@[i].0, e2@[i].0) && e1@[i].1 == e2@[i].1
            &&& strs(a1@) == strs(a2@)
        },
        (DiscriminatorState::Invalid(x), DiscriminatorState::Invalid(y)) => x@ == y@,
        _ => false,
    }
}

/// Two schemas that are copies of each other: the same kind, modifiers and validators,
/// all the way down.
pub open spec fn same_schema(a: Schema, b: Schema) -> bool
    decreases a, 2int,
{
    same_kind(a.kind, b.kind) && same_modifiers(a.modifiers, b.modifiers) && same_validators(a.validators@, b.validators@)
}

pub open spec fn same_schemas(a: Seq<Schema>, b: Seq<Schema>) -> bool
    decreases a, 0int,
{
    a.len() == b.len() && (a.len() == 0 || (same_schemas(a.drop_last(), b.drop_last()) && same_schema(a.last(), b.last())))
}

pub open spec fn same_shape(a: Seq<(String, Schema)>, b: Seq<(String, Schema)>) -> bool
    decreases a, 0int,
{
    a.len() == b.len() && (a.len() == 0 || (same_shape(a.drop_last(), b.drop_last()) && a.last().0@ == b.last().0@
        && same_schema(a.last().1, b.last().1)))
}

pub open spec fn same_kind(a: SchemaKind, b: SchemaKind) -> bool
    decreases a, 1int,
{
    match a {
        SchemaKind::Any => b is Any,
        SchemaKind::Lazy(x) => b matches SchemaKind::Lazy(y) && x == y,
        SchemaKind::String => b is String,
        SchemaKind::Number => b is Number,
        SchemaKind::Boolean => b is Boolean,
        SchemaKind::Enum(x) => b matches SchemaKind::Enum(y) && strs(x@) == strs(y@),
        SchemaKind::Null => b is Null,
        SchemaKind::Object(x) => b matches SchemaKind::Object(y) && {
            &&& same_shape(x.shape@, y.shape@)
            &&& x.mode == y.mode
            &&& x.all_optional == y.all_optional
            &&& strs(x.prestrip_keys@) == strs(y.prestrip_keys@)
            &&& x.prestrip_read_only == y.prestrip_read_only
            &&& x.prestrip_write_only == y.prestrip_write_only
        },
        SchemaKind::Array(x) => b matches SchemaKind::Array(y) && same_schema(*x, *y),
        SchemaKind::Record(x) => b matches SchemaKind::Record(y) && same_schema(*x, *y),
        SchemaKind::Tuple(x) => b matches SchemaKind::Tuple(y) && same_schemas(x@, y@),
        SchemaKind::Union(x) => b matches SchemaKind::Union(y) && same_schemas(x@, y@),
        SchemaKind::DiscriminatedUnion(x) => b matches SchemaKind::DiscriminatedUnion(y) && {
            &&& x.key@ == y.key@
            &&& same_schemas(x.variants@, y.variants@)
            &&& same_state(x.state, y.state)
        },
        SchemaKind::Literal(x) => b matches SchemaKind::Literal(y) && x@ == y@,
        SchemaKind::Buffer => b is Buffer,
        SchemaKind::Uri => b is Uri,
        SchemaKind::Url => b is Url,
        SchemaKind::Json => b is Json,
        SchemaKind::JsonSchema => b is JsonSchema,
    }
}

fn clone_texts(v: &Vec<String>) -> (r: Vec<String>)
    ensures
        strs(r@) == strs(v@),
{
    let mut out: Vec<String> = Vec::new();
    let mut i: usize = 0;
    while i < v.len()
        invariant
            i <= v@.len(),
            out@.len() == i,
            forall|j: int| 0 <= j < i ==> (#[trigger] out@[j])@ == v@[j]@,
        decreases v.len() - i,
    {
        out.push(v[i].clone());
        i += 1;
    }
    assert(strs(out@) =~= strs(v@));
    out
}

fn clone_opt_text(o: &Option<String>) -> (r: Option<String>)
    ensures
        opt_view(r) == opt_view(*o),
{
    match o {
        Some(t) => Some(t.clone()),
        None => None,
    }
}

fn clone_opt_value(o: &Option<ZerxValue>) -> (r: Option<ZerxValue>)
    ensures
        opt_val(r) == opt_val(*o),
{
    match o {
        Some(v) => Some(v.clone()),
        None => None,
    }
}

impl Clone for Refinement {
    fn clone(&self) -> (r: Self)
        ensures
            r.id == self.id,
            r.message@ == self.message@,
    {
        Refinement { id: self.id, message: self.message.clone() }
    }
}

fn clone_refinements(v: &Vec<Refinement>) -> (r: Vec<Refinement>)
    ensures
        refinements_view(r@) == refinements_view(v@),
{
    let mut out: Vec<Refinement> = Vec::new();
    let mut i: usize = 0;
    while i < v.len()
        invariant
            i <= v@.len(),
            out@.len() == i,
            forall|j: int| 0 <= j < i ==> (#[trigger] out@[j]).id == v@[j].id && out@[j].message@ == v@[j].message@,
        decreases v.len() - i,
    {
        out.push(v[i].clone());
        i += 1;
    }
    assert(refinements_view(out@) =~= refinements_view(v@));
    out
}

impl Clone for Modifiers {
    fn clone(&self) -> (r: Self)
        ensures
            same_modifiers(r, *self),
    {
        Modifiers {
            optional: self.optional,
            nullable: self.nullable,
            default: clone_opt_value(&self.default),
            description: clone_opt_text(&self.description),
            refine: clone_refinements(&self.refine),
            format: clone_opt_text(&self.format),
            mime: clone_opt_text(&self.mime),
            deprecated: self.deprecated,
            read_only: self.read_only,
            write_only: self.write_only,
            meta: self.meta.clone(),
            example: clone_opt_value(&self.example),
            title: clone_opt_text(&self.title),
        }
    }
}

impl Clone for Validator {
    fn clone(&self) -> (r: Self)
        ensures
            same_validator(r, *self),
    {
        match self {
            Validator::MinLength(n) => Validator::MinLength(*n),
            Validator::MaxLength(n) => Validator::MaxLength(*n),
            Validator::Pattern(p) => Validator::Pattern(p.clone()),
            Validator::Email => Validator::Email,
            Validator::Uuid => Validator::Uuid,
            Validator::MinValue(f) => Validator::MinValue(f.clone()),
            Validator::MaxValue(f) => Validator::MaxValue(f.clone()),
            Validator::Int => Validator::Int,
            Validator::ArrayMinLength(n) => Validator::ArrayMinLength(*n),
            Validator::ArrayMaxLength(n) => Validator::ArrayMaxLength(*n),
        }
    }
}

fn clone_validators(v: &Vec<Validator>) -> (r: Vec<Validator>)
    ensures
        same_validators(r@, v@),
{
    let mut out: Vec<Validator> = Vec::new();
    let mut i: usize = 0;
    while i < v.len()
        invariant
            i <= v@.len(),
            out@.len() == i,
            forall|j: int| 0 <= j < i ==> same_validator(#[trigger] out@[j], v@[j]),
        decreases v.len() - i,
    {
        out.push(v[i].clone());
        i += 1;
    }
    out
}

impl Clone for DiscriminantKey {
    fn clone(&self) -> (r: Self)
        ensures
            same_dkey(r, *self),
    {
        match self {
            DiscriminantKey::Bool(b) => DiscriminantKey::Bool(*b),
            DiscriminantKey::Int(n) => DiscriminantKey::Int(*n),
            DiscriminantKey::Str(s) => DiscriminantKey::Str(s.clone()),
        }
    }
}

impl Clone for DiscriminatorState {
    fn clone(&self) -> (r: Self)
        ensures
            same_state(r, *self),
    {
        match self {
            DiscriminatorState::Valid { entries, allowed } => {
                let mut out: Vec<(DiscriminantKey, usize)> = Vec::new();
                let mut i: usize = 0;
                while i < entries.len()
                    invariant
                        i <= entries@.len(),
                        out@.len() == i,
                        forall|j: int| 0 <= j < i ==> same_dkey(#[trigger] out@[j].0, entries@[j].0) && out@[j].1 == entries@[j].1,
                    decreases entries.len() - i,
                {
                    out.push((entries[i].0.clone(), entries[i].1));
                    i += 1;
                }
                DiscriminatorState::Valid { entries: out, allowed: clone_texts(allowed) }
            },
            DiscriminatorState::Invalid(msg) => DiscriminatorState::Invalid(msg.clone()),
        }
    }
}

proof fn lemma_same_schemas(a: Seq<Schema>, b: Seq<Schema>)
    requires
        a.len() == b.len(),
        forall|i: int| 0 <= i < a.len() ==> same_schema(#[trigger] a[i], b[i]),
    ensures
        same_schemas(a, b),
    decreases a.len(),
{
    if a.len() > 0 {
        lemma_same_schemas(a.drop_last(), b.drop_last());
        assert(same_schema(a[a.len() - 1], b[b.len() - 1]));
    }
}

proof fn lemma_same_shape(a: Seq<(String, Schema)>, b: Seq<(String, Schema)>)
    requires
        a.len() == b.len(),
        forall|i: int| 0 <= i < a.len() ==> (#[trigger] a[i]).0@ == b[i].0@ && same_schema(a[i].1, b[i].1),
    ensures
        same_shape(a, b),
    decreases a.len(),
{
    if a.len() > 0 {
        lemma_same_shape(a.drop_last(), b.drop_last());
        assert(a[a.len() - 1].0@ == b[b.len() - 1].0@);
    }
}

fn clone_schemas(v: &Vec<Schema>) -> (r: Vec<Schema>)
    ensures
        same_schemas(r@, v@),
    decreases v,
{
    let mut out: Vec<Schema> = Vec::new();
    let mut i: usize = 0;
    while i < v.len()
        invariant
            i <= v@.len(),
            out@.len() == i,
            forall|j: int| 0 <= j < i ==> same_schema(#[trigger] out@[j], v@[j]),
        decreases v.len() - i,
    {
        assert(decreases_to!(v => v@[i as int]));
        out.push(clone_schema(&v[i]));
        i += 1;
    }
    proof {
        lemma_same_schemas(out@, v@);
    }
    out
}

fn clone_shape(v: &Vec<(String, Schema)>) -> (r: Vec<(String, Schema)>)
    ensures
        same_shape(r@, v@),
    decreases v,
{
    let mut out: Vec<(String, Schema)> = Vec::new();
    let mut i: usize = 0;
    while i < v.len()
        invariant
            i <= v@.len(),
            out@.len() == i,
            forall|j: int| 0 <= j < i ==> (#[trigger] out@[j]).0@ == v@[j].0@ && same_schema(out@[j].1, v@[j].1),
        decreases v.len() - i,
    {
        assert(decreases_to!(v => v@[i as int].1));
        out.push((v[i].0.clone(), clone_schema(&v[i].1)));
        i += 1;
    }
    proof {
        lemma_same_shape(out@, v@);
    }
    out
}

fn clone_kind(k: &SchemaKind) -> (r: SchemaKind)
    ensures
        same_kind(r, *k),
    decreases k,
{
    match k {
        SchemaKind::Any => SchemaKind::Any,
        SchemaKind::Lazy(id) => SchemaKind::Lazy(*id),
        SchemaKind::String => SchemaKind::String,
        SchemaKind::Number => SchemaKind::Number,
        SchemaKind::Boolean => SchemaKind::Boolean,
        SchemaKind::Enum(set) => SchemaKind::Enum(clone_texts(set)),
        SchemaKind::Null => SchemaKind::Null,
        SchemaKind::Object(body) => SchemaKind::Object(ObjectBody {
            shape: clone_shape(&body.shape),
            mode: match body.mode {
                ObjectMode::Strict => ObjectMode::Strict,
                ObjectMode::Passthrough => ObjectMode::Passthrough,
                ObjectMode::Strip => ObjectMode::Strip,
            },
            all_optional: body.all_optional,
            prestrip_keys: clone_texts(&body.prestrip_keys),
            prestrip_read_only: body.prestrip_read_only,
            prestrip_write_only: body.prestrip_write_only,
        }),
        SchemaKind::Array(item) => SchemaKind::Array(Box::new(clone_schema(item))),
        SchemaKind::Record(vs) => SchemaKind::Record(Box::new(clone_schema(vs))),
        SchemaKind::Tuple(items) => SchemaKind::Tuple(clone_schemas(items)),
        SchemaKind::Union(variants) => SchemaKind::Union(clone_schemas(variants)),
        SchemaKind::DiscriminatedUnion(body) => SchemaKind::DiscriminatedUnion(DiscriminatedUnionBody {
            key: body.key.clone(),
            variants: clone_schemas(&body.variants),
            state: body.state.clone(),
        }),
        SchemaKind::Literal(c) => SchemaKind::Literal(c.clone()),
        SchemaKind::Buffer => SchemaKind::Buffer,
        SchemaKind::Uri => SchemaKind::Uri,
        SchemaKind::Url => SchemaKind::Url,
        SchemaKind::Json => SchemaKind::Json,
        SchemaKind::JsonSchema => SchemaKind::JsonSchema,
    }
}

fn clone_schema(s: &Schema) -> (r: Schema)
    ensures
        same_schema(r, *s),
    decreases s,
{
    Schema { kind: clone_kind(&s.kind), modifiers: s.modifiers.clone(), validators: clone_validators(&s.validators) }
}

impl Clone for Schema {
    /// A copy of the schema: the same kind, modifiers and validators.
    fn clone(&self) -> (r: Self)
        ensures
            same_schema(r, *self),
    {
        clone_schema(self)
    }
}

/// Depth counter for schema-directed parsing.
pub struct ParseContext {
    pub depth: usize,
}

} // verus!
