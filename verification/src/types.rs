//! Schema builders: the constructors, the universal modifiers and the type-specific
//! methods.
use vstd::prelude::*;
use crate::error::{ErrorView, opt_view};
use crate::value::{Float, ObjectMap, ZerxValue, Val, map_insert, map_get, key_pos, lemma_key_pos_first, lemma_key_pos_none};
use crate::schema::{
    Schema, SchemaKind, Modifiers, Validator, Refinement, ObjectBody, ObjectMode,
};
use crate::text::owned;
use crate::semantics::{strs, lemma_strs_push, DKey, dkey_view, dkey_of, dkey_lookup, literal_descriptor};
use crate::schema::{DiscriminantKey, DiscriminatorState, DiscriminatedUnionBody, same_schema};
use crate::parse::{discriminant_key, lookup_key, literal_descriptor_of};
use crate::text::{concat, concat3, usize_to_string, decimal};

verus! {

/// Whether modifiers are the defaults a fresh schema starts with.
pub open spec fn plain_modifiers(m: Modifiers) -> bool {
    &&& !m.optional
    &&& !m.nullable
    &&& m.default is None
    &&& m.description is None
    &&& m.refine@.len() == 0
    &&& m.format is None
    &&& m.mime is None
    &&& !m.deprecated
    &&& !m.read_only
    &&& !m.write_only
    &&& m.meta@.len() == 0
    &&& m.example is None
    &&& m.title is None
}

/// Whether `s` is a fresh schema of kind `k`: default modifiers, no validators.
pub open spec fn fresh(s: Schema, k: SchemaKind) -> bool {
    &&& s.kind == k
    &&& plain_modifiers(s.modifiers)
    &&& s.validators@.len() == 0
}

/// `s` with its modifiers replaced.
pub open spec fn with_modifiers(s: Schema, m: Modifiers) -> Schema {
    Schema { modifiers: m, ..s }
}

/// Whether `r` is `s` with `v` appended to its validators.
pub open spec fn adds_validator(r: Schema, s: Schema, v: Validator) -> bool {
    &&& r == (Schema { validators: r.validators, ..s })
    &&& r.validators@ == s.validators@.push(v)
}

impl Schema {
    /// A fresh schema of kind `kind`.
    pub fn new(kind: SchemaKind) -> (r: Schema)
        ensures
            fresh(r, kind),
    {
        Schema {
            kind,
            modifiers: Modifiers {
                optional: false,
                nullable: false,
                default: None,
                description: None,
                refine: Vec::new(),
                format: None,
                mime: None,
                deprecated: false,
                read_only: false,
                write_only: false,
                meta: ObjectMap::new(),
                example: None,
                title: None,
            },
            validators: Vec::new(),
        }
    }
}

/// The universal modifiers, shared by every builder. Each returns the builder with one
/// modifier set and everything else unchanged.
pub trait Modify: Sized {
    /// The schema the builder holds.
    spec fn schema_of(&self) -> Schema;

    /// The schema the builder holds.
    fn into_schema(self) -> (r: Schema)
        ensures
            r == self.schema_of(),
    ;

    /// A builder holding `s`.
    fn from_schema(s: Schema) -> (r: Self)
        ensures
            r.schema_of() == s,
    ;

    /// Marks the schema optional: an absent object property is omitted.
    fn optional(self) -> (r: Self)
        ensures
            r.schema_of() == with_modifiers(self.schema_of(), Modifiers { optional: true, ..self.schema_of().modifiers }),
    {
        let mut s = self.into_schema();
        s.modifiers.optional = true;
        Self::from_schema(s)
    }

    /// Marks the schema nullable: `null` is accepted as it is.
    fn nullable(self) -> (r: Self)
        ensures
            r.schema_of() == with_modifiers(self.schema_of(), Modifiers { nullable: true, ..self.schema_of().modifiers }),
    {
        let mut s = self.into_schema();
        s.modifiers.nullable = true;
        Self::from_schema(s)
    }

    /// Sets the value an absent object property takes.
    fn default(self, value: ZerxValue) -> (r: Self)
        ensures
            r.schema_of() == with_modifiers(self.schema_of(), Modifiers { default: Some(value), ..self.schema_of().modifiers }),
    {
        let mut s = self.into_schema();
        s.modifiers.default = Some(value);
        Self::from_schema(s)
    }

    /// Sets the description.
    fn describe(self, text: &str) -> (r: Self)
        ensures
            r.schema_of() == with_modifiers(self.schema_of(), Modifiers { description: r.schema_of().modifiers.description, ..self.schema_of().modifiers }),
            opt_view(r.schema_of().modifiers.description) == Some(text@),
    {
        let mut s = self.into_schema();
        s.modifiers.description = Some(owned(text));
        Self::from_schema(s)
    }

    /// Adds a refinement: the host predicate registered under `id`, reported with
    /// `message` when it rejects. Refinements run in the order they were added.
    fn refine(self, id: u64, message: &str) -> (r: Self)
        ensures
            r.schema_of() == with_modifiers(self.schema_of(), Modifiers { refine: r.schema_of().modifiers.refine, ..self.schema_of().modifiers }),
            r.schema_of().modifiers.refine@.len() == self.schema_of().modifiers.refine@.len() + 1,
            r.schema_of().modifiers.refine@.drop_last() == self.schema_of().modifiers.refine@,
            r.schema_of().modifiers.refine@.last().id == id,
            r.schema_of().modifiers.refine@.last().message@ == message@,
    {
        let mut s = self.into_schema();
        s.modifiers.refine.push(Refinement { id, message: owned(message) });
        Self::from_schema(s)
    }

    /// Sets the format annotation.
    fn format(self, fmt: &str) -> (r: Self)
        ensures
            r.schema_of() == with_modifiers(self.schema_of(), Modifiers { format: r.schema_of().modifiers.format, ..self.schema_of().modifiers }),
            opt_view(r.schema_of().modifiers.format) == Some(fmt@),
    {
        let mut s = self.into_schema();
        s.modifiers.format = Some(owned(fmt));
        Self::from_schema(s)
    }

    /// Sets the MIME type annotation.
    fn mime_format(self, mime: &str) -> (r: Self)
        ensures
            r.schema_of() == with_modifiers(self.schema_of(), Modifiers { mime: r.schema_of().modifiers.mime, ..self.schema_of().modifiers }),
            opt_view(r.schema_of().modifiers.mime) == Some(mime@),
    {
        let mut s = self.into_schema();
        s.modifiers.mime = Some(owned(mime));
        Self::from_schema(s)
    }

    /// Marks the schema deprecated.
    fn deprecated(self) -> (r: Self)
        ensures
            r.schema_of() == with_modifiers(self.schema_of(), Modifiers { deprecated: true, ..self.schema_of().modifiers }),
    {
        let mut s = self.into_schema();
        s.modifiers.deprecated = true;
        Self::from_schema(s)
    }

    /// Marks the schema read-only.
    fn read_only(self) -> (r: Self)
        ensures
            r.schema_of() == with_modifiers(self.schema_of(), Modifiers { read_only: true, ..self.schema_of().modifiers }),
    {
        let mut s = self.into_schema();
        s.modifiers.read_only = true;
        Self::from_schema(s)
    }

    /// Marks the schema write-only.
    fn write_only(self) -> (r: Self)
        ensures
            r.schema_of() == with_modifiers(self.schema_of(), Modifiers { write_only: true, ..self.schema_of().modifiers }),
    {
        let mut s = self.into_schema();
        s.modifiers.write_only = true;
        Self::from_schema(s)
    }

    /// Stores `value` under `key` in the free-form metadata.
    fn meta(self, key: &str, value: ZerxValue) -> (r: Self)
        ensures
            r.schema_of() == with_modifiers(self.schema_of(), Modifiers { meta: r.schema_of().modifiers.meta, ..self.schema_of().modifiers }),
            r.schema_of().modifiers.meta@ == map_insert(self.schema_of().modifiers.meta@, key@, value@),
    {
        let mut s = self.into_schema();
        s.modifiers.meta.insert(owned(key), value);
        Self::from_schema(s)
    }

    /// Sets the example value.
    fn example(self, value: ZerxValue) -> (r: Self)
        ensures
            r.schema_of() == with_modifiers(self.schema_of(), Modifiers { example: Some(value), ..self.schema_of().modifiers }),
    {
        let mut s = self.into_schema();
        s.modifiers.example = Some(value);
        Self::from_schema(s)
    }

    /// Sets the title.
    fn title(self, text: &str) -> (r: Self)
        ensures
            r.schema_of() == with_modifiers(self.schema_of(), Modifiers { title: r.schema_of().modifiers.title, ..self.schema_of().modifiers }),
            opt_view(r.schema_of().modifiers.title) == Some(text@),
    {
        let mut s = self.into_schema();
        s.modifiers.title = Some(owned(text));
        Self::from_schema(s)
    }
}

impl Modify for Schema {
    open spec fn schema_of(&self) -> Schema {
        *self
    }

    fn into_schema(self) -> (r: Schema) {
        self
    }

    fn from_schema(s: Schema) -> (r: Self) {
        s
    }
}

/// Builder returned by [`any`].
pub struct AnySchema(pub Schema);

impl Modify for AnySchema {
    open spec fn schema_of(&self) -> Schema {
        self.0
    }

    fn into_schema(self) -> (r: Schema) {
        self.0
    }

    fn from_schema(s: Schema) -> (r: Self) {
        AnySchema(s)
    }
}

impl Clone for AnySchema {
    fn clone(&self) -> (r: Self)
        ensures
            same_schema(r.0, self.0),
    {
        AnySchema(self.0.clone())
    }
}

impl From<AnySchema> for Schema {
    fn from(b: AnySchema) -> (r: Schema) {
        b.0
    }
}

impl vstd::std_specs::convert::FromSpecImpl<AnySchema> for Schema {
    open spec fn obeys_from_spec() -> bool {
        true
    }

    open spec fn from_spec(v: AnySchema) -> Schema {
        v.0
    }
}

/// A schema that accepts every value.
pub fn any() -> (r: AnySchema)
    ensures
        fresh(r.0, SchemaKind::Any),
{
    AnySchema(Schema::new(SchemaKind::Any))
}

/// Builder returned by [`string`].
pub struct StringSchema(pub Schema);

impl Modify for StringSchema {
    open spec fn schema_of(&self) -> Schema {
        self.0
    }

    fn into_schema(self) -> (r: Schema) {
        self.0
    }

    fn from_schema(s: Schema) -> (r: Self) {
        StringSchema(s)
    }
}

impl Clone for StringSchema {
    fn clone(&self) -> (r: Self)
        ensures
            same_schema(r.0, self.0),
    {
        StringSchema(self.0.clone())
    }
}

impl From<StringSchema> for Schema {
    fn from(b: StringSchema) -> (r: Schema) {
        b.0
    }
}

impl vstd::std_specs::convert::FromSpecImpl<StringSchema> for Schema {
    open spec fn obeys_from_spec() -> bool {
        true
    }

    open spec fn from_spec(v: StringSchema) -> Schema {
        v.0
    }
}

/// A schema for strings.
pub fn string() -> (r: StringSchema)
    ensures
        fresh(r.0, SchemaKind::String),
{
    StringSchema(Schema::new(SchemaKind::String))
}

/// Builder returned by [`number`].
pub struct NumberSchema(pub Schema);

impl Modify for NumberSchema {
    open spec fn schema_of(&self) -> Schema {
        self.0
    }

    fn into_schema(self) -> (r: Schema) {
        self.0
    }

    fn from_schema(s: Schema) -> (r: Self) {
        NumberSchema(s)
    }
}

impl Clone for NumberSchema {
    fn clone(&self) -> (r: Self)
        ensures
            same_schema(r.0, self.0),
    {
        NumberSchema(self.0.clone())
    }
}

impl From<NumberSchema> for Schema {
    fn from(b: NumberSchema) -> (r: Schema) {
        b.0
    }
}

impl vstd::std_specs::convert::FromSpecImpl<NumberSchema> for Schema {
    open spec fn obeys_from_spec() -> bool {
        true
    }

    open spec fn from_spec(v: NumberSchema) -> Schema {
        v.0
    }
}

/// A schema for numbers: integers and finite floats.
pub fn number() -> (r: NumberSchema)
    ensures
        fresh(r.0, SchemaKind::Number),
{
    NumberSchema(Schema::new(SchemaKind::Number))
}

/// Builder returned by [`boolean`].
pub struct BooleanSchema(pub Schema);

impl Modify for BooleanSchema {
    open spec fn schema_of(&self) -> Schema {
        self.0
    }

    fn into_schema(self) -> (r: Schema) {
        self.0
    }

    fn from_schema(s: Schema) -> (r: Self) {
        BooleanSchema(s)
    }
}

impl Clone for BooleanSchema {
    fn clone(&self) -> (r: Self)
        ensures
            same_schema(r.0, self.0),
    {
        BooleanSchema(self.0.clone())
    }
}

impl From<BooleanSchema> for Schema {
    fn from(b: BooleanSchema) -> (r: Schema) {
        b.0
    }
}

impl vstd::std_specs::convert::FromSpecImpl<BooleanSchema> for Schema {
    open spec fn obeys_from_spec() -> bool {
        true
    }

    open spec fn from_spec(v: BooleanSchema) -> Schema {
        v.0
    }
}

/// A schema for booleans.
pub fn boolean() -> (r: BooleanSchema)
    ensures
        fresh(r.0, SchemaKind::Boolean),
{
    BooleanSchema(Schema::new(SchemaKind::Boolean))
}

/// Builder returned by [`enumerate`].
pub struct EnumSchema(pub Schema);

impl Modify for EnumSchema {
    open spec fn schema_of(&self) -> Schema {
        self.0
    }

    fn into_schema(self) -> (r: Schema) {
        self.0
    }

    fn from_schema(s: Schema) -> (r: Self) {
        EnumSchema(s)
    }
}

impl Clone for EnumSchema {
    fn clone(&self) -> (r: Self)
        ensures
            same_schema(r.0, self.0),
    {
        EnumSchema(self.0.clone())
    }
}

impl From<EnumSchema> for Schema {
    fn from(b: EnumSchema) -> (r: Schema) {
        b.0
    }
}

impl vstd::std_specs::convert::FromSpecImpl<EnumSchema> for Schema {
    open spec fn obeys_from_spec() -> bool {
        true
    }

    open spec fn from_spec(v: EnumSchema) -> Schema {
        v.0
    }
}

/// Builder returned by [`null`].
pub struct NullSchema(pub Schema);

impl Modify for NullSchema {
    open spec fn schema_of(&self) -> Schema {
        self.0
    }

    fn into_schema(self) -> (r: Schema) {
        self.0
    }

    fn from_schema(s: Schema) -> (r: Self) {
        NullSchema(s)
    }
}

impl Clone for NullSchema {
    fn clone(&self) -> (r: Self)
        ensures
            same_schema(r.0, self.0),
    {
        NullSchema(self.0.clone())
    }
}

impl From<NullSchema> for Schema {
    fn from(b: NullSchema) -> (r: Schema) {
        b.0
    }
}

impl vstd::std_specs::convert::FromSpecImpl<NullSchema> for Schema {
    open spec fn obeys_from_spec() -> bool {
        true
    }

    open spec fn from_spec(v: NullSchema) -> Schema {
        v.0
    }
}

/// A schema for null.
pub fn null() -> (r: NullSchema)
    ensures
        fresh(r.0, SchemaKind::Null),
{
    NullSchema(Schema::new(SchemaKind::Null))
}

/// Builder returned by [`object`].
pub struct ObjectSchema(pub Schema);

impl Modify for ObjectSchema {
    open spec fn schema_of(&self) -> Schema {
        self.0
    }

    fn into_schema(self) -> (r: Schema) {
        self.0
    }

    fn from_schema(s: Schema) -> (r: Self) {
        ObjectSchema(s)
    }
}

impl Clone for ObjectSchema {
    fn clone(&self) -> (r: Self)
        ensures
            same_schema(r.0, self.0),
    {
        ObjectSchema(self.0.clone())
    }
}

impl From<ObjectSchema> for Schema {
    fn from(b: ObjectSchema) -> (r: Schema) {
        b.0
    }
}

impl vstd::std_specs::convert::FromSpecImpl<ObjectSchema> for Schema {
    open spec fn obeys_from_spec() -> bool {
        true
    }

    open spec fn from_spec(v: ObjectSchema) -> Schema {
        v.0
    }
}

/// Builder returned by [`array`].
pub struct ArraySchema(pub Schema);

impl Modify for ArraySchema {
    open spec fn schema_of(&self) -> Schema {
        self.0
    }

    fn into_schema(self) -> (r: Schema) {
        self.0
    }

    fn from_schema(s: Schema) -> (r: Self) {
        ArraySchema(s)
    }
}

impl Clone for ArraySchema {
    fn clone(&self) -> (r: Self)
        ensures
            same_schema(r.0, self.0),
    {
        ArraySchema(self.0.clone())
    }
}

impl From<ArraySchema> for Schema {
    fn from(b: ArraySchema) -> (r: Schema) {
        b.0
    }
}

impl vstd::std_specs::convert::FromSpecImpl<ArraySchema> for Schema {
    open spec fn obeys_from_spec() -> bool {
        true
    }

    open spec fn from_spec(v: ArraySchema) -> Schema {
        v.0
    }
}

/// Builder returned by [`record`].
pub struct RecordSchema(pub Schema);

impl Modify for RecordSchema {
    open spec fn schema_of(&self) -> Schema {
        self.0
    }

    fn into_schema(self) -> (r: Schema) {
        self.0
    }

    fn from_schema(s: Schema) -> (r: Self) {
        RecordSchema(s)
    }
}

impl Clone for RecordSchema {
    fn clone(&self) -> (r: Self)
        ensures
            same_schema(r.0, self.0),
    {
        RecordSchema(self.0.clone())
    }
}

impl From<RecordSchema> for Schema {
    fn from(b: RecordSchema) -> (r: Schema) {
        b.0
    }
}

impl vstd::std_specs::convert::FromSpecImpl<RecordSchema> for Schema {
    open spec fn obeys_from_spec() -> bool {
        true
    }

    open spec fn from_spec(v: RecordSchema) -> Schema {
        v.0
    }
}

/// Builder returned by [`tuple`].
pub struct TupleSchema(pub Schema);

impl Modify for TupleSchema {
    open spec fn schema_of(&self) -> Schema {
        self.0
    }

    fn into_schema(self) -> (r: Schema) {
        self.0
    }

    fn from_schema(s: Schema) -> (r: Self) {
        TupleSchema(s)
    }
}

impl Clone for TupleSchema {
    fn clone(&self) -> (r: Self)
        ensures
            same_schema(r.0, self.0),
    {
        TupleSchema(self.0.clone())
    }
}

impl From<TupleSchema> for Schema {
    fn from(b: TupleSchema) -> (r: Schema) {
        b.0
    }
}

impl vstd::std_specs::convert::FromSpecImpl<TupleSchema> for Schema {
    open spec fn obeys_from_spec() -> bool {
        true
    }

    open spec fn from_spec(v: TupleSchema) -> Schema {
        v.0
    }
}

/// Builder returned by [`union`].
pub struct UnionSchema(pub Schema);

impl Modify for UnionSchema {
    open spec fn schema_of(&self) -> Schema {
        self.0
    }

    fn into_schema(self) -> (r: Schema) {
        self.0
    }

    fn from_schema(s: Schema) -> (r: Self) {
        UnionSchema(s)
    }
}

impl Clone for UnionSchema {
    fn clone(&self) -> (r: Self)
        ensures
            same_schema(r.0, self.0),
    {
        UnionSchema(self.0.clone())
    }
}

impl From<UnionSchema> for Schema {
    fn from(b: UnionSchema) -> (r: Schema) {
        b.0
    }
}

impl vstd::std_specs::convert::FromSpecImpl<UnionSchema> for Schema {
    open spec fn obeys_from_spec() -> bool {
        true
    }

    open spec fn from_spec(v: UnionSchema) -> Schema {
        v.0
    }
}

/// Builder returned by [`discriminated_union`].
pub struct DiscriminatedUnionSchema(pub Schema);

impl Modify for DiscriminatedUnionSchema {
    open spec fn schema_of(&self) -> Schema {
        self.0
    }

    fn into_schema(self) -> (r: Schema) {
        self.0
    }

    fn from_schema(s: Schema) -> (r: Self) {
        DiscriminatedUnionSchema(s)
    }
}

impl Clone for DiscriminatedUnionSchema {
    fn clone(&self) -> (r: Self)
        ensures
            same_schema(r.0, self.0),
    {
        DiscriminatedUnionSchema(self.0.clone())
    }
}

impl From<DiscriminatedUnionSchema> for Schema {
    fn from(b: DiscriminatedUnionSchema) -> (r: Schema) {
        b.0
    }
}

impl vstd::std_specs::convert::FromSpecImpl<DiscriminatedUnionSchema> for Schema {
    open spec fn obeys_from_spec() -> bool {
        true
    }

    open spec fn from_spec(v: DiscriminatedUnionSchema) -> Schema {
        v.0
    }
}

/// Builder returned by [`literal`].
pub struct LiteralSchema(pub Schema);

impl Modify for LiteralSchema {
    open spec fn schema_of(&self) -> Schema {
        self.0
    }

    fn into_schema(self) -> (r: Schema) {
        self.0
    }

    fn from_schema(s: Schema) -> (r: Self) {
        LiteralSchema(s)
    }
}

impl Clone for LiteralSchema {
    fn clone(&self) -> (r: Self)
        ensures
            same_schema(r.0, self.0),
    {
        LiteralSchema(self.0.clone())
    }
}

impl From<LiteralSchema> for Schema {
    fn from(b: LiteralSchema) -> (r: Schema) {
        b.0
    }
}

impl vstd::std_specs::convert::FromSpecImpl<LiteralSchema> for Schema {
    open spec fn obeys_from_spec() -> bool {
        true
    }

    open spec fn from_spec(v: LiteralSchema) -> Schema {
        v.0
    }
}

/// Builder returned by [`lazy`].
pub struct LazySchema(pub Schema);

impl Modify for LazySchema {
    open spec fn schema_of(&self) -> Schema {
        self.0
    }

    fn into_schema(self) -> (r: Schema) {
        self.0
    }

    fn from_schema(s: Schema) -> (r: Self) {
        LazySchema(s)
    }
}

impl Clone for LazySchema {
    fn clone(&self) -> (r: Self)
        ensures
            same_schema(r.0, self.0),
    {
        LazySchema(self.0.clone())
    }
}

impl From<LazySchema> for Schema {
    fn from(b: LazySchema) -> (r: Schema) {
        b.0
    }
}

impl vstd::std_specs::convert::FromSpecImpl<LazySchema> for Schema {
    open spec fn obeys_from_spec() -> bool {
        true
    }

    open spec fn from_spec(v: LazySchema) -> Schema {
        v.0
    }
}

/// Builder returned by [`buffer`].
pub struct BufferSchema(pub Schema);

impl Modify for BufferSchema {
    open spec fn schema_of(&self) -> Schema {
        self.0
    }

    fn into_schema(self) -> (r: Schema) {
        self.0
    }

    fn from_schema(s: Schema) -> (r: Self) {
        BufferSchema(s)
    }
}

impl Clone for BufferSchema {
    fn clone(&self) -> (r: Self)
        ensures
            same_schema(r.0, self.0),
    {
        BufferSchema(self.0.clone())
    }
}

impl From<BufferSchema> for Schema {
    fn from(b: BufferSchema) -> (r: Schema) {
        b.0
    }
}

impl vstd::std_specs::convert::FromSpecImpl<BufferSchema> for Schema {
    open spec fn obeys_from_spec() -> bool {
        true
    }

    open spec fn from_spec(v: BufferSchema) -> Schema {
        v.0
    }
}

/// A schema for byte buffers; nothing else is coerced into one.
pub fn buffer() -> (r: BufferSchema)
    ensures
        fresh(r.0, SchemaKind::Buffer),
{
    BufferSchema(Schema::new(SchemaKind::Buffer))
}

/// Builder returned by [`uri`].
pub struct UriSchema(pub Schema);

impl Modify for UriSchema {
    open spec fn schema_of(&self) -> Schema {
        self.0
    }

    fn into_schema(self) -> (r: Schema) {
        self.0
    }

    fn from_schema(s: Schema) -> (r: Self) {
        UriSchema(s)
    }
}

impl Clone for UriSchema {
    fn clone(&self) -> (r: Self)
        ensures
            same_schema(r.0, self.0),
    {
        UriSchema(self.0.clone())
    }
}

impl From<UriSchema> for Schema {
    fn from(b: UriSchema) -> (r: Schema) {
        b.0
    }
}

impl vstd::std_specs::convert::FromSpecImpl<UriSchema> for Schema {
    open spec fn obeys_from_spec() -> bool {
        true
    }

    open spec fn from_spec(v: UriSchema) -> Schema {
        v.0
    }
}

/// A schema for URIs: a scheme, a colon and a non-empty rest.
pub fn uri() -> (r: UriSchema)
    ensures
        fresh(r.0, SchemaKind::Uri),
{
    UriSchema(Schema::new(SchemaKind::Uri))
}

/// Builder returned by [`url`].
pub struct UrlSchema(pub Schema);

impl Modify for UrlSchema {
    open spec fn schema_of(&self) -> Schema {
        self.0
    }

    fn into_schema(self) -> (r: Schema) {
        self.0
    }

    fn from_schema(s: Schema) -> (r: Self) {
        UrlSchema(s)
    }
}

impl Clone for UrlSchema {
    fn clone(&self) -> (r: Self)
        ensures
            same_schema(r.0, self.0),
    {
        UrlSchema(self.0.clone())
    }
}

impl From<UrlSchema> for Schema {
    fn from(b: UrlSchema) -> (r: Schema) {
        b.0
    }
}

impl vstd::std_specs::convert::FromSpecImpl<UrlSchema> for Schema {
    open spec fn obeys_from_spec() -> bool {
        true
    }

    open spec fn from_spec(v: UrlSchema) -> Schema {
        v.0
    }
}

/// A schema for http and https URLs.
pub fn url() -> (r: UrlSchema)
    ensures
        fresh(r.0, SchemaKind::Url),
{
    UrlSchema(Schema::new(SchemaKind::Url))
}

/// Builder returned by [`json`].
pub struct JsonSchema(pub Schema);

impl Modify for JsonSchema {
    open spec fn schema_of(&self) -> Schema {
        self.0
    }

    fn into_schema(self) -> (r: Schema) {
        self.0
    }

    fn from_schema(s: Schema) -> (r: Self) {
        JsonSchema(s)
    }
}

impl Clone for JsonSchema {
    fn clone(&self) -> (r: Self)
        ensures
            same_schema(r.0, self.0),
    {
        JsonSchema(self.0.clone())
    }
}

impl From<JsonSchema> for Schema {
    fn from(b: JsonSchema) -> (r: Schema) {
        b.0
    }
}

impl vstd::std_specs::convert::FromSpecImpl<JsonSchema> for Schema {
    open spec fn obeys_from_spec() -> bool {
        true
    }

    open spec fn from_spec(v: JsonSchema) -> Schema {
        v.0
    }
}

/// A schema that accepts any value as JSON-like data.
pub fn json() -> (r: JsonSchema)
    ensures
        fresh(r.0, SchemaKind::Json),
{
    JsonSchema(Schema::new(SchemaKind::Json))
}

/// Builder returned by [`jsonschema`].
pub struct JsonschemaSchema(pub Schema);

impl Modify for JsonschemaSchema {
    open spec fn schema_of(&self) -> Schema {
        self.0
    }

    fn into_schema(self) -> (r: Schema) {
        self.0
    }

    fn from_schema(s: Schema) -> (r: Self) {
        JsonschemaSchema(s)
    }
}

impl Clone for JsonschemaSchema {
    fn clone(&self) -> (r: Self)
        ensures
            same_schema(r.0, self.0),
    {
        JsonschemaSchema(self.0.clone())
    }
}

impl From<JsonschemaSchema> for Schema {
    fn from(b: JsonschemaSchema) -> (r: Schema) {
        b.0
    }
}

impl vstd::std_specs::convert::FromSpecImpl<JsonschemaSchema> for Schema {
    open spec fn obeys_from_spec() -> bool {
        true
    }

    open spec fn from_spec(v: JsonschemaSchema) -> Schema {
        v.0
    }
}

/// A schema that accepts any value as a JSON Schema document.
pub fn jsonschema() -> (r: JsonschemaSchema)
    ensures
        fresh(r.0, SchemaKind::JsonSchema),
{
    JsonschemaSchema(Schema::new(SchemaKind::JsonSchema))
}

/// Appends a validator.
fn push_validator(s: Schema, v: Validator) -> (r: Schema)
    ensures
        adds_validator(r, s, v),
{
    let mut s = s;
    s.validators.push(v);
    s
}

impl StringSchema {
    /// Strings shorter than `n` characters fail with `string_too_short`.
    pub fn min(self, n: usize) -> (r: Self)
        ensures
            adds_validator(r.0, self.0, Validator::MinLength(n)),
    {
        StringSchema(push_validator(self.0, Validator::MinLength(n)))
    }

    /// Strings longer than `n` characters fail with `string_too_long`.
    pub fn max(self, n: usize) -> (r: Self)
        ensures
            adds_validator(r.0, self.0, Validator::MaxLength(n)),
    {
        StringSchema(push_validator(self.0, Validator::MaxLength(n)))
    }

    /// Strings must match the regular expression `pattern`; a pattern that does not
    /// compile makes every string fail with `pattern_invalid`.
    pub fn regex(self, pattern: &str) -> (r: Self)
        ensures
            r.0 == (Schema { validators: r.0.validators, ..self.0 }),
            r.0.validators@.drop_last() == self.0.validators@,
            r.0.validators@.len() == self.0.validators@.len() + 1,
            r.0.validators@.last() matches Validator::Pattern(p) && p@ == pattern@,
    {
        StringSchema(push_validator(self.0, Validator::Pattern(owned(pattern))))
    }

    /// The same as [`StringSchema::regex`].
    pub fn pattern(self, p: &str) -> (r: Self)
        ensures
            r.0 == (Schema { validators: r.0.validators, ..self.0 }),
            r.0.validators@.drop_last() == self.0.validators@,
            r.0.validators@.len() == self.0.validators@.len() + 1,
            r.0.validators@.last() matches Validator::Pattern(q) && q@ == p@,
    {
        self.regex(p)
    }

    /// Strings must be email addresses.
    pub fn email(self) -> (r: Self)
        ensures
            adds_validator(r.0, self.0, Validator::Email),
    {
        StringSchema(push_validator(self.0, Validator::Email))
    }

    /// Strings must be UUIDs.
    pub fn uuid(self) -> (r: Self)
        ensures
            adds_validator(r.0, self.0, Validator::Uuid),
    {
        StringSchema(push_validator(self.0, Validator::Uuid))
    }

    /// Records a multi-line editing hint of `lines` lines in the metadata, under
    /// `x-ui-multiline`.
    pub fn multiline(self, lines: u32) -> (r: Self)
        ensures
            r.0 == with_modifiers(self.0, Modifiers { meta: r.0.modifiers.meta, ..self.0.modifiers }),
            r.0.modifiers.meta@ == map_insert(self.0.modifiers.meta@, "x-ui-multiline"@, Val::U64(lines as u64)),
    {
        let mut s = self.0;
        s.modifiers.meta.insert(owned("x-ui-multiline"), ZerxValue::U64(lines as u64));
        StringSchema(s)
    }
}

impl NumberSchema {
    /// Numbers below `bound` fail with `number_too_small`.
    pub fn min(self, bound: Float) -> (r: Self)
        ensures
            adds_validator(r.0, self.0, Validator::MinValue(bound)),
    {
        NumberSchema(push_validator(self.0, Validator::MinValue(bound)))
    }

    /// Numbers above `bound` fail with `number_too_large`.
    pub fn max(self, bound: Float) -> (r: Self)
        ensures
            adds_validator(r.0, self.0, Validator::MaxValue(bound)),
    {
        NumberSchema(push_validator(self.0, Validator::MaxValue(bound)))
    }

    /// Floating-point numbers with a fractional part fail with `not_integer`.
    pub fn integer(self) -> (r: Self)
        ensures
            adds_validator(r.0, self.0, Validator::Int),
    {
        NumberSchema(push_validator(self.0, Validator::Int))
    }
}

impl ArraySchema {
    /// Arrays with fewer than `n` items fail with `array_too_short`.
    pub fn min(self, n: usize) -> (r: Self)
        ensures
            adds_validator(r.0, self.0, Validator::ArrayMinLength(n)),
    {
        ArraySchema(push_validator(self.0, Validator::ArrayMinLength(n)))
    }

    /// Arrays with more than `n` items fail with `array_too_long`.
    pub fn max(self, n: usize) -> (r: Self)
        ensures
            adds_validator(r.0, self.0, Validator::ArrayMaxLength(n)),
    {
        ArraySchema(push_validator(self.0, Validator::ArrayMaxLength(n)))
    }
}

impl BufferSchema {
    /// Sets the buffer's MIME type (the same annotation as `mime_format`).
    pub fn mime(self, mime_type: &str) -> (r: Self)
        ensures
            r.0 == with_modifiers(self.0, Modifiers { mime: r.0.modifiers.mime, ..self.0.modifiers }),
            opt_view(r.0.modifiers.mime) == Some(mime_type@),
    {
        let mut s = self.0;
        s.modifiers.mime = Some(owned(mime_type));
        BufferSchema(s)
    }
}

/// A schema for strings drawn from `values`.
pub fn enumerate(values: Vec<&str>) -> (r: EnumSchema)
    ensures
        r.0.kind matches SchemaKind::Enum(set) && strs(set@) == Seq::new(values@.len(), |i: int| values@[i]@),
        plain_modifiers(r.0.modifiers),
        r.0.validators@.len() == 0,
{
    let mut set: Vec<String> = Vec::new();
    let mut i: usize = 0;
    while i < values.len()
        invariant
            i <= values@.len(),
            strs(set@) == Seq::new(i as nat, |j: int| values@[j]@),
        decreases values.len() - i,
    {
        let ghost prev = set@;
        set.push(owned(values[i]));
        proof {
            lemma_strs_push(prev, set@.last());
            assert(Seq::new((i + 1) as nat, |j: int| values@[j]@) =~= Seq::new(i as nat, |j: int| values@[j]@).push(values@[i as int]@));
        }
        i += 1;
    }
    EnumSchema(Schema::new(SchemaKind::Enum(set)))
}

/// A schema for arrays whose items all satisfy `item`.
pub fn array(item: Schema) -> (r: ArraySchema)
    ensures
        fresh(r.0, SchemaKind::Array(Box::new(item))),
{
    ArraySchema(Schema::new(SchemaKind::Array(Box::new(item))))
}

/// A schema for string-keyed maps whose values all satisfy `value`.
pub fn record(value: Schema) -> (r: RecordSchema)
    ensures
        fresh(r.0, SchemaKind::Record(Box::new(value))),
{
    RecordSchema(Schema::new(SchemaKind::Record(Box::new(value))))
}

/// A schema for fixed-length arrays whose members satisfy `items` in order.
pub fn tuple(items: Vec<Schema>) -> (r: TupleSchema)
    ensures
        fresh(r.0, SchemaKind::Tuple(items)),
{
    TupleSchema(Schema::new(SchemaKind::Tuple(items)))
}

/// A schema satisfied by whatever satisfies one of `variants`, tried in order.
pub fn union(variants: Vec<Schema>) -> (r: UnionSchema)
    ensures
        fresh(r.0, SchemaKind::Union(variants)),
{
    UnionSchema(Schema::new(SchemaKind::Union(variants)))
}

/// A schema satisfied by exactly the constant `value`.
pub fn literal(value: ZerxValue) -> (r: LiteralSchema)
    ensures
        fresh(r.0, SchemaKind::Literal(value)),
{
    LiteralSchema(Schema::new(SchemaKind::Literal(value)))
}

/// A schema the host resolves on demand, under `id`: the way to build recursive
/// structures.
pub fn lazy(id: u64) -> (r: LazySchema)
    ensures
        fresh(r.0, SchemaKind::Lazy(id)),
{
    LazySchema(Schema::new(SchemaKind::Lazy(id)))
}

// ---------------------------------------------------------------------------
// Objects
// ---------------------------------------------------------------------------

/// A shape as a sequence of key and field schema.
pub open spec fn shape_view(shape: Seq<(String, Schema)>) -> Seq<(Seq<char>, Schema)> {
    Seq::new(shape.len(), |i: int| (shape[i].0@, shape[i].1))
}

/// Fields handed to a builder, as a sequence of key and schema.
pub open spec fn fields_view(fields: Seq<(&str, Schema)>) -> Seq<(Seq<char>, Schema)> {
    Seq::new(fields.len(), |i: int| (fields[i].0@, fields[i].1))
}

/// `shape` with `fields` put in, in order: a key already present keeps its place and
/// takes the new schema, a new key goes to the end.
pub open spec fn put_all(shape: Seq<(Seq<char>, Schema)>, fields: Seq<(Seq<char>, Schema)>) -> Seq<(Seq<char>, Schema)>
    decreases fields.len(),
{
    if fields.len() == 0 {
        shape
    } else {
        map_insert(put_all(shape, fields.drop_last()), fields.last().0, fields.last().1)
    }
}

/// Whether a field stays when fields named in `keys`, and (per switch) the read-only or
/// write-only ones, are dropped.
pub open spec fn field_kept(f: (Seq<char>, Schema), keys: Seq<Seq<char>>, ro: bool, wo: bool) -> bool {
    !keys.contains(f.0) && !(ro && f.1.modifiers.read_only) && !(wo && f.1.modifiers.write_only)
}

/// The fields of `shape` that stay, in order.
pub open spec fn kept_fields(shape: Seq<(Seq<char>, Schema)>, keys: Seq<Seq<char>>, ro: bool, wo: bool) -> Seq<(Seq<char>, Schema)>
    decreases shape.len(),
{
    if shape.len() == 0 {
        shape
    } else {
        let rest = kept_fields(shape.drop_last(), keys, ro, wo);
        if field_kept(shape.last(), keys, ro, wo) {
            rest.push(shape.last())
        } else {
            rest
        }
    }
}

/// `v` with each of `keys` appended unless already present.
pub open spec fn add_keys(v: Seq<Seq<char>>, keys: Seq<Seq<char>>) -> Seq<Seq<char>>
    decreases keys.len(),
{
    if keys.len() == 0 {
        v
    } else {
        let w = add_keys(v, keys.drop_last());
        if w.contains(keys.last()) {
            w
        } else {
            w.push(keys.last())
        }
    }
}

/// Keys handed to a builder.
pub open spec fn keys_view(keys: Seq<&str>) -> Seq<Seq<char>> {
    Seq::new(keys.len(), |i: int| keys[i]@)
}

/// `s` with `f` applied to its object body; other kinds are left as they are.
pub open spec fn map_body(s: Schema, f: spec_fn(ObjectBody) -> ObjectBody) -> Schema {
    match s.kind {
        SchemaKind::Object(b) => Schema { kind: SchemaKind::Object(f(b)), ..s },
        _ => s,
    }
}

/// Whether `r` is `s` with an object body whose shape changed as `shape` says and
/// nothing else changed; other kinds are left as they are.
pub open spec fn reshaped(r: Schema, s: Schema, shape: spec_fn(Seq<(Seq<char>, Schema)>) -> Seq<(Seq<char>, Schema)>) -> bool {
    match s.kind {
        SchemaKind::Object(b0) => r.kind matches SchemaKind::Object(b1)
            && r == (Schema { kind: SchemaKind::Object(ObjectBody { shape: b1.shape, ..b0 }), ..s })
            && shape_view(b1.shape@) == shape(shape_view(b0.shape@)),
        _ => r == s,
    }
}

/// Puts `value` under `key` in `shape`.
fn put_field(shape: &mut Vec<(String, Schema)>, key: String, value: Schema)
    ensures
        shape_view(final(shape)@) == map_insert(shape_view(old(shape)@), key@, value),
{
    let ghost before = shape_view(shape@);
    let mut i: usize = 0;
    while i < shape.len()
        invariant
            i <= shape@.len(),
            before == shape_view(shape@),
            before == shape_view(old(shape)@),
            forall|j: int| 0 <= j < i ==> before[j].0 != key@,
        decreases shape.len() - i,
    {
        if shape[i].0 == key {
            proof {
                lemma_key_pos_first(before, key@, i as int);
            }
            let ghost k = key@;
            shape.set(i, (key, value));
            proof {
                assert(shape_view(shape@) =~= map_insert(before, k, value));
            }
            return;
        }
        i += 1;
    }
    proof {
        lemma_key_pos_none(before, key@);
    }
    let ghost k = key@;
    shape.push((key, value));
    proof {
        assert(shape_view(shape@) =~= map_insert(before, k, value));
    }
}

/// Puts each of `fields` into `shape`, in order.
fn put_fields(shape: &mut Vec<(String, Schema)>, fields: Vec<(&str, Schema)>)
    ensures
        shape_view(final(shape)@) == put_all(shape_view(old(shape)@), fields_view(fields@)),
{
    let ghost start = shape_view(shape@);
    let ghost all = fields@;
    let mut rest = fields;
    let n = rest.len();
    let mut i: usize = 0;
    while rest.len() > 0
        invariant
            i <= all.len(),
            all.len() == n,
            rest@ == all.skip(i as int),
            rest@.len() + i == all.len(),
            shape_view(shape@) == put_all(start, fields_view(all.take(i as int))),
        decreases rest.len(),
    {
        let (k, v) = rest.remove(0);
        proof {
            assert(all.skip(i as int).remove(0) =~= all.skip(i + 1));
            assert(fields_view(all.take(i + 1)).drop_last() =~= fields_view(all.take(i as int)));
        }
        put_field(shape, owned(k), v);
        i += 1;
    }
    proof {
        assert(all.take(i as int) =~= all);
    }
}

/// The fields of `shape` that stay, in order.
fn retain_fields(shape: Vec<(String, Schema)>, keys: &Vec<String>, ro: bool, wo: bool) -> (r: Vec<(String, Schema)>)
    ensures
        shape_view(r@) == kept_fields(shape_view(shape@), strs(keys@), ro, wo),
{
    let ghost all = shape@;
    let mut rest = shape;
    let n = rest.len();
    let mut out: Vec<(String, Schema)> = Vec::new();
    let mut i: usize = 0;
    proof {
        assert(shape_view(all.take(0)) =~= Seq::<(Seq<char>, Schema)>::empty());
        assert(shape_view(out@) =~= Seq::<(Seq<char>, Schema)>::empty());
    }
    while rest.len() > 0
        invariant
            i <= all.len(),
            all.len() == n,
            rest@ == all.skip(i as int),
            rest@.len() + i == all.len(),
            shape_view(out@) == kept_fields(shape_view(all.take(i as int)), strs(keys@), ro, wo),
        decreases rest.len(),
    {
        let e = rest.remove(0);
        proof {
            assert(all.skip(i as int).remove(0) =~= all.skip(i + 1));
            assert(shape_view(all.take(i + 1)).drop_last() =~= shape_view(all.take(i as int)));
        }
        let drop = contains_string(keys, &e.0) || (ro && e.1.modifiers.read_only) || (wo && e.1.modifiers.write_only);
        if !drop {
            let ghost prev = out@;
            out.push(e);
            proof {
                assert(shape_view(out@) =~= shape_view(prev).push((e.0@, e.1)));
            }
        }
        i += 1;
    }
    proof {
        assert(all.take(i as int) =~= all);
    }
    out
}

fn contains_string(set: &Vec<String>, s: &String) -> (r: bool)
    ensures
        r == strs(set@).contains(s@),
{
    let mut i: usize = 0;
    while i < set.len()
        invariant
            i <= set@.len(),
            forall|j: int| 0 <= j < i ==> set@[j]@ != s@,
        decreases set.len() - i,
    {
        if set[i] == *s {
            assert(strs(set@)[i as int] == s@);
            return true;
        }
        i += 1;
    }
    false
}

/// A strict object schema with `fields`, in order; a repeated key keeps its first place
/// and takes the last schema given for it.
pub fn object(fields: Vec<(&str, Schema)>) -> (r: ObjectSchema)
    ensures
        r.0.kind matches SchemaKind::Object(body) && {
            &&& shape_view(body.shape@) == put_all(Seq::empty(), fields_view(fields@))
            &&& body.mode is Strict
            &&& !body.all_optional
            &&& body.prestrip_keys@.len() == 0
            &&& !body.prestrip_read_only
            &&& !body.prestrip_write_only
        },
        plain_modifiers(r.0.modifiers),
        r.0.validators@.len() == 0,
{
    let mut shape: Vec<(String, Schema)> = Vec::new();
    proof {
        assert(shape_view(shape@) =~= Seq::<(Seq<char>, Schema)>::empty());
    }
    put_fields(&mut shape, fields);
    let body = ObjectBody {
        shape,
        mode: ObjectMode::Strict,
        all_optional: false,
        prestrip_keys: Vec::new(),
        prestrip_read_only: false,
        prestrip_write_only: false,
    };
    ObjectSchema(Schema::new(SchemaKind::Object(body)))
}

impl ObjectSchema {
    /// Unknown properties are errors (the default).
    pub fn strict(self) -> (r: Self)
        ensures
            r.0 == map_body(self.0, |b: ObjectBody| ObjectBody { mode: ObjectMode::Strict, ..b }),
    {
        let mut s = self.0;
        if let SchemaKind::Object(body) = &mut s.kind {
            body.mode = ObjectMode::Strict;
        }
        ObjectSchema(s)
    }

    /// Unknown properties are copied to the output.
    pub fn passthrough(self) -> (r: Self)
        ensures
            r.0 == map_body(self.0, |b: ObjectBody| ObjectBody { mode: ObjectMode::Passthrough, ..b }),
    {
        let mut s = self.0;
        if let SchemaKind::Object(body) = &mut s.kind {
            body.mode = ObjectMode::Passthrough;
        }
        ObjectSchema(s)
    }

    /// Unknown properties are dropped.
    pub fn strip(self) -> (r: Self)
        ensures
            r.0 == map_body(self.0, |b: ObjectBody| ObjectBody { mode: ObjectMode::Strip, ..b }),
    {
        let mut s = self.0;
        if let SchemaKind::Object(body) = &mut s.kind {
            body.mode = ObjectMode::Strip;
        }
        ObjectSchema(s)
    }

    /// Every property becomes optional: a missing one is no longer `required`.
    pub fn partial(self) -> (r: Self)
        ensures
            r.0 == map_body(self.0, |b: ObjectBody| ObjectBody { all_optional: true, ..b }),
    {
        let mut s = self.0;
        if let SchemaKind::Object(body) = &mut s.kind {
            body.all_optional = true;
        }
        ObjectSchema(s)
    }

    /// Adds `fields`, in order; a key already in the shape keeps its place and takes the
    /// new schema.
    pub fn extend(self, fields: Vec<(&str, Schema)>) -> (r: Self)
        ensures
            reshaped(r.0, self.0, |shape: Seq<(Seq<char>, Schema)>| put_all(shape, fields_view(fields@))),
    {
        let mut s = self.0;
        if let SchemaKind::Object(body) = &mut s.kind {
            put_fields(&mut body.shape, fields);
        }
        ObjectSchema(s)
    }

    /// Removes the fields named in `keys`.
    pub fn omit(self, keys: Vec<&str>) -> (r: Self)
        ensures
            reshaped(r.0, self.0, |shape: Seq<(Seq<char>, Schema)>| kept_fields(shape, keys_view(keys@), false, false)),
    {
        let drop = owned_keys(&keys);
        let mut s = self.0;
        if let SchemaKind::Object(body) = &mut s.kind {
            let mut shape: Vec<(String, Schema)> = Vec::new();
            std::mem::swap(&mut shape, &mut body.shape);
            body.shape = retain_fields(shape, &drop, false, false);
        }
        ObjectSchema(s)
    }

    /// Removes the read-only fields.
    pub fn omit_read_only(self) -> (r: Self)
        ensures
            reshaped(r.0, self.0, |shape: Seq<(Seq<char>, Schema)>| kept_fields(shape, Seq::empty(), true, false)),
    {
        let none: Vec<String> = Vec::new();
        proof {
            assert(strs(none@) =~= Seq::<Seq<char>>::empty());
        }
        let mut s = self.0;
        if let SchemaKind::Object(body) = &mut s.kind {
            let mut shape: Vec<(String, Schema)> = Vec::new();
            std::mem::swap(&mut shape, &mut body.shape);
            body.shape = retain_fields(shape, &none, true, false);
        }
        ObjectSchema(s)
    }

    /// Removes the write-only fields.
    pub fn omit_write_only(self) -> (r: Self)
        ensures
            reshaped(r.0, self.0, |shape: Seq<(Seq<char>, Schema)>| kept_fields(shape, Seq::empty(), false, true)),
    {
        let none: Vec<String> = Vec::new();
        proof {
            assert(strs(none@) =~= Seq::<Seq<char>>::empty());
        }
        let mut s = self.0;
        if let SchemaKind::Object(body) = &mut s.kind {
            let mut shape: Vec<(String, Schema)> = Vec::new();
            std::mem::swap(&mut shape, &mut body.shape);
            body.shape = retain_fields(shape, &none, false, true);
        }
        ObjectSchema(s)
    }

    /// Drops the input properties named in `keys` before validation, so that a strict
    /// object does not reject them.
    pub fn strip_only(self, keys: Vec<&str>) -> (r: Self)
        ensures
            match self.0.kind {
                SchemaKind::Object(b0) => r.0.kind matches SchemaKind::Object(b1)
                    && r.0 == (Schema { kind: SchemaKind::Object(ObjectBody { prestrip_keys: b1.prestrip_keys, ..b0 }), ..self.0 })
                    && strs(b1.prestrip_keys@) == add_keys(strs(b0.prestrip_keys@), keys_view(keys@)),
                _ => r.0 == self.0,
            },
    {
        let mut s = self.0;
        if let SchemaKind::Object(body) = &mut s.kind {
            add_prestrip_keys(&mut body.prestrip_keys, &keys);
        }
        ObjectSchema(s)
    }

    /// Drops the input properties of read-only fields before validation.
    pub fn strip_read_only(self) -> (r: Self)
        ensures
            r.0 == map_body(self.0, |b: ObjectBody| ObjectBody { prestrip_read_only: true, ..b }),
    {
        let mut s = self.0;
        if let SchemaKind::Object(body) = &mut s.kind {
            body.prestrip_read_only = true;
        }
        ObjectSchema(s)
    }

    /// Drops the input properties of write-only fields before validation.
    pub fn strip_write_only(self) -> (r: Self)
        ensures
            r.0 == map_body(self.0, |b: ObjectBody| ObjectBody { prestrip_write_only: true, ..b }),
    {
        let mut s = self.0;
        if let SchemaKind::Object(body) = &mut s.kind {
            body.prestrip_write_only = true;
        }
        ObjectSchema(s)
    }
}

fn owned_keys(keys: &Vec<&str>) -> (r: Vec<String>)
    ensures
        strs(r@) == keys_view(keys@),
{
    let mut out: Vec<String> = Vec::new();
    let mut i: usize = 0;
    while i < keys.len()
        invariant
            i <= keys@.len(),
            strs(out@) == keys_view(keys@.take(i as int)),
        decreases keys.len() - i,
    {
        let ghost prev = out@;
        out.push(owned(keys[i]));
        proof {
            lemma_strs_push(prev, out@.last());
            assert(keys_view(keys@.take(i + 1)) =~= keys_view(keys@.take(i as int)).push(keys@[i as int]@));
        }
        i += 1;
    }
    proof {
        assert(keys@.take(i as int) =~= keys@);
    }
    out
}

fn add_prestrip_keys(v: &mut Vec<String>, keys: &Vec<&str>)
    ensures
        strs(final(v)@) == add_keys(strs(old(v)@), keys_view(keys@)),
{
    let ghost start = strs(v@);
    let mut i: usize = 0;
    while i < keys.len()
        invariant
            i <= keys@.len(),
            strs(v@) == add_keys(start, keys_view(keys@.take(i as int))),
        decreases keys.len() - i,
    {
        proof {
            assert(keys_view(keys@.take(i + 1)).drop_last() =~= keys_view(keys@.take(i as int)));
        }
        let k = owned(keys[i]);
        if !contains_string(v, &k) {
            let ghost prev = v@;
            v.push(k);
            proof {
                lemma_strs_push(prev, v@.last());
            }
        }
        i += 1;
    }
    proof {
        assert(keys@.take(i as int) =~= keys@);
    }
}

// ---------------------------------------------------------------------------
// Discriminated unions
// ---------------------------------------------------------------------------

/// The content of a discriminator lookup: keys with their variant, and the allowed
/// values as shown in errors; or why the union is invalid.
pub enum DiscView {
    Valid(Seq<(DKey, usize)>, Seq<Seq<char>>),
    Invalid(Seq<char>),
}

pub open spec fn entries_dview(entries: Seq<(DiscriminantKey, usize)>) -> Seq<(DKey, usize)> {
    Seq::new(entries.len(), |i: int| (dkey_view(entries[i].0), entries[i].1))
}

pub open spec fn disc_view(s: DiscriminatorState) -> DiscView {
    match s {
        DiscriminatorState::Valid { entries, allowed } => DiscView::Valid(entries_dview(entries@), strs(allowed@)),
        DiscriminatorState::Invalid(m) => DiscView::Invalid(m@),
    }
}

/// Whether a key is registered among view entries.
pub open spec fn disc_has(entries: Seq<(DKey, usize)>, k: DKey) -> bool {
    exists|i: int| 0 <= i < entries.len() && (#[trigger] entries[i]).0 == k
}

pub open spec fn variant_message(index: int, middle: Seq<char>, key: Seq<char>, tail: Seq<char>) -> Seq<char> {
    "variant "@ + decimal(index as nat) + middle + key + tail
}

/// Registering variant `index` on top of what the earlier variants registered.
pub open spec fn disc_step(key: Seq<char>, variant: Schema, index: int, entries: Seq<(DKey, usize)>, allowed: Seq<Seq<char>>) -> DiscView {
    match variant.kind {
        SchemaKind::Object(body) => match map_get(shape_view(body.shape@), key) {
            None => DiscView::Invalid(variant_message(index, " is missing discriminator field '"@, key, "'"@)),
            Some(fs) => match fs.kind {
                SchemaKind::Literal(c) => if fs.modifiers.optional {
                    DiscView::Invalid(variant_message(index, ": discriminator field '"@, key, "' must not be optional"@))
                } else if fs.modifiers.default is Some {
                    DiscView::Invalid(variant_message(index, ": discriminator field '"@, key, "' must not have a default"@))
                } else if fs.modifiers.nullable {
                    DiscView::Invalid(variant_message(index, ": discriminator field '"@, key, "' must not be nullable"@))
                } else {
                    match dkey_of(c@) {
                        None => DiscView::Invalid("variant "@ + decimal(index as nat) + ": discriminator literal is not a keyable type"@),
                        Some(k) => if disc_has(entries, k) {
                            DiscView::Invalid("duplicate discriminator value '"@ + literal_descriptor(c@) + "' in variant "@ + decimal(index as nat))
                        } else {
                            DiscView::Valid(entries.push((k, index as usize)), allowed.push(literal_descriptor(c@)))
                        },
                    }
                },
                _ => DiscView::Invalid(variant_message(index, ": discriminator field '"@, key, "' is not a literal"@)),
            },
        },
        _ => DiscView::Invalid("variant "@ + decimal(index as nat) + " is not an object schema"@),
    }
}

/// The discriminator lookup of the first `n` variants: each must be an object whose
/// field `key` is a required, non-nullable literal of a keyable type, and no value may
/// repeat.
pub open spec fn disc_upto(key: Seq<char>, variants: Seq<Schema>, n: int) -> DiscView
    decreases n,
{
    if n <= 0 {
        DiscView::Valid(Seq::empty(), Seq::empty())
    } else {
        match disc_upto(key, variants, n - 1) {
            DiscView::Invalid(m) => DiscView::Invalid(m),
            DiscView::Valid(entries, allowed) => disc_step(key, variants[n - 1], n - 1, entries, allowed),
        }
    }
}

proof fn lemma_dkey_lookup_has(entries: Seq<(DiscriminantKey, usize)>, k: DKey)
    ensures
        dkey_lookup(entries, k) is Some <==> disc_has(entries_dview(entries), k),
    decreases entries.len(),
{
    if entries.len() > 0 {
        let init = entries.drop_last();
        lemma_dkey_lookup_has(init, k);
        let ev = entries_dview(entries);
        let iv = entries_dview(init);
        assert(iv =~= ev.drop_last());
        if disc_has(ev, k) && !disc_has(iv, k) {
            let j = choose|j: int| 0 <= j < ev.len() && (#[trigger] ev[j]).0 == k;
            if j < ev.len() - 1 {
                assert(iv[j].0 == k);
            }
        }
        if disc_has(iv, k) {
            let j = choose|j: int| 0 <= j < iv.len() && (#[trigger] iv[j]).0 == k;
            assert(ev[j].0 == k);
        }
        assert(ev[ev.len() - 1].0 == dkey_view(entries.last().0));
    }
}

proof fn lemma_disc_invalid(key: Seq<char>, variants: Seq<Schema>, i: int, n: int)
    requires
        1 <= i <= n,
        disc_upto(key, variants, i) is Invalid,
    ensures
        disc_upto(key, variants, n) == disc_upto(key, variants, i),
    decreases n - i,
{
    if n > i {
        lemma_disc_invalid(key, variants, i, n - 1);
    }
}

/// The position of the first shape field named `key`.
fn find_field(shape: &Vec<(String, Schema)>, key: &str) -> (r: Option<usize>)
    ensures
        match r {
            Some(i) => key_pos(shape_view(shape@), key@) == Some(i as int),
            None => key_pos(shape_view(shape@), key@) is None,
        },
{
    let ghost sv = shape_view(shape@);
    let k = owned(key);
    let mut i: usize = 0;
    while i < shape.len()
        invariant
            i <= shape@.len(),
            k@ == key@,
            sv == shape_view(shape@),
            forall|j: int| 0 <= j < i ==> sv[j].0 != key@,
        decreases shape.len() - i,
    {
        if shape[i].0 == k {
            proof {
                lemma_key_pos_first(sv, key@, i as int);
            }
            return Some(i);
        }
        i += 1;
    }
    proof {
        lemma_key_pos_none(sv, key@);
    }
    None
}

fn variant_error(index: usize, middle: &str, key: &str, tail: &str) -> (r: DiscriminatorState)
    ensures
        disc_view(r) == DiscView::Invalid(variant_message(index as int, middle@, key@, tail@)),
{
    let head = concat("variant ", usize_to_string(index).as_str());
    let msg = concat(concat3(head.as_str(), middle, key).as_str(), tail);
    DiscriminatorState::Invalid(msg)
}

/// Builds the discriminator lookup of a discriminated union keyed by `key`.
pub fn build_discriminator_state(key: &str, variants: &Vec<Schema>) -> (r: DiscriminatorState)
    ensures
        disc_view(r) == disc_upto(key@, variants@, variants@.len() as int),
{
    let mut entries: Vec<(DiscriminantKey, usize)> = Vec::new();
    let mut allowed: Vec<String> = Vec::new();
    let mut i: usize = 0;
    proof {
        assert(entries_dview(entries@) =~= Seq::<(DKey, usize)>::empty());
        assert(strs(allowed@) =~= Seq::<Seq<char>>::empty());
    }
    while i < variants.len()
        invariant
            i <= variants@.len(),
            disc_upto(key@, variants@, i as int) == disc_view(DiscriminatorState::Valid { entries, allowed }),
        decreases variants.len() - i,
    {
        let r = register_variant(key, &variants[i], i, &mut entries, &mut allowed);
        match r {
            Some(invalid) => {
                proof {
                    lemma_disc_invalid(key@, variants@, (i + 1) as int, variants@.len() as int);
                }
                return invalid;
            },
            None => {},
        }
        i += 1;
    }
    DiscriminatorState::Valid { entries, allowed }
}

/// Registers variant `index`: on success extends `entries` and `allowed` and returns
/// `None`; else returns the invalid state.
fn register_variant(
    key: &str,
    variant: &Schema,
    index: usize,
    entries: &mut Vec<(DiscriminantKey, usize)>,
    allowed: &mut Vec<String>,
) -> (r: Option<DiscriminatorState>)
    ensures
        match r {
            Some(st) => st is Invalid
                && disc_view(st) == disc_step(key@, *variant, index as int, entries_dview(old(entries)@), strs(old(allowed)@)),
            None => entries_dview(final(entries)@) == disc_step(key@, *variant, index as int, entries_dview(old(entries)@), strs(old(allowed)@))->Valid_0
                && strs(final(allowed)@) == disc_step(key@, *variant, index as int, entries_dview(old(entries)@), strs(old(allowed)@))->Valid_1
                && disc_step(key@, *variant, index as int, entries_dview(old(entries)@), strs(old(allowed)@)) is Valid,
        },
{
    let body = match &variant.kind {
        SchemaKind::Object(b) => b,
        _ => {
            let head = concat("variant ", usize_to_string(index).as_str());
            return Some(DiscriminatorState::Invalid(concat(head.as_str(), " is not an object schema")));
        },
    };
    let pos = match find_field(&body.shape, key) {
        Some(p) => p,
        None => return Some(variant_error(index, " is missing discriminator field '", key, "'")),
    };
    let field_schema = &body.shape[pos].1;
    assert(map_get(shape_view(body.shape@), key@) == Some(*field_schema));
    let constant = match &field_schema.kind {
        SchemaKind::Literal(c) => c,
        _ => return Some(variant_error(index, ": discriminator field '", key, "' is not a literal")),
    };
    if field_schema.modifiers.optional {
        return Some(variant_error(index, ": discriminator field '", key, "' must not be optional"));
    }
    if field_schema.modifiers.default.is_some() {
        return Some(variant_error(index, ": discriminator field '", key, "' must not have a default"));
    }
    if field_schema.modifiers.nullable {
        return Some(variant_error(index, ": discriminator field '", key, "' must not be nullable"));
    }
    let disc_key = match discriminant_key(constant) {
        Some(k) => k,
        None => {
            let head = concat("variant ", usize_to_string(index).as_str());
            return Some(DiscriminatorState::Invalid(concat(head.as_str(), ": discriminator literal is not a keyable type")));
        },
    };
    let display = literal_descriptor_of(constant);
    proof {
        lemma_dkey_lookup_has(entries@, dkey_view(disc_key));
    }
    match lookup_key(entries, &disc_key) {
        Some(_) => {
            let head = concat3("duplicate discriminator value '", display.as_str(), "' in variant ");
            return Some(DiscriminatorState::Invalid(concat(head.as_str(), usize_to_string(index).as_str())));
        },
        None => {},
    }
    let ghost ev = entries_dview(entries@);
    let ghost av = strs(allowed@);
    let ghost k = dkey_view(disc_key);
    let ghost shown = display@;
    entries.push((disc_key, index));
    allowed.push(display);
    proof {
        assert(entries_dview(entries@) =~= ev.push((k, index)));
        assert(strs(allowed@) =~= av.push(shown));
    }
    None
}

/// A discriminated union keyed by the field `key`: the value of that field picks the
/// variant. Variants that cannot be told apart make the schema invalid, and every value
/// then fails with `invalid_discriminated_union`.
pub fn discriminated_union(key: &str, variants: Vec<Schema>) -> (r: DiscriminatedUnionSchema)
    ensures
        r.0.kind matches SchemaKind::DiscriminatedUnion(body) && {
            &&& body.key@ == key@
            &&& body.variants == variants
            &&& disc_view(body.state) == disc_upto(key@, variants@, variants@.len() as int)
        },
        plain_modifiers(r.0.modifiers),
        r.0.validators@.len() == 0,
{
    let state = build_discriminator_state(key, &variants);
    let body = DiscriminatedUnionBody { key: owned(key), variants, state };
    DiscriminatedUnionSchema(Schema::new(SchemaKind::DiscriminatedUnion(body)))
}

} // verus!
