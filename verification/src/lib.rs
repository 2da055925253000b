//! zerx — structured schema validation, verified with Verus.
mod text;
pub mod error;
pub mod value;
pub mod pointer;
pub mod strings;
pub mod checks;
pub mod float;
pub mod schema;
pub mod semantics;
pub mod parse;
pub mod types;
pub mod delta;
pub mod lua;
pub mod export;
pub mod policy;
pub mod laws;
pub mod copies;
pub mod lazy;
pub mod naming;
pub mod deref;

pub use error::{ErrorCode, ZerxError, ErrorView};
pub use value::{Float, ObjectMap, Val, ZerxValue};
pub use schema::{Schema, SchemaKind, Hooks, Validator, Modifiers, Refinement, ObjectBody, ObjectMode, MAX_PARSE_DEPTH};
pub use parse::NoHooks;
pub use lua::{LuaValue, LuaTable};
pub use export::{JsonValue, ExportOptions, DRAFT_2020_12};
pub use schema::ParseContext;
pub use lazy::{LazyState, LazyStep, lazy_begin, lazy_finish};
pub use deref::{RefResolver, RefTable, deref_document};
pub use policy::{SqlRule, deref_target, deref_merge, deep_map_schema, sql_nullable_normalise, sql_array_items_fallback, sql_pg_type_substitute, apply_sql_policy};
pub use types::{
    Modify, any, lazy, string, number, boolean, enumerate, null, object, array, record, tuple, union,
    discriminated_union, literal, buffer, uri, url, json, jsonschema, AnySchema, LazySchema, StringSchema,
    NumberSchema, BooleanSchema, EnumSchema, NullSchema, ObjectSchema, ArraySchema, RecordSchema, TupleSchema,
    UnionSchema, DiscriminatedUnionSchema, LiteralSchema, BufferSchema, UriSchema, UrlSchema, JsonSchema,
    JsonschemaSchema,
};
