//! Discriminant resolution and integer conversions for enumerations with
//! C-like numbering and an optional catch-all variant.
//!
//! An [`EnumDecl`] lists the variants in declaration order and names the
//! integer representation. [`Schema::new`] validates it and resolves every
//! discriminant in one pass; [`derive_enum_convert`] and
//! [`derive_enum_try_convert`] turn the result into the strict and the
//! fallible conversions.
pub mod convert;
pub mod generator;
pub mod repr;
pub mod schema;

pub use convert::{
    derive_enum_convert, derive_enum_try_convert, EnumConvert, EnumTryConvert, Table,
    UnknownVariantError, Value,
};
pub use generator::{Disc, Explicit, Generator};
pub use repr::{parse_repr, Repr};
pub use schema::{EnumDecl, NormalVariant, Schema, SchemaError, VariantDecl};
