//! The intermediate representation of `sbor-ez-mode` schemas: a registry of
//! unique entries that refer to each other by index, its dependency order and
//! its rendering as TypeScript.

pub mod classify;
pub mod depth;
pub mod error;
pub mod fingerprint;
pub mod generate;
pub mod identity;
pub mod laws;
pub mod order;
pub mod registry;
pub mod render;
pub mod soundness;

pub use self::error::SchemaError;
pub use self::generate::{generate_ir, DecodedBlueprint};
pub use self::registry::{
    is_inline, EntryView, KindView, RegistryEntry, SborEzModeSchemaKind, SchemaRegistry, TypeHash,
};
