//! Schema generation for Scrypto SBOR types.
//!
//! Decoded type trees are classified into a deduplicated registry of schema
//! entries, ordered by dependency and rendered as `sbor-ez-mode` TypeScript
//! declarations.

pub mod decoded;
pub mod ez_mode_gen;
pub mod gateway;
pub mod text;
