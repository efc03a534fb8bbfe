//! The ways in which generating a schema can fail.

use crate::text::{decimal, push_decimal};
use vstd::prelude::*;

verus! {

/// Why no registry, order or rendering could be produced.
#[derive(Clone, Copy, Debug, PartialEq, Eq, Structural)]
pub enum SchemaError {
    /// An enum named `Option` has no variant named `Some`.
    MalformedOption,
    /// A type id refers to no type of the decoded schema.
    UnresolvedType,
    /// A tuple has fewer field names than fields.
    MissingFieldName,
    /// A type contains itself: it is nested deeper than the schema has types,
    /// or it was registered while it was classified.
    RecursiveType,
    /// The registry holds more entries than a `u32` can index.
    RegistryFull,
    /// The dependencies of the entries form a cycle.
    CycleDetected,
    /// The entry at index `entry` depends on `dependency`, which is the index
    /// of no entry.
    InvalidDependency { dependency: u32, entry: u32 },
    /// An entry to declare refers to an index of no entry, or is made of
    /// inline entries that contain themselves.
    BrokenReference,
}

/// The message of an error.
pub open spec fn message_text(error: SchemaError) -> Seq<char> {
    match error {
        SchemaError::MalformedOption => "Option enum does not have a Some variant"@,
        SchemaError::UnresolvedType => "Type id does not resolve in the schema"@,
        SchemaError::MissingFieldName => "Tuple has fewer field names than fields"@,
        SchemaError::RecursiveType => "Recursive types are not supported"@,
        SchemaError::RegistryFull => "Too many types in the registry"@,
        SchemaError::CycleDetected => "Cycle detected in dependency graph"@,
        SchemaError::BrokenReference => "Entry refers to a type that cannot be rendered"@,
        SchemaError::InvalidDependency { dependency, entry } => "Invalid dependency index "@
            + decimal(dependency as nat) + " in entry "@ + decimal(entry as nat),
    }
}

impl SchemaError {
    /// The message of the error, for display.
    pub fn message(&self) -> (text: String)
        ensures
            text@ == message_text(*self),
    {
        match self {
            SchemaError::MalformedOption => String::from_str(
                "Option enum does not have a Some variant",
            ),
            SchemaError::UnresolvedType => String::from_str(
                "Type id does not resolve in the schema",
            ),
            SchemaError::MissingFieldName => String::from_str(
                "Tuple has fewer field names than fields",
            ),
            SchemaError::RecursiveType => String::from_str("Recursive types are not supported"),
            SchemaError::RegistryFull => String::from_str("Too many types in the registry"),
            SchemaError::CycleDetected => String::from_str("Cycle detected in dependency graph"),
            SchemaError::BrokenReference => String::from_str(
                "Entry refers to a type that cannot be rendered",
            ),
            SchemaError::InvalidDependency { dependency, entry } => {
                let mut text = String::from_str("Invalid dependency index ");
                push_decimal(&mut text, *dependency as u64);
                text.append(" in entry ");
                push_decimal(&mut text, *entry as u64);
                text
            },
        }
    }
}

} // verus!
