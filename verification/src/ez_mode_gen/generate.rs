//! From the blueprints of a package to one registry of all their types.

use crate::decoded::{
    depth_limit, DecodedSchema, DecodedSchemaView, LocalTypeId, TypeKind, TypeMetadata,
};
use crate::ez_mode_gen::classify::got_or_registered;
use crate::ez_mode_gen::error::SchemaError;
use crate::ez_mode_gen::registry::{EntryView, SchemaRegistry};
use crate::ez_mode_gen::soundness::{is_sound, law_generated_registry_is_sound};
use crate::gateway::{BlueprintDefinition, BlueprintDefinitionView};
use vstd::prelude::*;

verus! {

/// A blueprint together with the decoded schema that holds its types.
#[derive(Debug)]
pub struct DecodedBlueprint {
    pub blueprint: BlueprintDefinition,
    pub schema: DecodedSchema,
}

/// The mathematical value of a [`DecodedBlueprint`].
pub struct DecodedBlueprintView {
    pub blueprint: BlueprintDefinitionView,
    pub schema: DecodedSchemaView,
}

impl View for DecodedBlueprint {
    type V = DecodedBlueprintView;

    open spec fn view(&self) -> DecodedBlueprintView {
        DecodedBlueprintView { blueprint: self.blueprint@, schema: self.schema@ }
    }
}

impl DeepView for DecodedBlueprint {
    type V = DecodedBlueprintView;

    open spec fn deep_view(&self) -> DecodedBlueprintView {
        self@
    }
}

/// The types that a blueprint contributes, by their indices in its schema:
/// those of its events in their order, then that of its state.
pub open spec fn root_types(blueprint: BlueprintDefinitionView) -> Seq<u32> {
    Seq::new(blueprint.events.len(), |i: int| blueprint.events[i].type_id).push(
        blueprint.state.type_id,
    )
}

/// Whether `schema` has a type of its own at `index`, with kind and metadata.
pub open spec fn has_local_type(schema: DecodedSchemaView, index: u32) -> bool {
    index < schema.type_metadata.len() && index < schema.type_kinds.len()
}

/// The registry after the types `roots[k..]` of `schema` were registered one
/// after the other. An index at which the schema has no type is passed over.
pub open spec fn registered_roots(
    schema: DecodedSchemaView,
    reg: Seq<EntryView>,
    roots: Seq<u32>,
    k: nat,
) -> Result<Seq<EntryView>, SchemaError>
    decreases roots.len() - k,
{
    if k >= roots.len() {
        Ok(reg)
    } else if has_local_type(schema, roots[k as int]) {
        match got_or_registered(
            schema,
            reg,
            schema.type_metadata[roots[k as int] as int],
            schema.type_kinds[roots[k as int] as int],
            LocalTypeId::SchemaLocalIndex(roots[k as int] as usize),
            depth_limit(schema),
        ) {
            Err(e) => Err(e),
            Ok((reg, _)) => registered_roots(schema, reg, roots, k + 1),
        }
    } else {
        registered_roots(schema, reg, roots, k + 1)
    }
}

/// The registry after the first `remaining` of `blueprints` were registered,
/// the last of them first.
pub open spec fn generated(
    blueprints: Seq<DecodedBlueprintView>,
    remaining: nat,
    reg: Seq<EntryView>,
) -> Result<Seq<EntryView>, SchemaError>
    decreases remaining,
{
    if remaining == 0 || remaining > blueprints.len() {
        Ok(reg)
    } else {
        let blueprint = blueprints[remaining - 1];
        match registered_roots(blueprint.schema, reg, root_types(blueprint.blueprint), 0) {
            Err(e) => Err(e),
            Ok(reg) => generated(blueprints, (remaining - 1) as nat, reg),
        }
    }
}

/// The metadata and the kind of the type of `schema` at `index`.
fn get_type_by_index(schema: &DecodedSchema, index: u32) -> (found: Option<
    (&TypeMetadata, &TypeKind),
>)
    ensures
        found is Some <==> has_local_type(schema@, index),
        found matches Some((metadata, kind)) ==> metadata@ == schema@.type_metadata[index as int]
            && kind@ == schema@.type_kinds[index as int],
{
    if (index as usize) < schema.type_metadata.len() && (index as usize) < schema.type_kinds.len() {
        Some((&schema.type_metadata[index as usize], &schema.type_kinds[index as usize]))
    } else {
        None
    }
}

/// The indices of the types that a blueprint contributes.
fn blueprint_roots(blueprint: &BlueprintDefinition) -> (roots: Vec<u32>)
    ensures
        roots@ == root_types(blueprint@),
{
    let mut roots: Vec<u32> = Vec::new();
    let mut i: usize = 0;
    while i < blueprint.events.len()
        invariant
            i <= blueprint.events.len(),
            roots@.len() == i,
            forall|j: int| 0 <= j < i ==> roots@[j] == (#[trigger] blueprint.events@[j]).type_id,
        decreases blueprint.events.len() - i,
    {
        roots.push(blueprint.events[i].type_id);
        i += 1;
    }
    roots.push(blueprint.state.type_id);
    assert(roots@ =~= root_types(blueprint@));
    roots
}

/// Registers the types `roots` of `schema` one after the other.
fn register_roots(registry: &mut SchemaRegistry, schema: &DecodedSchema, roots: &Vec<u32>) -> (result:
    Result<(), SchemaError>)
    ensures
        match result {
            Ok(()) => registered_roots(schema@, old(registry)@, roots@, 0) == Ok::<
                _,
                SchemaError,
            >(final(registry)@),
            Err(e) => registered_roots(schema@, old(registry)@, roots@, 0) == Err::<
                Seq<EntryView>,
                _,
            >(e),
        },
{
    let mut k: usize = 0;
    while k < roots.len()
        invariant
            k <= roots.len(),
            registered_roots(schema@, old(registry)@, roots@, 0) == registered_roots(
                schema@,
                registry@,
                roots@,
                k as nat,
            ),
        decreases roots.len() - k,
    {
        match get_type_by_index(schema, roots[k]) {
            Some((metadata, kind)) => {
                let type_id = LocalTypeId::SchemaLocalIndex(roots[k] as usize);
                match registry.get_or_register(schema, metadata, kind, type_id) {
                    Err(e) => {
                        return Err(e);
                    },
                    Ok(_) => {},
                }
            },
            None => {},
        }
        k += 1;
    }
    Ok(())
}

/// The registry of the types of the given blueprints: for each blueprint,
/// the last first, the types of its events and then the type of its state,
/// each with the types that it is made of. A type that several blueprints
/// share is registered once.
///
/// Fails where a type cannot be classified: an enum with the name `Option`
/// has no variant `Some`, a type refers to a type that its schema does not
/// hold, a tuple has fewer field names than fields, or a type contains
/// itself.
pub fn generate_ir(schemas: &Vec<DecodedBlueprint>) -> (result: Result<SchemaRegistry, SchemaError>)
    ensures
        match result {
            Ok(registry) => generated(schemas.deep_view(), schemas@.len(), Seq::empty()) == Ok::<
                _,
                SchemaError,
            >(registry@),
            Err(e) => generated(schemas.deep_view(), schemas@.len(), Seq::empty()) == Err::<
                Seq<EntryView>,
                _,
            >(e),
        },
        result matches Ok(registry) ==> is_sound(registry@),
{
    proof {
        match generated(schemas.deep_view(), schemas@.len(), Seq::empty()) {
            Ok(reg) => {
                assert(schemas.deep_view().len() == schemas@.len());
                law_generated_registry_is_sound(
                    schemas.deep_view(),
                    reg,
                );
            },
            Err(_) => {},
        }
    }
    let mut registry = SchemaRegistry::new();
    let mut remaining: usize = schemas.len();
    while remaining > 0
        invariant
            remaining <= schemas.len(),
            generated(schemas.deep_view(), schemas@.len(), Seq::empty()) == generated(
                schemas.deep_view(),
                remaining as nat,
                registry@,
            ),
        decreases remaining,
    {
        let schema = &schemas[remaining - 1];
        assert(schemas.deep_view()[remaining - 1] == schema@);
        assert(schemas.deep_view().len() == schemas@.len());
        let roots = blueprint_roots(&schema.blueprint);
        match register_roots(&mut registry, &schema.schema, &roots) {
            Err(e) => {
                return Err(e);
            },
            Ok(()) => {},
        }
        remaining -= 1;
    }
    Ok(registry)
}

} // verus!
