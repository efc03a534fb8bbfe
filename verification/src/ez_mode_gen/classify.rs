//! Classification: from the types of a decoded schema to registry entries.
//! Each type is registered once, after the types that it is made of.

use crate::decoded::{
    depth_limit, field_names_of, matching_variant_data, resolved_kind, resolved_metadata,
    CustomTypeKind, DecodedSchema, DecodedSchemaView, LocalTypeId, TypeKind, TypeKindView,
    TypeMetadata, TypeMetadataView, INSTANT_TYPE,
};
use crate::ez_mode_gen::error::SchemaError;
use crate::ez_mode_gen::fingerprint::{fingerprint, unnamed_metadata};
use crate::ez_mode_gen::registry::{
    has_key, keys_are_unique, lemma_position_of_present_key, position_of, EntryView, KindView,
    RegistryEntry, SborEzModeSchemaKind, SchemaRegistry, TypeHash,
};
use crate::ez_mode_gen::soundness::{
    is_sound, law_classification_keeps_keys_unique, law_classification_keeps_soundness,
};
use vstd::prelude::*;

verus! {

/// Whether `longer` begins with the entries of `shorter`.
pub open spec fn extends(longer: Seq<EntryView>, shorter: Seq<EntryView>) -> bool {
    &&& shorter.len() <= longer.len()
    &&& forall|i: int| 0 <= i < shorter.len() ==> #[trigger] longer[i] == shorter[i]
}

/// The list `deps` with `index` at its end, unless it holds `index`.
pub open spec fn with_dep(deps: Seq<u32>, index: u32) -> Seq<u32> {
    if deps.contains(index) {
        deps
    } else {
        deps.push(index)
    }
}

/// The list `deps` with each of `more` that it does not hold, in their
/// order.
pub open spec fn with_deps(deps: Seq<u32>, more: Seq<u32>) -> Seq<u32>
    decreases more.len(),
{
    if more.len() == 0 {
        deps
    } else {
        with_dep(with_deps(deps, more.drop_last()), more.last())
    }
}

/// What an entry made of `children` depends on: for each child in turn, what
/// the child depends on and the child itself, each index once.
pub open spec fn children_deps(reg: Seq<EntryView>, children: Seq<u32>) -> Seq<u32>
    decreases children.len(),
{
    if children.len() == 0 {
        Seq::empty()
    } else {
        let child = children.last();
        with_dep(
            with_deps(
                children_deps(reg, children.drop_last()),
                reg[child as int].dependencies,
            ),
            child,
        )
    }
}

/// The fields `indices`, each with its name.
pub open spec fn named_fields(names: Seq<Seq<char>>, indices: Seq<u32>) -> Seq<(Seq<char>, u32)> {
    Seq::new(indices.len(), |i: int| (names[i], indices[i]))
}

/// The kind of a tuple with the fields `indices`: a struct where the fields
/// have names, else a tuple.
pub open spec fn tuple_kind(field_names: Option<Seq<Seq<char>>>, indices: Seq<u32>) -> KindView {
    match field_names {
        Some(names) => KindView::Struct { fields: named_fields(names, indices) },
        None => KindView::Tuple { fields: indices },
    }
}

/// The name of an enum variant in the registry.
pub open spec fn variant_label(name: Option<Seq<char>>) -> Seq<char> {
    match name {
        Some(name) => name,
        None => "<unnamed>"@,
    }
}

/// An entry without parts.
pub open spec fn leaf_entry(metadata: TypeMetadataView, kind: TypeKindView, schema_kind: KindView)
    -> EntryView {
    EntryView {
        type_hash: fingerprint(metadata, kind),
        name: metadata.name,
        schema_kind,
        dependencies: Seq::empty(),
    }
}

/// The schema kind of a custom type kind of Scrypto.
pub open spec fn custom_kind(custom: CustomTypeKind) -> KindView {
    match custom {
        CustomTypeKind::Decimal => KindView::Decimal,
        CustomTypeKind::PreciseDecimal => KindView::Decimal,
        CustomTypeKind::Reference => KindView::Address,
        CustomTypeKind::Own => KindView::InternalAddress,
        CustomTypeKind::NonFungibleLocalId => KindView::NonFungibleLocalId,
    }
}

/// Whether the metadata is that of the optional encoding: an enum with the
/// name `Option`.
pub open spec fn is_option(metadata: TypeMetadataView) -> bool {
    metadata.name == Some("Option"@)
}

/// The field types of the first of `variants`, from position `from` on, that
/// the metadata names `Some`.
pub open spec fn some_variant(
    metadata: TypeMetadataView,
    variants: Seq<(u8, Seq<LocalTypeId>)>,
    from: int,
) -> Option<Seq<LocalTypeId>>
    decreases variants.len() - from,
{
    if from < 0 || from >= variants.len() {
        None
    } else if matching_variant_data(metadata, variants[from].0, variants.len()).variant_name
        == Some("Some"@) {
        Some(variants[from].1)
    } else {
        some_variant(metadata, variants, from + 1)
    }
}

/// The registry with `entry` registered and the index of `entry` in it. An
/// entry with the fingerprint of `entry` is reused; else `entry` is appended,
/// as long as a `u32` can index every entry afterwards.
pub open spec fn appended(reg: Seq<EntryView>, entry: EntryView) -> Result<
    (Seq<EntryView>, u32),
    SchemaError,
> {
    if reg.len() > u32::MAX {
        Err(SchemaError::RegistryFull)
    } else {
        match position_of(reg, entry.type_hash) {
            Some(i) => Ok((reg, i as u32)),
            None => if reg.len() == u32::MAX {
                Err(SchemaError::RegistryFull)
            } else {
                Ok((reg.push(entry), reg.len() as u32))
            },
        }
    }
}

/// The registry with `entry` at its end, and the index of `entry` in it.
/// This is for an entry whose type was classified because its fingerprint
/// was not in the registry. Where the fingerprint is in the registry by now,
/// the type was registered while it was classified: it is among its own
/// parts, and so recursive.
pub open spec fn added(reg: Seq<EntryView>, entry: EntryView) -> Result<
    (Seq<EntryView>, u32),
    SchemaError,
> {
    if has_key(reg, entry.type_hash) {
        Err(SchemaError::RecursiveType)
    } else if reg.len() >= u32::MAX {
        Err(SchemaError::RegistryFull)
    } else {
        Ok((reg.push(entry), reg.len() as u32))
    }
}

/// The registry after the type `id` of `schema` was looked up or registered,
/// and the index of its entry.
pub open spec fn registered_type(
    schema: DecodedSchemaView,
    reg: Seq<EntryView>,
    id: LocalTypeId,
    fuel: nat,
) -> Result<(Seq<EntryView>, u32), SchemaError>
    decreases fuel, 2nat, 0nat,
{
    match (resolved_metadata(schema, id), resolved_kind(schema, id)) {
        (Some(metadata), Some(kind)) => got_or_registered(schema, reg, metadata, kind, id, fuel),
        _ => Err(SchemaError::UnresolvedType),
    }
}

/// The registry after the type with the given metadata and kind was looked
/// up or registered, and the index of its entry. An entry with the
/// fingerprint of the type is reused, and the registry stays as it is. Else
/// the type is classified, which registers the types that it is made of, and
/// its entry is then put at the end of the registry. `fuel` bounds how deep
/// the types may be nested.
pub open spec fn got_or_registered(
    schema: DecodedSchemaView,
    reg: Seq<EntryView>,
    metadata: TypeMetadataView,
    kind: TypeKindView,
    id: LocalTypeId,
    fuel: nat,
) -> Result<(Seq<EntryView>, u32), SchemaError>
    decreases fuel, 1nat, 0nat,
{
    if reg.len() > u32::MAX {
        Err(SchemaError::RegistryFull)
    } else {
        match position_of(reg, fingerprint(metadata, kind)) {
            Some(i) => Ok((reg, i as u32)),
            None => if fuel == 0 {
                Err(SchemaError::RecursiveType)
            } else {
                match created_entry(schema, reg, metadata, kind, id, (fuel - 1) as nat) {
                    Err(e) => Err(e),
                    Ok((reg, entry)) => added(reg, entry),
                }
            },
        }
    }
}

/// The registry after the types `ids[k..]` were looked up or registered one
/// after the other, and `acc` followed by the indices of their entries.
pub open spec fn registered_all(
    schema: DecodedSchemaView,
    reg: Seq<EntryView>,
    ids: Seq<LocalTypeId>,
    k: nat,
    acc: Seq<u32>,
    fuel: nat,
) -> Result<(Seq<EntryView>, Seq<u32>), SchemaError>
    decreases fuel, 3nat, ids.len() - k,
{
    if k >= ids.len() {
        Ok((reg, acc))
    } else {
        match registered_type(schema, reg, ids[k as int], fuel) {
            Err(e) => Err(e),
            Ok((reg, index)) => registered_all(schema, reg, ids, k + 1, acc.push(index), fuel),
        }
    }
}

/// The entry of a tuple with the given field types, and the registry after
/// its fields were registered: a struct where the metadata names the fields,
/// else a tuple.
pub open spec fn tuple_entry(
    schema: DecodedSchemaView,
    reg: Seq<EntryView>,
    metadata: TypeMetadataView,
    kind: TypeKindView,
    field_types: Seq<LocalTypeId>,
    fuel: nat,
) -> Result<(Seq<EntryView>, EntryView), SchemaError>
    decreases fuel, 5nat, 0nat,
{
    let names = field_names_of(metadata);
    if names is Some && names->0.len() < field_types.len() {
        Err(SchemaError::MissingFieldName)
    } else {
        match registered_all(schema, reg, field_types, 0, Seq::empty(), fuel) {
            Err(e) => Err(e),
            Ok((reg, indices)) => Ok(
                (
                    reg,
                    EntryView {
                        type_hash: fingerprint(metadata, kind),
                        name: metadata.name,
                        schema_kind: tuple_kind(names, indices),
                        dependencies: children_deps(reg, indices),
                    },
                ),
            ),
        }
    }
}

/// The entry of an array with the given element type, and the registry after
/// the element type was registered.
pub open spec fn array_entry(
    schema: DecodedSchemaView,
    reg: Seq<EntryView>,
    metadata: TypeMetadataView,
    kind: TypeKindView,
    element_type: LocalTypeId,
    fuel: nat,
) -> Result<(Seq<EntryView>, EntryView), SchemaError>
    decreases fuel, 5nat, 0nat,
{
    match registered_type(schema, reg, element_type, fuel) {
        Err(e) => Err(e),
        Ok((reg, index)) => Ok(
            (
                reg,
                EntryView {
                    type_hash: fingerprint(metadata, kind),
                    name: metadata.name,
                    schema_kind: KindView::Array { element_type: index },
                    dependencies: children_deps(reg, seq![index]),
                },
            ),
        ),
    }
}

/// The entry of a map with the given key and value types, and the registry
/// after the key type and then the value type were registered.
pub open spec fn map_entry(
    schema: DecodedSchemaView,
    reg: Seq<EntryView>,
    metadata: TypeMetadataView,
    kind: TypeKindView,
    key_type: LocalTypeId,
    value_type: LocalTypeId,
    fuel: nat,
) -> Result<(Seq<EntryView>, EntryView), SchemaError>
    decreases fuel, 5nat, 0nat,
{
    match registered_type(schema, reg, key_type, fuel) {
        Err(e) => Err(e),
        Ok((reg, key_index)) => match registered_type(schema, reg, value_type, fuel) {
            Err(e) => Err(e),
            Ok((reg, value_index)) => Ok(
                (
                    reg,
                    EntryView {
                        type_hash: fingerprint(metadata, kind),
                        name: metadata.name,
                        schema_kind: KindView::Mapping {
                            key_type: key_index,
                            value_type: value_index,
                        },
                        dependencies: children_deps(reg, seq![key_index, value_index]),
                    },
                ),
            ),
        },
    }
}

/// The entry that stands for the fields of an enum variant: a struct or a
/// tuple without a name.
pub open spec fn payload_entry(
    reg: Seq<EntryView>,
    field_names: Option<Seq<Seq<char>>>,
    field_types: Seq<LocalTypeId>,
    indices: Seq<u32>,
) -> EntryView {
    EntryView {
        type_hash: fingerprint(
            unnamed_metadata(field_names),
            TypeKindView::Tuple { field_types },
        ),
        name: None,
        schema_kind: tuple_kind(field_names, indices),
        dependencies: children_deps(reg, indices),
    }
}

/// The registry after the variants `variants[k..]` of an enum were registered
/// one after the other, and `acc` followed by their names, each with the
/// index of the entry that stands for its fields.
pub open spec fn registered_variants(
    schema: DecodedSchemaView,
    reg: Seq<EntryView>,
    metadata: TypeMetadataView,
    variants: Seq<(u8, Seq<LocalTypeId>)>,
    k: nat,
    acc: Seq<(Seq<char>, u32)>,
    fuel: nat,
) -> Result<(Seq<EntryView>, Seq<(Seq<char>, u32)>), SchemaError>
    decreases fuel, 4nat, variants.len() - k,
{
    if k >= variants.len() {
        Ok((reg, acc))
    } else {
        let field_types = variants[k as int].1;
        let data = matching_variant_data(metadata, variants[k as int].0, field_types.len());
        match registered_all(schema, reg, field_types, 0, Seq::empty(), fuel) {
            Err(e) => Err(e),
            Ok((reg, indices)) => match appended(
                reg,
                payload_entry(reg, data.field_names, field_types, indices),
            ) {
                Err(e) => Err(e),
                Ok((reg, index)) => registered_variants(
                    schema,
                    reg,
                    metadata,
                    variants,
                    k + 1,
                    acc.push((variant_label(data.variant_name), index)),
                    fuel,
                ),
            },
        }
    }
}

/// The second parts of the pairs.
pub open spec fn indices_of(items: Seq<(Seq<char>, u32)>) -> Seq<u32> {
    Seq::new(items.len(), |i: int| items[i].1)
}

/// The entry of an enum with the given variants, and the registry after its
/// parts were registered. An enum with the name `Option` becomes an option of
/// the fields of its variant `Some`, and fails without such a variant. Any
/// other enum becomes an enum whose variants each refer to an entry for their
/// fields.
pub open spec fn enum_entry(
    schema: DecodedSchemaView,
    reg: Seq<EntryView>,
    metadata: TypeMetadataView,
    kind: TypeKindView,
    variants: Seq<(u8, Seq<LocalTypeId>)>,
    fuel: nat,
) -> Result<(Seq<EntryView>, EntryView), SchemaError>
    decreases fuel, 5nat, 0nat,
{
    if is_option(metadata) {
        match some_variant(metadata, variants, 0) {
            None => Err(SchemaError::MalformedOption),
            Some(field_types) => match registered_all(
                schema,
                reg,
                field_types,
                0,
                Seq::empty(),
                fuel,
            ) {
                Err(e) => Err(e),
                Ok((reg, indices)) => Ok(
                    (
                        reg,
                        EntryView {
                            type_hash: fingerprint(metadata, kind),
                            name: metadata.name,
                            schema_kind: KindView::Option { inner_types: indices },
                            dependencies: children_deps(reg, indices),
                        },
                    ),
                ),
            },
        }
    } else {
        match registered_variants(schema, reg, metadata, variants, 0, Seq::empty(), fuel) {
            Err(e) => Err(e),
            Ok((reg, named)) => Ok(
                (
                    reg,
                    EntryView {
                        type_hash: fingerprint(metadata, kind),
                        name: metadata.name,
                        schema_kind: KindView::Enum { variants: named },
                        dependencies: children_deps(reg, indices_of(named)),
                    },
                ),
            ),
        }
    }
}

/// The entry of the type `id` with the given metadata and kind, and the
/// registry after the types that it is made of were registered. Tuples,
/// arrays, maps and enums are made of other types. Of the other kinds, a
/// boolean becomes a boolean, a string a string and a value of any type a
/// value; the custom kinds of Scrypto become a decimal, an address, an
/// internal address or a non-fungible local id; integers become numbers, but
/// for the 64-bit integer that is the well-known `Instant` type, which
/// becomes an instant.
pub open spec fn created_entry(
    schema: DecodedSchemaView,
    reg: Seq<EntryView>,
    metadata: TypeMetadataView,
    kind: TypeKindView,
    id: LocalTypeId,
    fuel: nat,
) -> Result<(Seq<EntryView>, EntryView), SchemaError>
    decreases fuel, 6nat, 0nat,
{
    match kind {
        TypeKindView::Tuple { field_types } => tuple_entry(
            schema,
            reg,
            metadata,
            kind,
            field_types,
            fuel,
        ),
        TypeKindView::Custom(custom) => Ok((reg, leaf_entry(metadata, kind, custom_kind(custom)))),
        TypeKindView::Array { element_type } => array_entry(
            schema,
            reg,
            metadata,
            kind,
            element_type,
            fuel,
        ),
        TypeKindView::Enum { variants } => enum_entry(schema, reg, metadata, kind, variants, fuel),
        TypeKindView::Mapping { key_type, value_type } => map_entry(
            schema,
            reg,
            metadata,
            kind,
            key_type,
            value_type,
            fuel,
        ),
        TypeKindView::I64 => Ok(
            (
                reg,
                leaf_entry(
                    metadata,
                    kind,
                    if id == LocalTypeId::WellKnown(INSTANT_TYPE) {
                        KindView::Instant
                    } else {
                        KindView::Number
                    },
                ),
            ),
        ),
        TypeKindView::Bool => Ok((reg, leaf_entry(metadata, kind, KindView::Bool))),
        TypeKindView::String => Ok((reg, leaf_entry(metadata, kind, KindView::String))),
        TypeKindView::Any => Ok((reg, leaf_entry(metadata, kind, KindView::Value))),
        _ => Ok((reg, leaf_entry(metadata, kind, KindView::Number))),
    }
}


/// Adds `index` to `deps` unless it is there.
fn insert_dep(deps: &mut Vec<u32>, index: u32)
    ensures
        final(deps)@ == with_dep(old(deps)@, index),
{
    let mut i: usize = 0;
    while i < deps.len()
        invariant
            i <= deps.len(),
            deps@ == old(deps)@,
            forall|j: int| 0 <= j < i ==> deps@[j] != index,
        decreases deps.len() - i,
    {
        if deps[i] == index {
            return ;
        }
        i += 1;
    }
    deps.push(index);
}

/// Adds each of `more` to `deps` unless it is there.
fn insert_deps(deps: &mut Vec<u32>, more: &Vec<u32>)
    ensures
        final(deps)@ == with_deps(old(deps)@, more@),
{
    let mut i: usize = 0;
    assert(more@.take(0) =~= Seq::<u32>::empty());
    while i < more.len()
        invariant
            i <= more.len(),
            deps@ == with_deps(old(deps)@, more@.take(i as int)),
        decreases more.len() - i,
    {
        insert_dep(deps, more[i]);
        proof {
            assert(more@.take(i as int + 1).drop_last() =~= more@.take(i as int));
        }
        i += 1;
    }
    assert(more@.take(more.len() as int) =~= more@);
}

/// What an entry made of `children` depends on.
fn collect_deps(registry: &SchemaRegistry, children: &Vec<u32>) -> (deps: Vec<u32>)
    requires
        forall|i: int| 0 <= i < children@.len() ==> children@[i] < registry@.len(),
    ensures
        deps@ == children_deps(registry@, children@),
{
    let mut deps: Vec<u32> = Vec::new();
    let mut i: usize = 0;
    assert(children@.take(0) =~= Seq::<u32>::empty());
    while i < children.len()
        invariant
            i <= children.len(),
            forall|i: int| 0 <= i < children@.len() ==> children@[i] < registry@.len(),
            deps@ == children_deps(registry@, children@.take(i as int)),
        decreases children.len() - i,
    {
        let child = children[i];
        insert_deps(&mut deps, &registry.entries[child as usize].dependencies);
        insert_dep(&mut deps, child);
        proof {
            assert(children@.take(i as int + 1).drop_last() =~= children@.take(i as int));
        }
        i += 1;
    }
    assert(children@.take(children.len() as int) =~= children@);
    deps
}

/// A copy of a name.
fn clone_name(name: &Option<String>) -> (copy: Option<String>)
    ensures
        copy.deep_view() == name.deep_view(),
{
    match name {
        Some(name) => Some(name.clone()),
        None => None,
    }
}

/// The kind of a tuple with the fields `indices`.
fn make_tuple_kind(field_names: Option<&Vec<String>>, indices: Vec<u32>) -> (kind:
    SborEzModeSchemaKind)
    requires
        field_names matches Some(names) ==> names@.len() >= indices@.len(),
    ensures
        kind@ == tuple_kind(
            match field_names {
                Some(names) => Some(names.deep_view()),
                None => None,
            },
            indices@,
        ),
{
    match field_names {
        Some(names) => {
            let mut fields: Vec<(String, u32)> = Vec::new();
            let mut i: usize = 0;
            while i < indices.len()
                invariant
                    i <= indices.len(),
                    indices@.len() <= names@.len(),
                    fields@.len() == i,
                    forall|j: int|
                        0 <= j < i ==> (#[trigger] fields@[j]).0@ == names@[j]@ && fields@[j].1
                            == indices@[j],
                decreases indices.len() - i,
            {
                fields.push((names[i].clone(), indices[i]));
                i += 1;
            }
            assert(fields.deep_view() =~= named_fields(names.deep_view(), indices@));
            SborEzModeSchemaKind::Struct { fields }
        },
        None => SborEzModeSchemaKind::Tuple { fields: indices },
    }
}

/// Registers `entry` where the registry has room for it.
fn append_entry(registry: &mut SchemaRegistry, entry: &RegistryEntry) -> (result: Result<
    u32,
    SchemaError,
>)
    ensures
        extends(final(registry)@, old(registry)@),
        match result {
            Ok(index) => appended(old(registry)@, entry@) == Ok::<_, SchemaError>(
                (final(registry)@, index),
            ) && index < final(registry)@.len(),
            Err(e) => appended(old(registry)@, entry@) == Err::<(Seq<EntryView>, u32), _>(e)
                && final(registry)@ == old(registry)@,
        },
{
    if registry.entries.len() > u32::MAX as usize {
        return Err(SchemaError::RegistryFull);
    }
    match registry.position(&entry.type_hash) {
        Some(i) => Ok(i as u32),
        None => {
            if registry.entries.len() >= u32::MAX as usize {
                return Err(SchemaError::RegistryFull);
            }
            let index = registry.register(entry);
            Ok(index)
        },
    }
}

/// Looks up or registers the type `type_id` of `schema`.
fn register_type(
    registry: &mut SchemaRegistry,
    schema: &DecodedSchema,
    type_id: LocalTypeId,
    fuel: usize,
) -> (result: Result<u32, SchemaError>)
    ensures
        extends(final(registry)@, old(registry)@),
        match result {
            Ok(index) => registered_type(schema@, old(registry)@, type_id, fuel as nat) == Ok::<
                _,
                SchemaError,
            >((final(registry)@, index)) && index < final(registry)@.len(),
            Err(e) => registered_type(schema@, old(registry)@, type_id, fuel as nat) == Err::<
                (Seq<EntryView>, u32),
                _,
            >(e),
        },
    decreases fuel, 2nat, 0nat,
{
    let kind = schema.resolve_type_kind(type_id);
    let metadata = schema.resolve_type_metadata(type_id);
    match (metadata, kind) {
        (Some(metadata), Some(kind)) => get_or_register_within(
            registry,
            schema,
            metadata,
            kind,
            type_id,
            fuel,
        ),
        _ => Err(SchemaError::UnresolvedType),
    }
}

/// Looks up or registers the type with the given metadata and kind, nested
/// at most `fuel` deep.
fn get_or_register_within(
    registry: &mut SchemaRegistry,
    schema: &DecodedSchema,
    metadata: &TypeMetadata,
    kind: &TypeKind,
    type_id: LocalTypeId,
    fuel: usize,
) -> (result: Result<u32, SchemaError>)
    ensures
        extends(final(registry)@, old(registry)@),
        match result {
            Ok(index) => got_or_registered(
                schema@,
                old(registry)@,
                metadata@,
                kind@,
                type_id,
                fuel as nat,
            ) == Ok::<_, SchemaError>((final(registry)@, index)) && index < final(registry)@.len(),
            Err(e) => got_or_registered(
                schema@,
                old(registry)@,
                metadata@,
                kind@,
                type_id,
                fuel as nat,
            ) == Err::<(Seq<EntryView>, u32), _>(e),
        },
    decreases fuel, 1nat, 0nat,
{
    if registry.entries.len() > u32::MAX as usize {
        return Err(SchemaError::RegistryFull);
    }
    let key = TypeHash::create(metadata, kind);
    match registry.position(&key) {
        Some(i) => Ok(i as u32),
        None => {
            if fuel == 0 {
                return Err(SchemaError::RecursiveType);
            }
            match create_entry(registry, schema, metadata, kind, type_id, fuel - 1) {
                Err(e) => Err(e),
                Ok(entry) => {
                    if registry.position(&entry.type_hash).is_some() {
                        return Err(SchemaError::RecursiveType);
                    }
                    if registry.entries.len() >= u32::MAX as usize {
                        return Err(SchemaError::RegistryFull);
                    }
                    let index = registry.register(&entry);
                    Ok(index)
                },
            }
        },
    }
}

/// Looks up or registers the types `ids` one after the other.
fn register_all(
    registry: &mut SchemaRegistry,
    schema: &DecodedSchema,
    ids: &Vec<LocalTypeId>,
    fuel: usize,
) -> (result: Result<Vec<u32>, SchemaError>)
    ensures
        extends(final(registry)@, old(registry)@),
        match result {
            Ok(indices) => registered_all(
                schema@,
                old(registry)@,
                ids@,
                0,
                Seq::empty(),
                fuel as nat,
            ) == Ok::<_, SchemaError>((final(registry)@, indices@)) && indices@.len() == ids@.len()
                && forall|i: int|
                0 <= i < indices@.len() ==> indices@[i] < final(registry)@.len(),
            Err(e) => registered_all(schema@, old(registry)@, ids@, 0, Seq::empty(), fuel as nat)
                == Err::<(Seq<EntryView>, Seq<u32>), _>(e),
        },
    decreases fuel, 3nat, ids.len(),
{
    let ghost start = registry@;
    let mut indices: Vec<u32> = Vec::new();
    let mut k: usize = 0;
    while k < ids.len()
        invariant
            k <= ids.len(),
            start == old(registry)@,
            extends(registry@, start),
            registered_all(schema@, start, ids@, 0, Seq::empty(), fuel as nat) == registered_all(
                schema@,
                registry@,
                ids@,
                k as nat,
                indices@,
                fuel as nat,
            ),
            indices@.len() == k,
            forall|i: int| 0 <= i < indices@.len() ==> indices@[i] < registry@.len(),
        decreases ids.len() - k,
    {
        match register_type(registry, schema, ids[k], fuel) {
            Err(e) => {
                return Err(e);
            },
            Ok(index) => {
                indices.push(index);
            },
        }
        k += 1;
    }
    Ok(indices)
}

/// The entry of a tuple: a struct where the metadata names the fields, else
/// a tuple.
fn handle_tuple(
    field_types: &Vec<LocalTypeId>,
    registry: &mut SchemaRegistry,
    schema: &DecodedSchema,
    metadata: &TypeMetadata,
    kind: &TypeKind,
    fuel: usize,
) -> (result: Result<RegistryEntry, SchemaError>)
    ensures
        extends(final(registry)@, old(registry)@),
        match result {
            Ok(entry) => tuple_entry(
                schema@,
                old(registry)@,
                metadata@,
                kind@,
                field_types@,
                fuel as nat,
            ) == Ok::<_, SchemaError>((final(registry)@, entry@)),
            Err(e) => tuple_entry(
                schema@,
                old(registry)@,
                metadata@,
                kind@,
                field_types@,
                fuel as nat,
            ) == Err::<(Seq<EntryView>, EntryView), _>(e),
        },
    decreases fuel, 5nat, 0nat,
{
    let names = metadata.get_field_names();
    match names {
        Some(names) => {
            assert(names.deep_view().len() == names@.len());
            if names.len() < field_types.len() {
                return Err(SchemaError::MissingFieldName);
            }
        },
        None => {},
    }
    match register_all(registry, schema, field_types, fuel) {
        Err(e) => Err(e),
        Ok(indices) => {
            let dependencies = collect_deps(registry, &indices);
            let schema_kind = make_tuple_kind(names, indices);
            Ok(
                RegistryEntry {
                    type_hash: TypeHash::create(metadata, kind),
                    name: clone_name(&metadata.name),
                    schema_kind,
                    dependencies,
                },
            )
        },
    }
}

/// The entry of an array.
fn handle_array(
    element_type: LocalTypeId,
    registry: &mut SchemaRegistry,
    schema: &DecodedSchema,
    metadata: &TypeMetadata,
    kind: &TypeKind,
    fuel: usize,
) -> (result: Result<RegistryEntry, SchemaError>)
    ensures
        extends(final(registry)@, old(registry)@),
        match result {
            Ok(entry) => array_entry(
                schema@,
                old(registry)@,
                metadata@,
                kind@,
                element_type,
                fuel as nat,
            ) == Ok::<_, SchemaError>((final(registry)@, entry@)),
            Err(e) => array_entry(
                schema@,
                old(registry)@,
                metadata@,
                kind@,
                element_type,
                fuel as nat,
            ) == Err::<(Seq<EntryView>, EntryView), _>(e),
        },
    decreases fuel, 5nat, 0nat,
{
    match register_type(registry, schema, element_type, fuel) {
        Err(e) => Err(e),
        Ok(index) => {
            let mut children: Vec<u32> = Vec::new();
            children.push(index);
            assert(children@ =~= seq![index]);
            let dependencies = collect_deps(registry, &children);
            Ok(
                RegistryEntry {
                    type_hash: TypeHash::create(metadata, kind),
                    name: clone_name(&metadata.name),
                    schema_kind: SborEzModeSchemaKind::Array { element_type: index },
                    dependencies,
                },
            )
        },
    }
}

/// The entry of a map.
fn handle_map(
    key_type: LocalTypeId,
    value_type: LocalTypeId,
    registry: &mut SchemaRegistry,
    schema: &DecodedSchema,
    metadata: &TypeMetadata,
    kind: &TypeKind,
    fuel: usize,
) -> (result: Result<RegistryEntry, SchemaError>)
    ensures
        extends(final(registry)@, old(registry)@),
        match result {
            Ok(entry) => map_entry(
                schema@,
                old(registry)@,
                metadata@,
                kind@,
                key_type,
                value_type,
                fuel as nat,
            ) == Ok::<_, SchemaError>((final(registry)@, entry@)),
            Err(e) => map_entry(
                schema@,
                old(registry)@,
                metadata@,
                kind@,
                key_type,
                value_type,
                fuel as nat,
            ) == Err::<(Seq<EntryView>, EntryView), _>(e),
        },
    decreases fuel, 5nat, 0nat,
{
    match register_type(registry, schema, key_type, fuel) {
        Err(e) => Err(e),
        Ok(key_index) => match register_type(registry, schema, value_type, fuel) {
            Err(e) => Err(e),
            Ok(value_index) => {
                let mut children: Vec<u32> = Vec::new();
                children.push(key_index);
                children.push(value_index);
                assert(children@ =~= seq![key_index, value_index]);
                let dependencies = collect_deps(registry, &children);
                Ok(
                    RegistryEntry {
                        type_hash: TypeHash::create(metadata, kind),
                        name: clone_name(&metadata.name),
                        schema_kind: SborEzModeSchemaKind::Mapping {
                            key_type: key_index,
                            value_type: value_index,
                        },
                        dependencies,
                    },
                )
            },
        },
    }
}

/// An entry without parts, of the given schema kind.
fn leaf(metadata: &TypeMetadata, kind: &TypeKind, schema_kind: SborEzModeSchemaKind) -> (entry:
    RegistryEntry)
    ensures
        entry@ == leaf_entry(metadata@, kind@, schema_kind@),
{
    RegistryEntry {
        type_hash: TypeHash::create(metadata, kind),
        name: clone_name(&metadata.name),
        schema_kind,
        dependencies: Vec::new(),
    }
}

/// The entry of a custom type of Scrypto.
fn handle_custom(custom: &CustomTypeKind, metadata: &TypeMetadata, kind: &TypeKind) -> (entry:
    RegistryEntry)
    ensures
        entry@ == leaf_entry(metadata@, kind@, custom_kind(*custom)),
{
    let schema_kind = match custom {
        CustomTypeKind::Decimal | CustomTypeKind::PreciseDecimal => SborEzModeSchemaKind::Decimal,
        CustomTypeKind::Reference => SborEzModeSchemaKind::Address,
        CustomTypeKind::Own => SborEzModeSchemaKind::InternalAddress,
        CustomTypeKind::NonFungibleLocalId => SborEzModeSchemaKind::NonFungibleLocalId,
    };
    leaf(metadata, kind, schema_kind)
}

/// The field types of the first variant that the metadata names `Some`.
fn find_some_variant<'a>(metadata: &TypeMetadata, variants: &'a Vec<(u8, Vec<LocalTypeId>)>) -> (found:
    Option<&'a Vec<LocalTypeId>>)
    ensures
        match found {
            Some(field_types) => some_variant(metadata@, variants.deep_view(), 0) == Some(
                field_types@,
            ),
            None => some_variant(metadata@, variants.deep_view(), 0) is None,
        },
{
    let wanted = String::from_str("Some");
    let mut i: usize = 0;
    while i < variants.len()
        invariant
            i <= variants.len(),
            wanted@ == "Some"@,
            some_variant(metadata@, variants.deep_view(), 0) == some_variant(
                metadata@,
                variants.deep_view(),
                i as int,
            ),
        decreases variants.len() - i,
    {
        let data = metadata.get_matching_enum_variant_data(variants[i].0, variants.len());
        let is_some = match data.variant_name {
            Some(name) => *name == wanted,
            None => false,
        };
        proof {
            assert(variants.deep_view()[i as int] == (variants@[i as int].0, variants@[i as int].1@));
            assert(variants.deep_view().len() == variants@.len());
        }
        if is_some {
            return Some(&variants[i].1);
        }
        i += 1;
    }
    None
}

/// Registers the variants of an enum one after the other, each as an entry
/// for its fields.
fn register_variants(
    variants: &Vec<(u8, Vec<LocalTypeId>)>,
    registry: &mut SchemaRegistry,
    schema: &DecodedSchema,
    metadata: &TypeMetadata,
    fuel: usize,
) -> (result: Result<Vec<(String, u32)>, SchemaError>)
    ensures
        extends(final(registry)@, old(registry)@),
        match result {
            Ok(named) => registered_variants(
                schema@,
                old(registry)@,
                metadata@,
                variants.deep_view(),
                0,
                Seq::empty(),
                fuel as nat,
            ) == Ok::<_, SchemaError>((final(registry)@, named.deep_view())) && forall|i: int|
                0 <= i < named@.len() ==> (#[trigger] named@[i]).1 < final(registry)@.len(),
            Err(e) => registered_variants(
                schema@,
                old(registry)@,
                metadata@,
                variants.deep_view(),
                0,
                Seq::empty(),
                fuel as nat,
            ) == Err::<(Seq<EntryView>, Seq<(Seq<char>, u32)>), _>(e),
        },
    decreases fuel, 4nat, variants.len(),
{
    let ghost start = registry@;
    let mut named: Vec<(String, u32)> = Vec::new();
    let mut k: usize = 0;
    assert(named.deep_view() =~= Seq::<(Seq<char>, u32)>::empty());
    while k < variants.len()
        invariant
            k <= variants.len(),
            start == old(registry)@,
            extends(registry@, start),
            registered_variants(
                schema@,
                start,
                metadata@,
                variants.deep_view(),
                0,
                Seq::empty(),
                fuel as nat,
            ) == registered_variants(
                schema@,
                registry@,
                metadata@,
                variants.deep_view(),
                k as nat,
                named.deep_view(),
                fuel as nat,
            ),
            forall|i: int| 0 <= i < named@.len() ==> (#[trigger] named@[i]).1 < registry@.len(),
        decreases variants.len() - k,
    {
        let field_types = &variants[k].1;
        let data = metadata.get_matching_enum_variant_data(variants[k].0, field_types.len());
        proof {
            assert(variants.deep_view()[k as int] == (variants@[k as int].0, variants@[k as int].1@));
            assert(variants.deep_view().len() == variants@.len());
        }
        match register_all(registry, schema, field_types, fuel) {
            Err(e) => {
                return Err(e);
            },
            Ok(indices) => {
                match data.field_names {
                    Some(names) => {
                        assert(names.deep_view().len() == names@.len());
                    },
                    None => {},
                }
                let dependencies = collect_deps(registry, &indices);
                let type_hash = TypeHash::create_unnamed(data.field_names, field_types);
                let schema_kind = make_tuple_kind(data.field_names, indices);
                let entry = RegistryEntry { type_hash, name: None, schema_kind, dependencies };
                match append_entry(registry, &entry) {
                    Err(e) => {
                        return Err(e);
                    },
                    Ok(index) => {
                        let label = match data.variant_name {
                            Some(name) => name.clone(),
                            None => String::from_str("<unnamed>"),
                        };
                        let ghost before = named.deep_view();
                        named.push((label, index));
                        assert(named.deep_view() =~= before.push(
                            (variant_label(data@.variant_name), index),
                        ));
                    },
                }
            },
        }
        k += 1;
    }
    Ok(named)
}

/// The indices of the entries that the variants refer to.
fn variant_indices(named: &Vec<(String, u32)>) -> (indices: Vec<u32>)
    ensures
        indices@ == indices_of(named.deep_view()),
{
    let mut indices: Vec<u32> = Vec::new();
    let mut i: usize = 0;
    while i < named.len()
        invariant
            i <= named.len(),
            indices@.len() == i,
            forall|j: int| 0 <= j < i ==> indices@[j] == (#[trigger] named@[j]).1,
        decreases named.len() - i,
    {
        indices.push(named[i].1);
        i += 1;
    }
    assert(indices@ =~= indices_of(named.deep_view()));
    indices
}

/// The entry of an enum: an option where the enum has the name `Option`,
/// else an enum of its variants.
fn handle_enum(
    variants: &Vec<(u8, Vec<LocalTypeId>)>,
    registry: &mut SchemaRegistry,
    schema: &DecodedSchema,
    metadata: &TypeMetadata,
    kind: &TypeKind,
    fuel: usize,
) -> (result: Result<RegistryEntry, SchemaError>)
    ensures
        extends(final(registry)@, old(registry)@),
        match result {
            Ok(entry) => enum_entry(
                schema@,
                old(registry)@,
                metadata@,
                kind@,
                variants.deep_view(),
                fuel as nat,
            ) == Ok::<_, SchemaError>((final(registry)@, entry@)),
            Err(e) => enum_entry(
                schema@,
                old(registry)@,
                metadata@,
                kind@,
                variants.deep_view(),
                fuel as nat,
            ) == Err::<(Seq<EntryView>, EntryView), _>(e),
        },
    decreases fuel, 5nat, 0nat,
{
    let option_name = String::from_str("Option");
    let is_option_enum = match &metadata.name {
        Some(name) => *name == option_name,
        None => false,
    };
    assert(is_option_enum == is_option(metadata@));
    if is_option_enum {
        match find_some_variant(metadata, variants) {
            None => Err(SchemaError::MalformedOption),
            Some(field_types) => match register_all(registry, schema, field_types, fuel) {
                Err(e) => Err(e),
                Ok(indices) => {
                    let dependencies = collect_deps(registry, &indices);
                    Ok(
                        RegistryEntry {
                            type_hash: TypeHash::create(metadata, kind),
                            name: clone_name(&metadata.name),
                            schema_kind: SborEzModeSchemaKind::Option { inner_types: indices },
                            dependencies,
                        },
                    )
                },
            },
        }
    } else {
        match register_variants(variants, registry, schema, metadata, fuel) {
            Err(e) => Err(e),
            Ok(named) => {
                let indices = variant_indices(&named);
                let dependencies = collect_deps(registry, &indices);
                Ok(
                    RegistryEntry {
                        type_hash: TypeHash::create(metadata, kind),
                        name: clone_name(&metadata.name),
                        schema_kind: SborEzModeSchemaKind::Enum { variants: named },
                        dependencies,
                    },
                )
            },
        }
    }
}

/// The entry of the type `type_id` with the given metadata and kind. The
/// types that it is made of are registered on the way.
fn create_entry(
    registry: &mut SchemaRegistry,
    schema: &DecodedSchema,
    metadata: &TypeMetadata,
    kind: &TypeKind,
    type_id: LocalTypeId,
    fuel: usize,
) -> (result: Result<RegistryEntry, SchemaError>)
    ensures
        extends(final(registry)@, old(registry)@),
        match result {
            Ok(entry) => created_entry(
                schema@,
                old(registry)@,
                metadata@,
                kind@,
                type_id,
                fuel as nat,
            ) == Ok::<_, SchemaError>((final(registry)@, entry@)),
            Err(e) => created_entry(
                schema@,
                old(registry)@,
                metadata@,
                kind@,
                type_id,
                fuel as nat,
            ) == Err::<(Seq<EntryView>, EntryView), _>(e),
        },
    decreases fuel, 6nat, 0nat,
{
    match kind {
        TypeKind::Tuple { field_types } => handle_tuple(
            field_types,
            registry,
            schema,
            metadata,
            kind,
            fuel,
        ),
        TypeKind::Custom(custom) => Ok(handle_custom(custom, metadata, kind)),
        TypeKind::Array { element_type } => handle_array(
            *element_type,
            registry,
            schema,
            metadata,
            kind,
            fuel,
        ),
        TypeKind::Enum { variants } => handle_enum(variants, registry, schema, metadata, kind, fuel),
        TypeKind::Mapping { key_type, value_type } => handle_map(
            *key_type,
            *value_type,
            registry,
            schema,
            metadata,
            kind,
            fuel,
        ),
        TypeKind::Bool => Ok(leaf(metadata, kind, SborEzModeSchemaKind::Bool)),
        TypeKind::U8
        | TypeKind::U16
        | TypeKind::U32
        | TypeKind::U64
        | TypeKind::U128
        | TypeKind::I8
        | TypeKind::I16
        | TypeKind::I32
        | TypeKind::I128 => Ok(leaf(metadata, kind, SborEzModeSchemaKind::Number)),
        TypeKind::I64 => {
            if type_id == LocalTypeId::WellKnown(INSTANT_TYPE) {
                Ok(leaf(metadata, kind, SborEzModeSchemaKind::Instant))
            } else {
                Ok(leaf(metadata, kind, SborEzModeSchemaKind::Number))
            }
        },
        TypeKind::String => Ok(leaf(metadata, kind, SborEzModeSchemaKind::String)),
        TypeKind::Any => Ok(leaf(metadata, kind, SborEzModeSchemaKind::Value)),
    }
}


impl SchemaRegistry {
    /// Whether the registry holds the type with the given kind and metadata.
    pub fn has_type(&self, kind: &TypeKind, metadata: &TypeMetadata) -> (present: bool)
        ensures
            present == has_key(self@, fingerprint(metadata@, kind@)),
    {
        let key = TypeHash::create(metadata, kind);
        self.position(&key).is_some()
    }

    /// Looks up or registers the type `type_id` of `schema`, which has the
    /// given metadata and kind, and returns the index of its entry. Where an
    /// entry with the fingerprint of the type is there, the registry stays as
    /// it is. Else the type is classified, the types that it is made of are
    /// registered before it, and its entry is appended: it gets the last
    /// index. On an error the registry stays as it was.
    pub fn get_or_register(
        &mut self,
        schema: &DecodedSchema,
        metadata: &TypeMetadata,
        kind: &TypeKind,
        type_id: LocalTypeId,
    ) -> (result: Result<u32, SchemaError>)
        ensures
            match result {
                Ok(index) => got_or_registered(
                    schema@,
                    old(self)@,
                    metadata@,
                    kind@,
                    type_id,
                    depth_limit(schema@),
                ) == Ok::<_, SchemaError>((final(self)@, index)) && index < final(self)@.len(),
                Err(e) => got_or_registered(
                    schema@,
                    old(self)@,
                    metadata@,
                    kind@,
                    type_id,
                    depth_limit(schema@),
                ) == Err::<(Seq<EntryView>, u32), _>(e) && final(self)@ == old(self)@,
            },
            result matches Ok(index) ==> position_of(final(self)@, fingerprint(metadata@, kind@))
                == Some(index as int),
            has_key(old(self)@, fingerprint(metadata@, kind@)) ==> final(self)@ == old(self)@ && (
            result is Ok <==> old(self)@.len() <= u32::MAX),
            !has_key(old(self)@, fingerprint(metadata@, kind@)) ==> (result matches Ok(index)
                ==> index == final(self)@.len() - 1 && final(self)@.len() > old(self)@.len()),
            extends(final(self)@, old(self)@),
            keys_are_unique(old(self)@) ==> keys_are_unique(final(self)@),
            is_sound(old(self)@) ==> is_sound(final(self)@),
    {
        proof {
            lemma_position_of_present_key(old(self)@, fingerprint(metadata@, kind@));
            if keys_are_unique(old(self)@) {
                law_classification_keeps_keys_unique(
                    schema@,
                    old(self)@,
                    metadata@,
                    kind@,
                    type_id,
                    depth_limit(schema@),
                );
            }
            crate::ez_mode_gen::laws::lemma_registered_type_is_found(
                schema@,
                old(self)@,
                metadata@,
                kind@,
                type_id,
                depth_limit(schema@),
            );
            if is_sound(old(self)@) {
                law_classification_keeps_soundness(
                    schema@,
                    old(self)@,
                    metadata@,
                    kind@,
                    type_id,
                    depth_limit(schema@),
                );
            }
        }
        let len = self.entries.len();
        let result = get_or_register_within(
            self,
            schema,
            metadata,
            kind,
            type_id,
            schema.depth_limit(),
        );
        if result.is_err() {
            let ghost grown = self@;
            self.entries.truncate(len);
            assert forall|i: int| 0 <= i < old(self)@.len() implies self@[i] == old(self)@[i] by {
                assert(grown[i] == old(self)@[i]);
            }
            assert(self@ =~= old(self)@);
        }
        result
    }
}

} // verus!
