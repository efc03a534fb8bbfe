//! What classification keeps true of a registry: fingerprints stay unique,
//! and every entry refers to entries before it alone. Such a registry has a
//! dependency order and a rendering.

use crate::decoded::{
    depth_limit, field_names_of, matching_variant_data, resolved_kind, resolved_metadata,
    DecodedSchemaView, LocalTypeId, TypeKindView, TypeMetadataView,
};
use crate::ez_mode_gen::classify::{
    added, appended, array_entry, children_deps, created_entry, enum_entry, extends, got_or_registered,
    indices_of, is_option, map_entry, named_fields, payload_entry, registered_all,
    registered_type, registered_variants, some_variant, tuple_entry, tuple_kind, variant_label,
    with_dep, with_deps,
};
use crate::ez_mode_gen::error::SchemaError;
use crate::ez_mode_gen::fingerprint::fingerprint;
use crate::ez_mode_gen::generate::{
    generated, has_local_type, registered_roots, root_types, DecodedBlueprintView,
};
use crate::ez_mode_gen::order::{
    deps_within, is_dependency_order, is_ready, keeps_insertion_order,
};
use crate::ez_mode_gen::registry::{
    keys_are_unique, lemma_position_of_present_key, lemma_register_keeps_keys_unique, position_of,
    registered, spec_is_inline, EntryView, KindView,
};
use crate::ez_mode_gen::render::{
    child_text, declaration_text, declarations_text, document_text, entry_text, expression_text,
    header_text, is_renderable, is_rendering, joined_children, joined_fields, joined_variants,
};
use vstd::prelude::*;

verus! {

/// Whether every index in `indices` is below `bound`.
pub open spec fn all_below(indices: Seq<u32>, bound: int) -> bool {
    forall|k: int| 0 <= k < indices.len() ==> (#[trigger] indices[k]) < bound
}

/// Whether every index that names come with is below `bound`.
pub open spec fn all_named_below(items: Seq<(Seq<char>, u32)>, bound: int) -> bool {
    forall|k: int| 0 <= k < items.len() ==> (#[trigger] items[k]).1 < bound
}

/// Whether a schema of this kind is made of entries below `bound` alone.
pub open spec fn kind_refers_below(kind: KindView, bound: int) -> bool {
    match kind {
        KindView::Struct { fields } => all_named_below(fields, bound),
        KindView::Tuple { fields } => all_below(fields, bound),
        KindView::Array { element_type } => element_type < bound,
        KindView::Mapping { key_type, value_type } => key_type < bound && value_type < bound,
        KindView::Enum { variants } => all_named_below(variants, bound),
        KindView::Option { inner_types } => all_below(inner_types, bound),
        _ => true,
    }
}

/// Whether the entry is made of, and depends on, entries below `bound`
/// alone.
pub open spec fn entry_refers_below(entry: EntryView, bound: int) -> bool {
    all_below(entry.dependencies, bound) && kind_refers_below(entry.schema_kind, bound)
}

/// Whether every entry is made of, and depends on, entries before it alone.
pub open spec fn refers_backwards(reg: Seq<EntryView>) -> bool {
    forall|i: int| 0 <= i < reg.len() ==> entry_refers_below(#[trigger] reg[i], i)
}

/// Whether the registry is as classification leaves it: a `u32` can index
/// its entries, no two entries have the same fingerprint, and every entry
/// refers to entries before it alone.
pub open spec fn is_sound(reg: Seq<EntryView>) -> bool {
    &&& reg.len() <= u32::MAX
    &&& keys_are_unique(reg)
    &&& refers_backwards(reg)
}

proof fn lemma_with_dep_below(deps: Seq<u32>, index: u32, bound: int)
    requires
        all_below(deps, bound),
        index < bound,
    ensures
        all_below(with_dep(deps, index), bound),
{
}

proof fn lemma_with_deps_below(deps: Seq<u32>, more: Seq<u32>, bound: int)
    requires
        all_below(deps, bound),
        all_below(more, bound),
    ensures
        all_below(with_deps(deps, more), bound),
    decreases more.len(),
{
    if more.len() > 0 {
        assert(all_below(more.drop_last(), bound)) by {
            assert forall|k: int| 0 <= k < more.drop_last().len() implies (
            #[trigger] more.drop_last()[k]) < bound by {
                assert(more.drop_last()[k] == more[k]);
            }
        }
        lemma_with_deps_below(deps, more.drop_last(), bound);
        lemma_with_dep_below(with_deps(deps, more.drop_last()), more.last(), bound);
    }
}

/// What an entry made of children below `bound` depends on is below
/// `bound`.
proof fn lemma_children_deps_below(reg: Seq<EntryView>, children: Seq<u32>, bound: int)
    requires
        refers_backwards(reg),
        all_below(children, bound),
        bound <= reg.len(),
    ensures
        all_below(children_deps(reg, children), bound),
    decreases children.len(),
{
    if children.len() > 0 {
        let child = children.last();
        assert(all_below(children.drop_last(), bound)) by {
            assert forall|k: int| 0 <= k < children.drop_last().len() implies (
            #[trigger] children.drop_last()[k]) < bound by {
                assert(children.drop_last()[k] == children[k]);
            }
        }
        lemma_children_deps_below(reg, children.drop_last(), bound);
        assert(entry_refers_below(reg[child as int], child as int));
        assert(all_below(reg[child as int].dependencies, bound)) by {
            assert forall|k: int| 0 <= k < reg[child as int].dependencies.len() implies (
            #[trigger] reg[child as int].dependencies[k]) < bound by {}
        }
        lemma_with_deps_below(
            children_deps(reg, children.drop_last()),
            reg[child as int].dependencies,
            bound,
        );
        lemma_with_dep_below(
            with_deps(children_deps(reg, children.drop_last()), reg[child as int].dependencies),
            child,
            bound,
        );
    }
}

/// Appending an entry that refers to entries of a sound registry keeps the
/// registry sound.
proof fn lemma_appended(reg: Seq<EntryView>, entry: EntryView)
    requires
        is_sound(reg),
        entry_refers_below(entry, reg.len() as int),
    ensures
        appended(reg, entry) matches Ok(done) ==> is_sound(done.0) && extends(done.0, reg)
            && done.1 < done.0.len(),
{
    lemma_position_of_present_key(reg, entry.type_hash);
    lemma_register_keeps_keys_unique(reg, entry);
    if position_of(reg, entry.type_hash) is None && reg.len() < u32::MAX {
        let grown = reg.push(entry);
        assert(registered(reg, entry).0 == grown);
        assert forall|i: int| 0 <= i < grown.len() implies entry_refers_below(
            #[trigger] grown[i],
            i,
        ) by {
            if i < reg.len() {
                assert(grown[i] == reg[i]);
            }
        }
    }
}

proof fn lemma_registered_type(
    schema: DecodedSchemaView,
    reg: Seq<EntryView>,
    id: LocalTypeId,
    fuel: nat,
)
    requires
        is_sound(reg),
    ensures
        registered_type(schema, reg, id, fuel) matches Ok(done) ==> is_sound(done.0) && extends(
            done.0,
            reg,
        ) && done.1 < done.0.len(),
    decreases fuel, 2nat, 0nat,
{
    match (resolved_metadata(schema, id), resolved_kind(schema, id)) {
        (Some(metadata), Some(kind)) => {
            lemma_got_or_registered(schema, reg, metadata, kind, id, fuel);
        },
        _ => {},
    }
}

proof fn lemma_got_or_registered(
    schema: DecodedSchemaView,
    reg: Seq<EntryView>,
    metadata: TypeMetadataView,
    kind: TypeKindView,
    id: LocalTypeId,
    fuel: nat,
)
    requires
        is_sound(reg),
    ensures
        got_or_registered(schema, reg, metadata, kind, id, fuel) matches Ok(done) ==> is_sound(
            done.0,
        ) && extends(done.0, reg) && done.1 < done.0.len(),
    decreases fuel, 1nat, 0nat,
{
    lemma_position_of_present_key(reg, fingerprint(metadata, kind));
    if position_of(reg, fingerprint(metadata, kind)) is None && fuel > 0 {
        lemma_created_entry(schema, reg, metadata, kind, id, (fuel - 1) as nat);
        match created_entry(schema, reg, metadata, kind, id, (fuel - 1) as nat) {
            Ok((made, entry)) => {
                lemma_appended(made, entry);
            },
            Err(_) => {},
        }
    }
}

proof fn lemma_registered_all(
    schema: DecodedSchemaView,
    reg: Seq<EntryView>,
    ids: Seq<LocalTypeId>,
    k: nat,
    acc: Seq<u32>,
    fuel: nat,
)
    requires
        is_sound(reg),
        all_below(acc, reg.len() as int),
    ensures
        registered_all(schema, reg, ids, k, acc, fuel) matches Ok(done) ==> is_sound(done.0)
            && extends(done.0, reg) && all_below(done.1, done.0.len() as int),
    decreases fuel, 3nat, ids.len() - k,
{
    if k < ids.len() {
        lemma_registered_type(schema, reg, ids[k as int], fuel);
        match registered_type(schema, reg, ids[k as int], fuel) {
            Ok((next, index)) => {
                assert(all_below(acc.push(index), next.len() as int)) by {
                    assert forall|j: int| 0 <= j < acc.push(index).len() implies (
                    #[trigger] acc.push(index)[j]) < next.len() by {
                        if j < acc.len() {
                            assert(acc.push(index)[j] == acc[j]);
                        }
                    }
                }
                lemma_registered_all(schema, next, ids, k + 1, acc.push(index), fuel);
            },
            Err(_) => {},
        }
    }
}

/// The kind of a tuple whose fields are below `bound` is made of entries
/// below `bound`.
proof fn lemma_tuple_kind_below(
    field_names: Option<Seq<Seq<char>>>,
    indices: Seq<u32>,
    bound: int,
)
    requires
        all_below(indices, bound),
    ensures
        kind_refers_below(tuple_kind(field_names, indices), bound),
{
    match field_names {
        Some(names) => {
            assert forall|k: int| 0 <= k < named_fields(names, indices).len() implies (
            #[trigger] named_fields(names, indices)[k]).1 < bound by {
                assert(named_fields(names, indices)[k].1 == indices[k]);
            }
        },
        None => {},
    }
}

proof fn lemma_tuple_entry(
    schema: DecodedSchemaView,
    reg: Seq<EntryView>,
    metadata: TypeMetadataView,
    kind: TypeKindView,
    field_types: Seq<LocalTypeId>,
    fuel: nat,
)
    requires
        is_sound(reg),
    ensures
        tuple_entry(schema, reg, metadata, kind, field_types, fuel) matches Ok(done) ==> is_sound(
            done.0,
        ) && extends(done.0, reg) && entry_refers_below(done.1, done.0.len() as int),
    decreases fuel, 5nat, 0nat,
{
    lemma_registered_all(schema, reg, field_types, 0, Seq::empty(), fuel);
    match registered_all(schema, reg, field_types, 0, Seq::empty(), fuel) {
        Ok((made, indices)) => {
            lemma_children_deps_below(made, indices, made.len() as int);
            lemma_tuple_kind_below(field_names_of(metadata), indices, made.len() as int);
        },
        Err(_) => {},
    }
}

proof fn lemma_array_entry(
    schema: DecodedSchemaView,
    reg: Seq<EntryView>,
    metadata: TypeMetadataView,
    kind: TypeKindView,
    element_type: LocalTypeId,
    fuel: nat,
)
    requires
        is_sound(reg),
    ensures
        array_entry(schema, reg, metadata, kind, element_type, fuel) matches Ok(done) ==> is_sound(
            done.0,
        ) && extends(done.0, reg) && entry_refers_below(done.1, done.0.len() as int),
    decreases fuel, 5nat, 0nat,
{
    lemma_registered_type(schema, reg, element_type, fuel);
    match registered_type(schema, reg, element_type, fuel) {
        Ok((made, index)) => {
            lemma_children_deps_below(made, seq![index], made.len() as int);
        },
        Err(_) => {},
    }
}

proof fn lemma_map_entry(
    schema: DecodedSchemaView,
    reg: Seq<EntryView>,
    metadata: TypeMetadataView,
    kind: TypeKindView,
    key_type: LocalTypeId,
    value_type: LocalTypeId,
    fuel: nat,
)
    requires
        is_sound(reg),
    ensures
        map_entry(schema, reg, metadata, kind, key_type, value_type, fuel) matches Ok(done)
            ==> is_sound(done.0) && extends(done.0, reg) && entry_refers_below(
            done.1,
            done.0.len() as int,
        ),
    decreases fuel, 5nat, 0nat,
{
    lemma_registered_type(schema, reg, key_type, fuel);
    match registered_type(schema, reg, key_type, fuel) {
        Ok((with_key, key_index)) => {
            lemma_registered_type(schema, with_key, value_type, fuel);
            match registered_type(schema, with_key, value_type, fuel) {
                Ok((made, value_index)) => {
                    lemma_children_deps_below(
                        made,
                        seq![key_index, value_index],
                        made.len() as int,
                    );
                },
                Err(_) => {},
            }
        },
        Err(_) => {},
    }
}

proof fn lemma_registered_variants(
    schema: DecodedSchemaView,
    reg: Seq<EntryView>,
    metadata: TypeMetadataView,
    variants: Seq<(u8, Seq<LocalTypeId>)>,
    k: nat,
    acc: Seq<(Seq<char>, u32)>,
    fuel: nat,
)
    requires
        is_sound(reg),
        all_named_below(acc, reg.len() as int),
    ensures
        registered_variants(schema, reg, metadata, variants, k, acc, fuel) matches Ok(done)
            ==> is_sound(done.0) && extends(done.0, reg) && all_named_below(
            done.1,
            done.0.len() as int,
        ),
    decreases fuel, 4nat, variants.len() - k,
{
    if k < variants.len() {
        let field_types = variants[k as int].1;
        let data = matching_variant_data(metadata, variants[k as int].0, field_types.len());
        lemma_registered_all(schema, reg, field_types, 0, Seq::empty(), fuel);
        match registered_all(schema, reg, field_types, 0, Seq::empty(), fuel) {
            Ok((with_fields, indices)) => {
                let payload = payload_entry(with_fields, data.field_names, field_types, indices);
                lemma_children_deps_below(with_fields, indices, with_fields.len() as int);
                lemma_tuple_kind_below(data.field_names, indices, with_fields.len() as int);
                lemma_appended(with_fields, payload);
                match appended(with_fields, payload) {
                    Ok((next, index)) => {
                        let grown = acc.push((variant_label(data.variant_name), index));
                        assert(all_named_below(grown, next.len() as int)) by {
                            assert forall|j: int| 0 <= j < grown.len() implies (
                            #[trigger] grown[j]).1 < next.len() by {
                                if j < acc.len() {
                                    assert(grown[j] == acc[j]);
                                }
                            }
                        }
                        lemma_registered_variants(
                            schema,
                            next,
                            metadata,
                            variants,
                            k + 1,
                            grown,
                            fuel,
                        );
                    },
                    Err(_) => {},
                }
            },
            Err(_) => {},
        }
    }
}

proof fn lemma_enum_entry(
    schema: DecodedSchemaView,
    reg: Seq<EntryView>,
    metadata: TypeMetadataView,
    kind: TypeKindView,
    variants: Seq<(u8, Seq<LocalTypeId>)>,
    fuel: nat,
)
    requires
        is_sound(reg),
    ensures
        enum_entry(schema, reg, metadata, kind, variants, fuel) matches Ok(done) ==> is_sound(
            done.0,
        ) && extends(done.0, reg) && entry_refers_below(done.1, done.0.len() as int),
    decreases fuel, 5nat, 0nat,
{
    if is_option(metadata) {
        match some_variant(metadata, variants, 0) {
            Some(field_types) => {
                lemma_registered_all(schema, reg, field_types, 0, Seq::empty(), fuel);
                match registered_all(schema, reg, field_types, 0, Seq::empty(), fuel) {
                    Ok((made, indices)) => {
                        lemma_children_deps_below(made, indices, made.len() as int);
                    },
                    Err(_) => {},
                }
            },
            None => {},
        }
    } else {
        lemma_registered_variants(schema, reg, metadata, variants, 0, Seq::empty(), fuel);
        match registered_variants(schema, reg, metadata, variants, 0, Seq::empty(), fuel) {
            Ok((made, named)) => {
                assert(all_below(indices_of(named), made.len() as int)) by {
                    assert forall|j: int| 0 <= j < indices_of(named).len() implies (
                    #[trigger] indices_of(named)[j]) < made.len() by {
                        assert(indices_of(named)[j] == named[j].1);
                    }
                }
                lemma_children_deps_below(made, indices_of(named), made.len() as int);
            },
            Err(_) => {},
        }
    }
}

proof fn lemma_created_entry(
    schema: DecodedSchemaView,
    reg: Seq<EntryView>,
    metadata: TypeMetadataView,
    kind: TypeKindView,
    id: LocalTypeId,
    fuel: nat,
)
    requires
        is_sound(reg),
    ensures
        created_entry(schema, reg, metadata, kind, id, fuel) matches Ok(done) ==> is_sound(done.0)
            && extends(done.0, reg) && entry_refers_below(done.1, done.0.len() as int),
    decreases fuel, 6nat, 0nat,
{
    match kind {
        TypeKindView::Tuple { field_types } => {
            lemma_tuple_entry(schema, reg, metadata, kind, field_types, fuel);
        },
        TypeKindView::Array { element_type } => {
            lemma_array_entry(schema, reg, metadata, kind, element_type, fuel);
        },
        TypeKindView::Enum { variants } => {
            lemma_enum_entry(schema, reg, metadata, kind, variants, fuel);
        },
        TypeKindView::Mapping { key_type, value_type } => {
            lemma_map_entry(schema, reg, metadata, kind, key_type, value_type, fuel);
        },
        _ => {},
    }
}

/// Classification keeps a registry sound: where a type is looked up or
/// registered in a sound registry, the registry that results is sound, begins
/// with the entries that were there, and holds the entry at the index given.
pub proof fn law_classification_keeps_soundness(
    schema: DecodedSchemaView,
    reg: Seq<EntryView>,
    metadata: TypeMetadataView,
    kind: TypeKindView,
    id: LocalTypeId,
    fuel: nat,
)
    requires
        is_sound(reg),
    ensures
        got_or_registered(schema, reg, metadata, kind, id, fuel) matches Ok(done) ==> is_sound(
            done.0,
        ) && extends(done.0, reg) && done.1 < done.0.len(),
{
    lemma_got_or_registered(schema, reg, metadata, kind, id, fuel);
}

proof fn lemma_registered_roots(
    schema: DecodedSchemaView,
    reg: Seq<EntryView>,
    roots: Seq<u32>,
    k: nat,
)
    requires
        is_sound(reg),
    ensures
        registered_roots(schema, reg, roots, k) matches Ok(done) ==> is_sound(done),
    decreases roots.len() - k,
{
    if k < roots.len() {
        if has_local_type(schema, roots[k as int]) {
            let index = roots[k as int];
            lemma_got_or_registered(
                schema,
                reg,
                schema.type_metadata[index as int],
                schema.type_kinds[index as int],
                LocalTypeId::SchemaLocalIndex(index as usize),
                depth_limit(schema),
            );
            match got_or_registered(
                schema,
                reg,
                schema.type_metadata[index as int],
                schema.type_kinds[index as int],
                LocalTypeId::SchemaLocalIndex(index as usize),
                depth_limit(schema),
            ) {
                Ok((next, _)) => {
                    lemma_registered_roots(schema, next, roots, k + 1);
                },
                Err(_) => {},
            }
        } else {
            lemma_registered_roots(schema, reg, roots, k + 1);
        }
    }
}

proof fn lemma_generated(blueprints: Seq<DecodedBlueprintView>, remaining: nat, reg: Seq<EntryView>)
    requires
        is_sound(reg),
    ensures
        generated(blueprints, remaining, reg) matches Ok(done) ==> is_sound(done),
    decreases remaining,
{
    if remaining != 0 && remaining <= blueprints.len() {
        let blueprint = blueprints[remaining - 1];
        lemma_registered_roots(blueprint.schema, reg, root_types(blueprint.blueprint), 0);
        match registered_roots(blueprint.schema, reg, root_types(blueprint.blueprint), 0) {
            Ok(next) => {
                lemma_generated(blueprints, (remaining - 1) as nat, next);
            },
            Err(_) => {},
        }
    }
}

/// The registry of the types of blueprints is sound.
pub proof fn law_generated_registry_is_sound(
    blueprints: Seq<DecodedBlueprintView>,
    reg: Seq<EntryView>,
)
    requires
        generated(blueprints, blueprints.len(), Seq::empty()) == Ok::<_, SchemaError>(reg),
    ensures
        is_sound(reg),
{
    lemma_generated(blueprints, blueprints.len(), Seq::empty());
}


/// The indices of the entries of a registry, in the order of the registry.
pub open spec fn insertion_order(reg: Seq<EntryView>) -> Seq<u32> {
    Seq::new(reg.len(), |i: int| i as u32)
}

/// A sound registry can be declared in the order in which its entries were
/// registered: that order is its dependency order that keeps insertion
/// order.
pub proof fn law_sound_registry_is_ordered(reg: Seq<EntryView>)
    requires
        is_sound(reg),
    ensures
        is_dependency_order(reg, insertion_order(reg)),
        keeps_insertion_order(reg, insertion_order(reg)),
{
    let order = insertion_order(reg);
    assert forall|p: int| 0 <= p < order.len() implies deps_within(
        reg,
        #[trigger] order.take(p),
        order[p] as int,
    ) by {
        assert(entry_refers_below(reg[p], p));
        assert forall|k: int| 0 <= k < reg[p].dependencies.len() implies order.take(p).contains(
            #[trigger] reg[p].dependencies[k],
        ) by {
            let d = reg[p].dependencies[k];
            assert(order.take(p)[d as int] == d);
        }
    }
    assert forall|p: int, j: int| 0 <= p < order.len() && 0 <= j < order[p] implies !#[trigger] is_ready(
        reg,
        order.take(p),
        j,
    ) by {
        assert(order.take(p)[j] == j as u32);
    }
}

proof fn lemma_child_text(reg: Seq<EntryView>, child: u32, fuel: nat)
    requires
        refers_backwards(reg),
        child < reg.len(),
        fuel > child,
    ensures
        child_text(reg, child, fuel) is Some,
    decreases child, 3nat, 0nat,
{
    if spec_is_inline(reg[child as int]) {
        assert(entry_refers_below(reg[child as int], child as int));
        lemma_expression_text(reg, reg[child as int].schema_kind, child as int, (fuel - 1) as nat);
    }
}

proof fn lemma_joined_children(
    reg: Seq<EntryView>,
    children: Seq<u32>,
    k: nat,
    acc: Seq<char>,
    bound: int,
    fuel: nat,
)
    requires
        refers_backwards(reg),
        all_below(children, bound),
        0 <= bound <= reg.len(),
        fuel >= bound,
    ensures
        joined_children(reg, children, k, acc, fuel) is Some,
    decreases bound, 1nat, children.len() - k,
{
    if k < children.len() {
        lemma_child_text(reg, children[k as int], fuel);
        let text = child_text(reg, children[k as int], fuel)->0;
        lemma_joined_children(
            reg,
            children,
            k + 1,
            if k == 0 {
                acc + text
            } else {
                acc + ", "@ + text
            },
            bound,
            fuel,
        );
    }
}

proof fn lemma_joined_fields(
    reg: Seq<EntryView>,
    fields: Seq<(Seq<char>, u32)>,
    k: nat,
    acc: Seq<char>,
    bound: int,
    fuel: nat,
)
    requires
        refers_backwards(reg),
        all_named_below(fields, bound),
        0 <= bound <= reg.len(),
        fuel >= bound,
    ensures
        joined_fields(reg, fields, k, acc, fuel) is Some,
    decreases bound, 1nat, fields.len() - k,
{
    if k < fields.len() {
        lemma_child_text(reg, fields[k as int].1, fuel);
        let text = child_text(reg, fields[k as int].1, fuel)->0;
        lemma_joined_fields(
            reg,
            fields,
            k + 1,
            if k == 0 {
                acc + fields[k as int].0 + ": "@ + text
            } else {
                acc + ",\n  "@ + fields[k as int].0 + ": "@ + text
            },
            bound,
            fuel,
        );
    }
}

proof fn lemma_joined_variants(
    reg: Seq<EntryView>,
    variants: Seq<(Seq<char>, u32)>,
    k: nat,
    acc: Seq<char>,
    bound: int,
    fuel: nat,
)
    requires
        refers_backwards(reg),
        all_named_below(variants, bound),
        0 <= bound <= reg.len(),
        fuel >= bound,
    ensures
        joined_variants(reg, variants, k, acc, fuel) is Some,
    decreases bound, 1nat, variants.len() - k,
{
    if k < variants.len() {
        lemma_child_text(reg, variants[k as int].1, fuel);
        let text = child_text(reg, variants[k as int].1, fuel)->0;
        lemma_joined_variants(
            reg,
            variants,
            k + 1,
            if k == 0 {
                acc + "  { variant: \""@ + variants[k as int].0 + "\", schema: "@ + text + " }"@
            } else {
                acc + ",\n"@ + "  { variant: \""@ + variants[k as int].0 + "\", schema: "@ + text
                    + " }"@
            },
            bound,
            fuel,
        );
    }
}

proof fn lemma_expression_text(reg: Seq<EntryView>, kind: KindView, bound: int, fuel: nat)
    requires
        refers_backwards(reg),
        kind_refers_below(kind, bound),
        0 <= bound <= reg.len(),
        fuel >= bound,
    ensures
        expression_text(reg, kind, fuel) is Some,
    decreases bound, 2nat, 0nat,
{
    match kind {
        KindView::Mapping { key_type, value_type } => {
            lemma_child_text(reg, key_type, fuel);
            lemma_child_text(reg, value_type, fuel);
        },
        KindView::Array { element_type } => {
            lemma_child_text(reg, element_type, fuel);
        },
        KindView::Tuple { fields } => {
            lemma_joined_children(reg, fields, 0, "s.tuple(["@, bound, fuel);
        },
        KindView::Struct { fields } => {
            lemma_joined_fields(reg, fields, 0, "s.struct({\n  "@, bound, fuel);
        },
        KindView::Enum { variants } => {
            lemma_joined_variants(reg, variants, 0, "s.enum([\n"@, bound, fuel);
        },
        KindView::Option { inner_types } => {
            if inner_types.len() == 1 {
                lemma_child_text(reg, inner_types[0], fuel);
            } else {
                lemma_joined_children(reg, inner_types, 0, "s.option(s.tuple(["@, bound, fuel);
            }
        },
        _ => {},
    }
}

/// Every entry of a registry whose entries refer to entries before them has
/// an expression.
pub proof fn law_sound_registry_is_renderable(reg: Seq<EntryView>)
    requires
        refers_backwards(reg),
    ensures
        forall|i: int| 0 <= i < reg.len() ==> (#[trigger] entry_text(reg, reg[i])) is Some,
        is_renderable(reg),
{
    assert forall|i: int| 0 <= i < reg.len() implies (#[trigger] entry_text(reg, reg[i]))
        is Some by {
        assert(entry_refers_below(reg[i], i));
        lemma_expression_text(reg, reg[i].schema_kind, i, reg.len());
    }
}

/// Where every entry to declare has an expression, the declarations have a
/// text.
proof fn lemma_declarations_text(
    reg: Seq<EntryView>,
    order: Seq<u32>,
    k: nat,
    acc: Seq<char>,
    module: bool,
)
    requires
        is_renderable(reg),
    ensures
        declarations_text(reg, order, k, acc, module) is Some,
    decreases order.len() - k,
{
    if k < order.len() {
        let i = order[k as int] as int;
        if i >= reg.len() || spec_is_inline(reg[i]) {
            lemma_declarations_text(reg, order, k + 1, acc, module);
        } else {
            assert(entry_text(reg, reg[i]) is Some);
            lemma_declarations_text(
                reg,
                order,
                k + 1,
                acc + declaration_text(reg, i, module)->0,
                module,
            );
        }
    }
}

/// A sound registry has a rendering, for any package and in either form.
pub proof fn law_sound_registry_renders(
    reg: Seq<EntryView>,
    package_address: Seq<char>,
    module: bool,
)
    requires
        is_sound(reg),
    ensures
        exists|text: Seq<char>| is_rendering(reg, package_address, module, text),
{
    law_sound_registry_is_ordered(reg);
    law_sound_registry_is_renderable(reg);
    let order = insertion_order(reg);
    lemma_declarations_text(reg, order, 0, header_text(package_address, module), module);
    let text = document_text(reg, order, package_address, module)->0;
    assert(is_dependency_order(reg, order) && keeps_insertion_order(reg, order) && document_text(
        reg,
        order,
        package_address,
        module,
    ) == Some(text));
    assert(is_rendering(reg, package_address, module, text));
}

/// The types of blueprints, once they are classified, can always be
/// rendered: the registry that is generated from them has a rendering.
pub proof fn law_generated_registry_renders(
    blueprints: Seq<DecodedBlueprintView>,
    reg: Seq<EntryView>,
    package_address: Seq<char>,
    module: bool,
)
    requires
        generated(blueprints, blueprints.len(), Seq::empty()) == Ok::<_, SchemaError>(reg),
    ensures
        exists|text: Seq<char>| is_rendering(reg, package_address, module, text),
{
    law_generated_registry_is_sound(blueprints, reg);
    law_sound_registry_renders(reg, package_address, module);
}


/// Putting an entry at the end of a registry that lacks its fingerprint, or
/// registering it, keeps the fingerprints unique.
proof fn lemma_keys_after_entry(reg: Seq<EntryView>, entry: EntryView)
    requires
        keys_are_unique(reg),
    ensures
        added(reg, entry) matches Ok(done) ==> keys_are_unique(done.0),
        appended(reg, entry) matches Ok(done) ==> keys_are_unique(done.0),
{
    lemma_position_of_present_key(reg, entry.type_hash);
    lemma_register_keeps_keys_unique(reg, entry);
}

proof fn lemma_keys_registered_type(
    schema: DecodedSchemaView,
    reg: Seq<EntryView>,
    id: LocalTypeId,
    fuel: nat,
)
    requires
        keys_are_unique(reg),
    ensures
        registered_type(schema, reg, id, fuel) matches Ok(done) ==> keys_are_unique(done.0),
    decreases fuel, 2nat, 0nat,
{
    match (resolved_metadata(schema, id), resolved_kind(schema, id)) {
        (Some(metadata), Some(kind)) => {
            lemma_keys_got_or_registered(schema, reg, metadata, kind, id, fuel);
        },
        _ => {},
    }
}

proof fn lemma_keys_got_or_registered(
    schema: DecodedSchemaView,
    reg: Seq<EntryView>,
    metadata: TypeMetadataView,
    kind: TypeKindView,
    id: LocalTypeId,
    fuel: nat,
)
    requires
        keys_are_unique(reg),
    ensures
        got_or_registered(schema, reg, metadata, kind, id, fuel) matches Ok(done)
            ==> keys_are_unique(done.0),
    decreases fuel, 1nat, 0nat,
{
    if position_of(reg, fingerprint(metadata, kind)) is None && fuel > 0 {
        lemma_keys_created_entry(schema, reg, metadata, kind, id, (fuel - 1) as nat);
        match created_entry(schema, reg, metadata, kind, id, (fuel - 1) as nat) {
            Ok((made, entry)) => {
                lemma_keys_after_entry(made, entry);
            },
            Err(_) => {},
        }
    }
}

proof fn lemma_keys_registered_all(
    schema: DecodedSchemaView,
    reg: Seq<EntryView>,
    ids: Seq<LocalTypeId>,
    k: nat,
    acc: Seq<u32>,
    fuel: nat,
)
    requires
        keys_are_unique(reg),
    ensures
        registered_all(schema, reg, ids, k, acc, fuel) matches Ok(done) ==> keys_are_unique(
            done.0,
        ),
    decreases fuel, 3nat, ids.len() - k,
{
    if k < ids.len() {
        lemma_keys_registered_type(schema, reg, ids[k as int], fuel);
        match registered_type(schema, reg, ids[k as int], fuel) {
            Ok((next, index)) => {
                lemma_keys_registered_all(schema, next, ids, k + 1, acc.push(index), fuel);
            },
            Err(_) => {},
        }
    }
}

proof fn lemma_keys_registered_variants(
    schema: DecodedSchemaView,
    reg: Seq<EntryView>,
    metadata: TypeMetadataView,
    variants: Seq<(u8, Seq<LocalTypeId>)>,
    k: nat,
    acc: Seq<(Seq<char>, u32)>,
    fuel: nat,
)
    requires
        keys_are_unique(reg),
    ensures
        registered_variants(schema, reg, metadata, variants, k, acc, fuel) matches Ok(done)
            ==> keys_are_unique(done.0),
    decreases fuel, 4nat, variants.len() - k,
{
    if k < variants.len() {
        let field_types = variants[k as int].1;
        let data = matching_variant_data(metadata, variants[k as int].0, field_types.len());
        lemma_keys_registered_all(schema, reg, field_types, 0, Seq::empty(), fuel);
        match registered_all(schema, reg, field_types, 0, Seq::empty(), fuel) {
            Ok((with_fields, indices)) => {
                let payload = payload_entry(with_fields, data.field_names, field_types, indices);
                lemma_keys_after_entry(with_fields, payload);
                match appended(with_fields, payload) {
                    Ok((next, index)) => {
                        lemma_keys_registered_variants(
                            schema,
                            next,
                            metadata,
                            variants,
                            k + 1,
                            acc.push((variant_label(data.variant_name), index)),
                            fuel,
                        );
                    },
                    Err(_) => {},
                }
            },
            Err(_) => {},
        }
    }
}

proof fn lemma_keys_created_entry(
    schema: DecodedSchemaView,
    reg: Seq<EntryView>,
    metadata: TypeMetadataView,
    kind: TypeKindView,
    id: LocalTypeId,
    fuel: nat,
)
    requires
        keys_are_unique(reg),
    ensures
        created_entry(schema, reg, metadata, kind, id, fuel) matches Ok(done) ==> keys_are_unique(
            done.0,
        ),
    decreases fuel, 6nat, 0nat,
{
    match kind {
        TypeKindView::Tuple { field_types } => {
            lemma_keys_registered_all(schema, reg, field_types, 0, Seq::empty(), fuel);
            assert(tuple_entry(schema, reg, metadata, kind, field_types, fuel) matches Ok(done)
                ==> keys_are_unique(done.0));
        },
        TypeKindView::Array { element_type } => {
            lemma_keys_registered_type(schema, reg, element_type, fuel);
            assert(array_entry(schema, reg, metadata, kind, element_type, fuel) matches Ok(done)
                ==> keys_are_unique(done.0));
        },
        TypeKindView::Mapping { key_type, value_type } => {
            lemma_keys_registered_type(schema, reg, key_type, fuel);
            match registered_type(schema, reg, key_type, fuel) {
                Ok((with_key, _)) => {
                    lemma_keys_registered_type(schema, with_key, value_type, fuel);
                },
                Err(_) => {},
            }
            assert(map_entry(schema, reg, metadata, kind, key_type, value_type, fuel) matches Ok(
                done,
            ) ==> keys_are_unique(done.0));
        },
        TypeKindView::Enum { variants } => {
            if is_option(metadata) {
                match some_variant(metadata, variants, 0) {
                    Some(field_types) => {
                        lemma_keys_registered_all(schema, reg, field_types, 0, Seq::empty(), fuel);
                    },
                    None => {},
                }
            } else {
                lemma_keys_registered_variants(
                    schema,
                    reg,
                    metadata,
                    variants,
                    0,
                    Seq::empty(),
                    fuel,
                );
            }
            assert(enum_entry(schema, reg, metadata, kind, variants, fuel) matches Ok(done)
                ==> keys_are_unique(done.0));
        },
        _ => {},
    }
}

/// Classification keeps the fingerprints unique: where a type is looked up
/// or registered in a registry in which no two entries have the same
/// fingerprint, no two entries of the registry that results have.
pub proof fn law_classification_keeps_keys_unique(
    schema: DecodedSchemaView,
    reg: Seq<EntryView>,
    metadata: TypeMetadataView,
    kind: TypeKindView,
    id: LocalTypeId,
    fuel: nat,
)
    requires
        keys_are_unique(reg),
    ensures
        got_or_registered(schema, reg, metadata, kind, id, fuel) matches Ok(done)
            ==> keys_are_unique(done.0),
{
    lemma_keys_got_or_registered(schema, reg, metadata, kind, id, fuel);
}

} // verus!
