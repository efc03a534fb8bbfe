//! When classification stays within its depth limit: the types of a schema
//! that can be ranked, each above the types that it is made of, are never
//! taken for recursive.

use crate::decoded::{
    depth_limit, matching_variant_data, resolved_kind, resolved_metadata, DecodedSchemaView,
    LocalTypeId, TypeKindView, TypeMetadataView,
};
use crate::ez_mode_gen::classify::{
    appended, array_entry, created_entry, enum_entry, extends, got_or_registered, is_option,
    map_entry, payload_entry, registered_all, registered_type, registered_variants, some_variant,
    tuple_entry, variant_label,
};
use crate::ez_mode_gen::fingerprint::{fingerprint, unnamed_metadata};
use crate::ez_mode_gen::identity::law_fingerprints_identify_types;
use crate::ez_mode_gen::error::SchemaError;
use crate::ez_mode_gen::generate::{
    generated, has_local_type, registered_roots, root_types, DecodedBlueprintView,
};
use crate::ez_mode_gen::registry::{
    has_key, lemma_position_of_present_key, position_of, EntryView,
};
use vstd::prelude::*;

verus! {

/// Whether a type of the kind `kind` is made of the type `part` directly.
pub open spec fn is_part(kind: TypeKindView, part: LocalTypeId) -> bool {
    match kind {
        TypeKindView::Array { element_type } => part == element_type,
        TypeKindView::Tuple { field_types } => field_types.contains(part),
        TypeKindView::Enum { variants } => exists|v: int|
            0 <= v < variants.len() && (#[trigger] variants[v]).1.contains(part),
        TypeKindView::Mapping { key_type, value_type } => part == key_type || part == value_type,
        _ => false,
    }
}

/// Whether the type `id` of `schema` is made of the type `part` directly.
pub open spec fn is_part_of(schema: DecodedSchemaView, id: LocalTypeId, part: LocalTypeId) -> bool {
    resolved_kind(schema, id) matches Some(kind) && is_part(kind, part)
}

/// Whether `rank` ranks the types of `schema`: each type above the types
/// that it is made of, and every type below the depth limit of the schema.
/// In a schema with a ranking no type contains itself.
pub open spec fn is_ranking(schema: DecodedSchemaView, rank: spec_fn(LocalTypeId) -> nat) -> bool {
    &&& forall|id: LocalTypeId, part: LocalTypeId| #[trigger]
        is_part_of(schema, id, part) ==> rank(part) < rank(id)
    &&& forall|id: LocalTypeId|
        (#[trigger] resolved_kind(schema, id)) is Some ==> rank(id) < depth_limit(schema)
}

/// Whether every part of a type of the kind `kind` ranks below `bound`.
pub open spec fn parts_rank_below(
    kind: TypeKindView,
    rank: spec_fn(LocalTypeId) -> nat,
    bound: int,
) -> bool {
    forall|part: LocalTypeId| #[trigger] is_part(kind, part) ==> rank(part) < bound
}

/// Whether each of `ids[k..]` ranks below `bound`.
pub open spec fn all_rank_below(
    ids: Seq<LocalTypeId>,
    k: int,
    rank: spec_fn(LocalTypeId) -> nat,
    bound: int,
) -> bool {
    forall|j: int| k <= j < ids.len() ==> rank(#[trigger] ids[j]) < bound
}

/// Whether `key` is the fingerprint of a type whose parts all rank below
/// `bound`.
pub open spec fn is_key_below(key: Seq<char>, rank: spec_fn(LocalTypeId) -> nat, bound: int) -> bool {
    exists|metadata: TypeMetadataView, kind: TypeKindView|
        #[trigger] fingerprint(metadata, kind) == key && parts_rank_below(kind, rank, bound)
}

/// Whether `grown` begins with the entries of `reg`, and the entries that it
/// has beyond them have fingerprints of types whose parts all rank below
/// `bound`.
pub open spec fn grows_below(
    reg: Seq<EntryView>,
    grown: Seq<EntryView>,
    rank: spec_fn(LocalTypeId) -> nat,
    bound: int,
) -> bool {
    &&& extends(grown, reg)
    &&& forall|j: int|
        reg.len() <= j < grown.len() ==> is_key_below((#[trigger] grown[j]).type_hash, rank, bound)
}

/// Whether none of the entries that `grown` has beyond those of `reg` has
/// the fingerprint `key`.
pub open spec fn grows_without(reg: Seq<EntryView>, grown: Seq<EntryView>, key: Seq<char>) -> bool {
    forall|j: int| reg.len() <= j < grown.len() ==> (#[trigger] grown[j]).type_hash != key
}

/// The fingerprint of a type whose parts rank below a part of another type
/// is not the fingerprint of that other type.
proof fn lemma_below_a_part(
    key: Seq<char>,
    rank: spec_fn(LocalTypeId) -> nat,
    part: LocalTypeId,
    metadata: TypeMetadataView,
    kind: TypeKindView,
)
    requires
        is_key_below(key, rank, rank(part) as int),
        is_part(kind, part),
    ensures
        key != fingerprint(metadata, kind),
{
    if key == fingerprint(metadata, kind) {
        let (m, k) = choose|m: TypeMetadataView, k: TypeKindView|
            #[trigger] fingerprint(m, k) == key && parts_rank_below(k, rank, rank(part) as int);
        law_fingerprints_identify_types(m, k, metadata, kind);
        assert(is_part(k, part));
    }
}

/// A fingerprint below a bound is below any greater bound.
proof fn lemma_key_below_more(
    key: Seq<char>,
    rank: spec_fn(LocalTypeId) -> nat,
    bound: int,
    more: int,
)
    requires
        is_key_below(key, rank, bound),
        bound <= more,
    ensures
        is_key_below(key, rank, more),
{
    let (m, k) = choose|m: TypeMetadataView, k: TypeKindView|
        #[trigger] fingerprint(m, k) == key && parts_rank_below(k, rank, bound);
    assert(parts_rank_below(k, rank, more));
    assert(fingerprint(m, k) == key);
}

/// What registering a part of a type adds lies below any bound above the
/// part, and is without the fingerprint of the type.
proof fn lemma_grows_below_a_part(
    reg: Seq<EntryView>,
    grown: Seq<EntryView>,
    rank: spec_fn(LocalTypeId) -> nat,
    part: LocalTypeId,
    metadata: TypeMetadataView,
    kind: TypeKindView,
    bound: int,
)
    requires
        grows_below(reg, grown, rank, rank(part) as int),
        is_part(kind, part),
        rank(part) < bound,
    ensures
        grows_below(reg, grown, rank, bound),
        grows_without(reg, grown, fingerprint(metadata, kind)),
{
    assert forall|j: int| reg.len() <= j < grown.len() implies is_key_below(
        (#[trigger] grown[j]).type_hash,
        rank,
        bound,
    ) && grown[j].type_hash != fingerprint(metadata, kind) by {
        let key = grown[j].type_hash;
        lemma_below_a_part(key, rank, part, metadata, kind);
        lemma_key_below_more(key, rank, rank(part) as int, bound);
    }
}

/// Growing in two steps is growing.
proof fn lemma_grows_twice(
    reg: Seq<EntryView>,
    mid: Seq<EntryView>,
    grown: Seq<EntryView>,
    rank: spec_fn(LocalTypeId) -> nat,
    bound: int,
    key: Seq<char>,
)
    requires
        grows_below(reg, mid, rank, bound),
        grows_below(mid, grown, rank, bound),
    ensures
        grows_below(reg, grown, rank, bound),
        grows_without(reg, mid, key) && grows_without(mid, grown, key) ==> grows_without(
            reg,
            grown,
            key,
        ),
{
    assert forall|j: int| reg.len() <= j < grown.len() implies is_key_below(
        (#[trigger] grown[j]).type_hash,
        rank,
        bound,
    ) by {
        if j < mid.len() {
            assert(grown[j] == mid[j]);
        }
    }
    if grows_without(reg, mid, key) && grows_without(mid, grown, key) {
        assert forall|j: int| reg.len() <= j < grown.len() implies (#[trigger] grown[j]).type_hash
            != key by {
            if j < mid.len() {
                assert(grown[j] == mid[j]);
            }
        }
    }
}

/// What registering an entry adds: nothing, or the entry.
proof fn lemma_appended_grows(
    reg: Seq<EntryView>,
    entry: EntryView,
    rank: spec_fn(LocalTypeId) -> nat,
    bound: int,
    key: Seq<char>,
)
    requires
        is_key_below(entry.type_hash, rank, bound),
        entry.type_hash != key,
    ensures
        appended(reg, entry) matches Ok(done) ==> grows_below(reg, done.0, rank, bound)
            && grows_without(reg, done.0, key),
{
    match appended(reg, entry) {
        Ok(done) => {
            assert forall|j: int| reg.len() <= j < done.0.len() implies is_key_below(
                (#[trigger] done.0[j]).type_hash,
                rank,
                bound,
            ) && done.0[j].type_hash != key by {
                assert(done.0 == reg.push(entry));
            }
        },
        Err(_) => {},
    }
}

/// The field types of the variant `Some` are those of one of the variants.
proof fn lemma_some_variant_is_a_variant(
    metadata: TypeMetadataView,
    variants: Seq<(u8, Seq<LocalTypeId>)>,
    from: int,
)
    requires
        0 <= from,
    ensures
        some_variant(metadata, variants, from) matches Some(field_types) ==> exists|v: int|
            0 <= v < variants.len() && (#[trigger] variants[v]).1 == field_types,
    decreases variants.len() - from,
{
    if from < variants.len() {
        if matching_variant_data(metadata, variants[from].0, variants.len()).variant_name == Some(
            "Some"@,
        ) {
            assert(variants[from].1 == some_variant(metadata, variants, from)->0);
        } else {
            lemma_some_variant_is_a_variant(metadata, variants, from + 1);
        }
    }
}

/// Looking up or registering a type that ranks below `fuel` is not taken
/// for recursive, and what it adds to the registry are types whose parts
/// rank below the type.
proof fn lemma_type_within(
    schema: DecodedSchemaView,
    reg: Seq<EntryView>,
    id: LocalTypeId,
    fuel: nat,
    rank: spec_fn(LocalTypeId) -> nat,
)
    requires
        is_ranking(schema, rank),
        rank(id) < fuel,
    ensures
        registered_type(schema, reg, id, fuel) != Err::<(Seq<EntryView>, u32), _>(
            SchemaError::RecursiveType,
        ),
        registered_type(schema, reg, id, fuel) matches Ok(done) ==> grows_below(
            reg,
            done.0,
            rank,
            rank(id) as int,
        ),
    decreases fuel, 2nat, 0nat,
{
    match (resolved_metadata(schema, id), resolved_kind(schema, id)) {
        (Some(metadata), Some(kind)) => {
            assert forall|part: LocalTypeId| #[trigger] is_part(kind, part) implies rank(part)
                < rank(id) by {
                assert(is_part_of(schema, id, part));
            }
            lemma_got_within(schema, reg, metadata, kind, id, fuel, rank, rank(id) as int);
        },
        _ => {},
    }
}

proof fn lemma_got_within(
    schema: DecodedSchemaView,
    reg: Seq<EntryView>,
    metadata: TypeMetadataView,
    kind: TypeKindView,
    id: LocalTypeId,
    fuel: nat,
    rank: spec_fn(LocalTypeId) -> nat,
    bound: int,
)
    requires
        is_ranking(schema, rank),
        parts_rank_below(kind, rank, bound),
        0 <= bound < fuel,
    ensures
        got_or_registered(schema, reg, metadata, kind, id, fuel) != Err::<
            (Seq<EntryView>, u32),
            _,
        >(SchemaError::RecursiveType),
        got_or_registered(schema, reg, metadata, kind, id, fuel) matches Ok(done) ==> grows_below(
            reg,
            done.0,
            rank,
            bound,
        ),
    decreases fuel, 1nat, 0nat,
{
    let key = fingerprint(metadata, kind);
    lemma_position_of_present_key(reg, key);
    if reg.len() <= u32::MAX && position_of(reg, key) is None {
        lemma_created_within(schema, reg, metadata, kind, id, (fuel - 1) as nat, rank, bound);
        match created_entry(schema, reg, metadata, kind, id, (fuel - 1) as nat) {
            Ok((made, entry)) => {
                assert(!has_key(made, key)) by {
                    if has_key(made, key) {
                        let j = choose|j: int|
                            0 <= j < made.len() && (#[trigger] made[j]).type_hash == key;
                        if j < reg.len() {
                            assert(made[j] == reg[j]);
                            assert(has_key(reg, key));
                        }
                    }
                }
                if made.len() < u32::MAX {
                    let grown = made.push(entry);
                    assert forall|j: int| reg.len() <= j < grown.len() implies is_key_below(
                        (#[trigger] grown[j]).type_hash,
                        rank,
                        bound,
                    ) by {
                        if j < made.len() {
                            assert(grown[j] == made[j]);
                        } else {
                            assert(fingerprint(metadata, kind) == grown[j].type_hash);
                        }
                    }
                }
            },
            Err(_) => {},
        }
    }
}

proof fn lemma_all_within(
    schema: DecodedSchemaView,
    reg: Seq<EntryView>,
    ids: Seq<LocalTypeId>,
    k: nat,
    acc: Seq<u32>,
    fuel: nat,
    rank: spec_fn(LocalTypeId) -> nat,
    metadata: TypeMetadataView,
    kind: TypeKindView,
    bound: int,
)
    requires
        is_ranking(schema, rank),
        parts_rank_below(kind, rank, bound),
        bound <= fuel,
        forall|j: int| k <= j < ids.len() ==> is_part(kind, #[trigger] ids[j]),
    ensures
        registered_all(schema, reg, ids, k, acc, fuel) != Err::<(Seq<EntryView>, Seq<u32>), _>(
            SchemaError::RecursiveType,
        ),
        registered_all(schema, reg, ids, k, acc, fuel) matches Ok(done) ==> grows_below(
            reg,
            done.0,
            rank,
            bound,
        ) && grows_without(reg, done.0, fingerprint(metadata, kind)),
    decreases fuel, 3nat, ids.len() - k,
{
    if k < ids.len() {
        let part = ids[k as int];
        assert(is_part(kind, part));
        lemma_type_within(schema, reg, part, fuel, rank);
        match registered_type(schema, reg, part, fuel) {
            Ok((next, index)) => {
                lemma_grows_below_a_part(reg, next, rank, part, metadata, kind, bound);
                lemma_all_within(
                    schema,
                    next,
                    ids,
                    k + 1,
                    acc.push(index),
                    fuel,
                    rank,
                    metadata,
                    kind,
                    bound,
                );
                match registered_all(schema, next, ids, k + 1, acc.push(index), fuel) {
                    Ok(done) => {
                        lemma_grows_twice(
                            reg,
                            next,
                            done.0,
                            rank,
                            bound,
                            fingerprint(metadata, kind),
                        );
                    },
                    Err(_) => {},
                }
            },
            Err(_) => {},
        }
    }
}

proof fn lemma_variants_within(
    schema: DecodedSchemaView,
    reg: Seq<EntryView>,
    metadata: TypeMetadataView,
    variants: Seq<(u8, Seq<LocalTypeId>)>,
    k: nat,
    acc: Seq<(Seq<char>, u32)>,
    fuel: nat,
    rank: spec_fn(LocalTypeId) -> nat,
    bound: int,
)
    requires
        is_ranking(schema, rank),
        parts_rank_below(TypeKindView::Enum { variants }, rank, bound),
        bound <= fuel,
    ensures
        registered_variants(schema, reg, metadata, variants, k, acc, fuel) != Err::<
            (Seq<EntryView>, Seq<(Seq<char>, u32)>),
            _,
        >(SchemaError::RecursiveType),
        registered_variants(schema, reg, metadata, variants, k, acc, fuel) matches Ok(done)
            ==> grows_below(reg, done.0, rank, bound) && grows_without(
            reg,
            done.0,
            fingerprint(metadata, TypeKindView::Enum { variants }),
        ),
    decreases fuel, 4nat, variants.len() - k,
{
    let kind = TypeKindView::Enum { variants };
    let key = fingerprint(metadata, kind);
    if k < variants.len() {
        let field_types = variants[k as int].1;
        let data = matching_variant_data(metadata, variants[k as int].0, field_types.len());
        assert forall|j: int| 0 <= j < field_types.len() implies is_part(
            kind,
            #[trigger] field_types[j],
        ) by {
            assert(variants[k as int].1.contains(field_types[j]));
            assert(kind->variants == variants);
            assert(is_part(kind, field_types[j]) == (exists|v: int|
                0 <= v < variants.len() && (#[trigger] variants[v]).1.contains(field_types[j])));
        }
        lemma_all_within(schema, reg, field_types, 0, Seq::empty(), fuel, rank, metadata, kind, bound);
        match registered_all(schema, reg, field_types, 0, Seq::empty(), fuel) {
            Ok((with_fields, indices)) => {
                let payload = payload_entry(with_fields, data.field_names, field_types, indices);
                let payload_kind = TypeKindView::Tuple { field_types };
                assert(parts_rank_below(payload_kind, rank, bound)) by {
                    assert forall|part: LocalTypeId| #[trigger]
                        is_part(payload_kind, part) implies rank(part) < bound by {
                        let j = choose|j: int| 0 <= j < field_types.len() && field_types[j] == part;
                        assert(is_part(kind, field_types[j]));
                    }
                }
                assert(is_key_below(payload.type_hash, rank, bound)) by {
                    assert(fingerprint(unnamed_metadata(data.field_names), payload_kind)
                        == payload.type_hash);
                }
                law_fingerprints_identify_types(
                    unnamed_metadata(data.field_names),
                    payload_kind,
                    metadata,
                    kind,
                );
                lemma_appended_grows(with_fields, payload, rank, bound, key);
                match appended(with_fields, payload) {
                    Ok((next, index)) => {
                        lemma_grows_twice(reg, with_fields, next, rank, bound, key);
                        lemma_variants_within(
                            schema,
                            next,
                            metadata,
                            variants,
                            k + 1,
                            acc.push((variant_label(data.variant_name), index)),
                            fuel,
                            rank,
                            bound,
                        );
                        match registered_variants(
                            schema,
                            next,
                            metadata,
                            variants,
                            k + 1,
                            acc.push((variant_label(data.variant_name), index)),
                            fuel,
                        ) {
                            Ok(done) => {
                                lemma_grows_twice(reg, next, done.0, rank, bound, key);
                            },
                            Err(_) => {},
                        }
                    },
                    Err(_) => {},
                }
            },
            Err(_) => {},
        }
    } else {
        assert(grows_below(reg, reg, rank, bound));
    }
}

/// Classifying a type whose parts rank below `fuel` is not taken for
/// recursive, and what it adds to the registry are types whose parts rank
/// below the same bound, none with the fingerprint of the type.
proof fn lemma_created_within(
    schema: DecodedSchemaView,
    reg: Seq<EntryView>,
    metadata: TypeMetadataView,
    kind: TypeKindView,
    id: LocalTypeId,
    fuel: nat,
    rank: spec_fn(LocalTypeId) -> nat,
    bound: int,
)
    requires
        is_ranking(schema, rank),
        parts_rank_below(kind, rank, bound),
        bound <= fuel,
    ensures
        created_entry(schema, reg, metadata, kind, id, fuel) != Err::<
            (Seq<EntryView>, EntryView),
            _,
        >(SchemaError::RecursiveType),
        created_entry(schema, reg, metadata, kind, id, fuel) matches Ok(done) ==> grows_below(
            reg,
            done.0,
            rank,
            bound,
        ) && grows_without(reg, done.0, fingerprint(metadata, kind)) && done.1.type_hash
            == fingerprint(metadata, kind),
    decreases fuel, 6nat, 0nat,
{
    let key = fingerprint(metadata, kind);
    match kind {
        TypeKindView::Tuple { field_types } => {
            assert forall|j: int| 0 <= j < field_types.len() implies is_part(
                kind,
                #[trigger] field_types[j],
            ) by {
                assert(field_types.contains(field_types[j]));
            }
            lemma_all_within(
                schema,
                reg,
                field_types,
                0,
                Seq::empty(),
                fuel,
                rank,
                metadata,
                kind,
                bound,
            );
            assert(tuple_entry(schema, reg, metadata, kind, field_types, fuel) != Err::<
                (Seq<EntryView>, EntryView),
                _,
            >(SchemaError::RecursiveType));
        },
        TypeKindView::Array { element_type } => {
            assert(is_part(kind, element_type));
            lemma_type_within(schema, reg, element_type, fuel, rank);
            match registered_type(schema, reg, element_type, fuel) {
                Ok((made, _)) => {
                    lemma_grows_below_a_part(reg, made, rank, element_type, metadata, kind, bound);
                },
                Err(_) => {},
            }
            assert(array_entry(schema, reg, metadata, kind, element_type, fuel) != Err::<
                (Seq<EntryView>, EntryView),
                _,
            >(SchemaError::RecursiveType));
        },
        TypeKindView::Mapping { key_type, value_type } => {
            assert(is_part(kind, key_type));
            assert(is_part(kind, value_type));
            lemma_type_within(schema, reg, key_type, fuel, rank);
            match registered_type(schema, reg, key_type, fuel) {
                Ok((with_key, _)) => {
                    lemma_grows_below_a_part(reg, with_key, rank, key_type, metadata, kind, bound);
                    lemma_type_within(schema, with_key, value_type, fuel, rank);
                    match registered_type(schema, with_key, value_type, fuel) {
                        Ok((made, _)) => {
                            lemma_grows_below_a_part(
                                with_key,
                                made,
                                rank,
                                value_type,
                                metadata,
                                kind,
                                bound,
                            );
                            lemma_grows_twice(reg, with_key, made, rank, bound, key);
                        },
                        Err(_) => {},
                    }
                },
                Err(_) => {},
            }
            assert(map_entry(schema, reg, metadata, kind, key_type, value_type, fuel) != Err::<
                (Seq<EntryView>, EntryView),
                _,
            >(SchemaError::RecursiveType));
        },
        TypeKindView::Enum { variants } => {
            if is_option(metadata) {
                lemma_some_variant_is_a_variant(metadata, variants, 0);
                match some_variant(metadata, variants, 0) {
                    Some(field_types) => {
                        let v = choose|v: int|
                            0 <= v < variants.len() && (#[trigger] variants[v]).1 == field_types;
                        assert forall|j: int| 0 <= j < field_types.len() implies is_part(
                            kind,
                            #[trigger] field_types[j],
                        ) by {
                            assert(variants[v].1.contains(field_types[j]));
                        }
                        lemma_all_within(
                            schema,
                            reg,
                            field_types,
                            0,
                            Seq::empty(),
                            fuel,
                            rank,
                            metadata,
                            kind,
                            bound,
                        );
                    },
                    None => {},
                }
            } else {
                lemma_variants_within(
                    schema,
                    reg,
                    metadata,
                    variants,
                    0,
                    Seq::empty(),
                    fuel,
                    rank,
                    bound,
                );
            }
            assert(enum_entry(schema, reg, metadata, kind, variants, fuel) != Err::<
                (Seq<EntryView>, EntryView),
                _,
            >(SchemaError::RecursiveType));
        },
        _ => {
            assert(grows_below(reg, reg, rank, bound));
        },
    }
}

/// A type of a schema that has a ranking is never taken for recursive: to
/// look it up or register it fails for other reasons or not at all.
pub proof fn law_ranked_type_is_not_recursive(
    schema: DecodedSchemaView,
    reg: Seq<EntryView>,
    metadata: TypeMetadataView,
    id: LocalTypeId,
    rank: spec_fn(LocalTypeId) -> nat,
)
    requires
        is_ranking(schema, rank),
        resolved_kind(schema, id) is Some,
    ensures
        got_or_registered(
            schema,
            reg,
            metadata,
            resolved_kind(schema, id)->0,
            id,
            depth_limit(schema),
        ) != Err::<(Seq<EntryView>, u32), _>(SchemaError::RecursiveType),
{
    let kind = resolved_kind(schema, id)->0;
    assert forall|part: LocalTypeId| #[trigger] is_part(kind, part) implies rank(part) < rank(
        id,
    ) by {
        assert(is_part_of(schema, id, part));
    }
    lemma_got_within(schema, reg, metadata, kind, id, depth_limit(schema), rank, rank(id) as int);
}

proof fn lemma_roots_within(
    schema: DecodedSchemaView,
    reg: Seq<EntryView>,
    roots: Seq<u32>,
    k: nat,
    rank: spec_fn(LocalTypeId) -> nat,
)
    requires
        is_ranking(schema, rank),
    ensures
        registered_roots(schema, reg, roots, k) != Err::<Seq<EntryView>, _>(
            SchemaError::RecursiveType,
        ),
    decreases roots.len() - k,
{
    if k < roots.len() {
        let index = roots[k as int];
        if has_local_type(schema, index) {
            let id = LocalTypeId::SchemaLocalIndex(index as usize);
            assert(resolved_kind(schema, id) == Some(schema.type_kinds[index as int]));
            law_ranked_type_is_not_recursive(
                schema,
                reg,
                schema.type_metadata[index as int],
                id,
                rank,
            );
            match got_or_registered(
                schema,
                reg,
                schema.type_metadata[index as int],
                schema.type_kinds[index as int],
                id,
                depth_limit(schema),
            ) {
                Ok((next, _)) => {
                    lemma_roots_within(schema, next, roots, k + 1, rank);
                },
                Err(_) => {},
            }
        } else {
            lemma_roots_within(schema, reg, roots, k + 1, rank);
        }
    }
}

proof fn lemma_generated_within(
    blueprints: Seq<DecodedBlueprintView>,
    remaining: nat,
    reg: Seq<EntryView>,
    ranks: Seq<spec_fn(LocalTypeId) -> nat>,
)
    requires
        ranks.len() == blueprints.len(),
        forall|i: int|
            0 <= i < blueprints.len() ==> is_ranking((#[trigger] blueprints[i]).schema, ranks[i]),
    ensures
        generated(blueprints, remaining, reg) != Err::<Seq<EntryView>, _>(
            SchemaError::RecursiveType,
        ),
    decreases remaining,
{
    if remaining != 0 && remaining <= blueprints.len() {
        let blueprint = blueprints[remaining - 1];
        lemma_roots_within(
            blueprint.schema,
            reg,
            root_types(blueprint.blueprint),
            0,
            ranks[remaining - 1],
        );
        match registered_roots(blueprint.schema, reg, root_types(blueprint.blueprint), 0) {
            Ok(next) => {
                lemma_generated_within(blueprints, (remaining - 1) as nat, next, ranks);
            },
            Err(_) => {},
        }
    }
}

/// Blueprints whose schemas have rankings are never taken for recursive:
/// to generate their registry fails for other reasons or not at all.
pub proof fn law_ranked_blueprints_are_not_recursive(
    blueprints: Seq<DecodedBlueprintView>,
    ranks: Seq<spec_fn(LocalTypeId) -> nat>,
)
    requires
        ranks.len() == blueprints.len(),
        forall|i: int|
            0 <= i < blueprints.len() ==> is_ranking((#[trigger] blueprints[i]).schema, ranks[i]),
    ensures
        generated(blueprints, blueprints.len(), Seq::empty()) != Err::<Seq<EntryView>, _>(
            SchemaError::RecursiveType,
        ),
{
    lemma_generated_within(blueprints, blueprints.len(), Seq::empty(), ranks);
}

} // verus!
