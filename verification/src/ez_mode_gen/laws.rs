//! What holds of registries, orders and renderings in general.

use crate::decoded::{DecodedSchemaView, LocalTypeId, TypeKindView, TypeMetadataView};
use crate::ez_mode_gen::classify::{
    appended, children_deps, created_entry, enum_entry, got_or_registered, is_option,
    registered_all, registered_type, some_variant, with_dep, with_deps,
};
use crate::ez_mode_gen::error::SchemaError;
use crate::ez_mode_gen::fingerprint::{fingerprint, unnamed_metadata};
use crate::ez_mode_gen::generate::{generated, DecodedBlueprintView};
use crate::ez_mode_gen::identity::law_fingerprints_identify_types;
use crate::ez_mode_gen::order::{
    deps_within, is_dependency_order, keeps_insertion_order, lemma_insertion_order_is_unique,
    lemma_order_holds_every_index,
};
use crate::ez_mode_gen::registry::{
    display_name, entry_position, has_key, is_first_with_key, keys_are_unique,
    lemma_first_with_key_is_position, lemma_position_of_present_key,
    lemma_register_keeps_keys_unique, lemma_registered_is_found, name_is_unique, position_of,
    registered, EntryView, KindView,
};
use crate::ez_mode_gen::render::{
    child_text, document_text, expression_text, has_broken_reference, is_rendering,
    joined_children,
};
use crate::text::{decimal, is_digit, lemma_decimal_digits, lemma_decimal_injective};
use vstd::prelude::*;

verus! {

/// A registry has at most one dependency order that keeps insertion order:
/// the order of declaration is settled by the registry alone.
pub proof fn law_insertion_order_is_unique(reg: Seq<EntryView>, a: Seq<u32>, b: Seq<u32>)
    requires
        is_dependency_order(reg, a),
        keeps_insertion_order(reg, a),
        is_dependency_order(reg, b),
        keeps_insertion_order(reg, b),
    ensures
        a == b,
{
    lemma_insertion_order_is_unique(reg, a, b);
}

/// Rendering is deterministic: two renderings of one registry, for the same
/// package and in the same form, are the same text.
pub proof fn law_rendering_is_deterministic(
    reg: Seq<EntryView>,
    package_address: Seq<char>,
    module: bool,
    first: Seq<char>,
    second: Seq<char>,
)
    requires
        is_rendering(reg, package_address, module, first),
        is_rendering(reg, package_address, module, second),
    ensures
        first == second,
{
    let a = choose|order: Seq<u32>|
        #![trigger is_dependency_order(reg, order)]
        is_dependency_order(reg, order) && keeps_insertion_order(reg, order) && document_text(
            reg,
            order,
            package_address,
            module,
        ) == Some(first);
    let b = choose|order: Seq<u32>|
        #![trigger is_dependency_order(reg, order)]
        is_dependency_order(reg, order) && keeps_insertion_order(reg, order) && document_text(
            reg,
            order,
            package_address,
            module,
        ) == Some(second);
    lemma_insertion_order_is_unique(reg, a, b);
}

/// Generation is deterministic: the registries that are generated from the
/// same blueprints are the same, and so are their renderings for the same
/// package in the same form.
pub proof fn law_generation_is_deterministic(
    blueprints: Seq<DecodedBlueprintView>,
    first_registry: Seq<EntryView>,
    second_registry: Seq<EntryView>,
    package_address: Seq<char>,
    module: bool,
    first: Seq<char>,
    second: Seq<char>,
)
    requires
        generated(blueprints, blueprints.len(), Seq::empty()) == Ok::<_, SchemaError>(
            first_registry,
        ),
        generated(blueprints, blueprints.len(), Seq::empty()) == Ok::<_, SchemaError>(
            second_registry,
        ),
        is_rendering(first_registry, package_address, module, first),
        is_rendering(second_registry, package_address, module, second),
    ensures
        first_registry == second_registry,
        first == second,
{
    law_rendering_is_deterministic(first_registry, package_address, module, first, second);
}

/// A registry is rendered or has a broken reference, never both.
pub proof fn law_rendering_excludes_broken_reference(
    reg: Seq<EntryView>,
    package_address: Seq<char>,
    module: bool,
    text: Seq<char>,
)
    requires
        is_rendering(reg, package_address, module, text),
    ensures
        !has_broken_reference(reg, package_address, module),
{
    if has_broken_reference(reg, package_address, module) {
        let a = choose|order: Seq<u32>|
            #![trigger is_dependency_order(reg, order)]
            is_dependency_order(reg, order) && keeps_insertion_order(reg, order) && document_text(
                reg,
                order,
                package_address,
                module,
            ) == Some(text);
        let b = choose|order: Seq<u32>|
            #![trigger is_dependency_order(reg, order)]
            is_dependency_order(reg, order) && keeps_insertion_order(reg, order) && document_text(
                reg,
                order,
                package_address,
                module,
            ) is None;
        lemma_insertion_order_is_unique(reg, a, b);
    }
}

/// Cycles are detected: a registry in which the entry `a` depends on the
/// entry `b` and `b` on `a` has no dependency order. With `a` and `b` the
/// same, this is an entry that depends on itself.
pub proof fn law_mutual_dependency_has_no_order(
    reg: Seq<EntryView>,
    a: int,
    b: int,
    order: Seq<u32>,
)
    requires
        0 <= a < reg.len(),
        0 <= b < reg.len(),
        reg[a].dependencies.contains(b as u32),
        reg[b].dependencies.contains(a as u32),
    ensures
        !is_dependency_order(reg, order),
{
    if is_dependency_order(reg, order) {
        lemma_order_holds_every_index(reg, order, a);
        lemma_order_holds_every_index(reg, order, b);
        let pa = choose|p: int| 0 <= p < order.len() && #[trigger] order[p] == a;
        let pb = choose|p: int| 0 <= p < order.len() && #[trigger] order[p] == b;
        let ka = choose|k: int| 0 <= k < reg[a].dependencies.len() && reg[a].dependencies[k] == b as u32;
        let kb = choose|k: int| 0 <= k < reg[b].dependencies.len() && reg[b].dependencies[k] == a as u32;
        assert(deps_within(reg, order.take(pa), order[pa] as int));
        assert(order.take(pa).contains(reg[a].dependencies[ka]));
        let qb = choose|q: int| 0 <= q < order.take(pa).len() && order.take(pa)[q] == b as u32;
        assert(order[qb] == order[pb]);
        assert(qb == pb);
        assert(deps_within(reg, order.take(pb), order[pb] as int));
        assert(order.take(pb).contains(reg[b].dependencies[kb]));
        let qa = choose|q: int| 0 <= q < order.take(pb).len() && order.take(pb)[q] == a as u32;
        assert(order[qa] == order[pa]);
        assert(qa == pa);
        assert(false);
    }
}


/// Registering is idempotent: registering an entry a second time gives the
/// same index and leaves the registry as the first time left it.
pub proof fn law_register_is_idempotent(reg: Seq<EntryView>, entry: EntryView)
    ensures
        registered(registered(reg, entry).0, entry) == registered(reg, entry),
{
    lemma_registered_is_found(reg, entry);
}

/// Registering keeps the fingerprints unique.
pub proof fn law_register_keeps_keys_unique(reg: Seq<EntryView>, entry: EntryView)
    requires
        keys_are_unique(reg),
    ensures
        keys_are_unique(registered(reg, entry).0),
{
    lemma_register_keeps_keys_unique(reg, entry);
}

/// The entry that classification makes of a type has the fingerprint of the
/// type.
proof fn lemma_created_entry_has_fingerprint(
    schema: DecodedSchemaView,
    reg: Seq<EntryView>,
    metadata: TypeMetadataView,
    kind: TypeKindView,
    id: LocalTypeId,
    fuel: nat,
)
    ensures
        created_entry(schema, reg, metadata, kind, id, fuel) matches Ok(made) ==> made.1.type_hash
            == fingerprint(metadata, kind),
{
}

/// Once a type was looked up or registered, its fingerprint is found at the
/// index that was given.
pub proof fn lemma_registered_type_is_found(
    schema: DecodedSchemaView,
    reg: Seq<EntryView>,
    metadata: TypeMetadataView,
    kind: TypeKindView,
    id: LocalTypeId,
    fuel: nat,
)
    ensures
        got_or_registered(schema, reg, metadata, kind, id, fuel) matches Ok(done) ==> position_of(
            done.0,
            fingerprint(metadata, kind),
        ) == Some(done.1 as int),
{
    let key = fingerprint(metadata, kind);
    if got_or_registered(schema, reg, metadata, kind, id, fuel) is Ok && position_of(reg, key)
        is None {
        let first = got_or_registered(schema, reg, metadata, kind, id, fuel)->Ok_0;
        lemma_created_entry_has_fingerprint(schema, reg, metadata, kind, id, (fuel - 1) as nat);
        let made = created_entry(schema, reg, metadata, kind, id, (fuel - 1) as nat)->Ok_0;
        assert(appended(made.0, made.1) == Ok::<_, SchemaError>(first));
        lemma_registered_is_found(made.0, made.1);
    }
}

/// Deduplication is idempotent: once a type was looked up or registered,
/// doing so again gives the same index and leaves the registry as it is.
pub proof fn law_registering_a_type_twice(
    schema: DecodedSchemaView,
    reg: Seq<EntryView>,
    metadata: TypeMetadataView,
    kind: TypeKindView,
    id: LocalTypeId,
    fuel: nat,
    fuel_again: nat,
)
    requires
        got_or_registered(schema, reg, metadata, kind, id, fuel) is Ok,
    ensures
        got_or_registered(
            schema,
            got_or_registered(schema, reg, metadata, kind, id, fuel)->Ok_0.0,
            metadata,
            kind,
            id,
            fuel_again,
        ) == got_or_registered(schema, reg, metadata, kind, id, fuel),
{
    lemma_registered_type_is_found(schema, reg, metadata, kind, id, fuel);
}

/// The position of an entry of a registry with unique fingerprints is its
/// index.
proof fn lemma_position_is_index(reg: Seq<EntryView>, i: int)
    requires
        keys_are_unique(reg),
        0 <= i < reg.len(),
    ensures
        entry_position(reg, reg[i]) == i,
{
    assert(is_first_with_key(reg, reg[i].type_hash, i));
    lemma_first_with_key_is_position(reg, reg[i].type_hash, i);
}

/// No digit is an underscore.
proof fn lemma_digits_are_no_underscores(n: nat)
    ensures
        forall|k: int| 0 <= k < decimal(n).len() ==> #[trigger] decimal(n)[k] != '_',
{
    lemma_decimal_digits(n);
    assert forall|k: int| 0 <= k < decimal(n).len() implies #[trigger] decimal(n)[k] != '_' by {
        assert(is_digit(decimal(n)[k]));
    }
}

/// A name with an underscore and a number at its end is made so in one way.
proof fn lemma_suffixed_names_differ(x: Seq<char>, i: nat, y: Seq<char>, j: nat)
    requires
        x + "_"@ + decimal(i) == y + "_"@ + decimal(j),
    ensures
        i == j,
{
    reveal_strlit("_");
    let s = x + "_"@ + decimal(i);
    let t = y + "_"@ + decimal(j);
    lemma_digits_are_no_underscores(i);
    lemma_digits_are_no_underscores(j);
    assert("_"@.len() == 1);
    assert(s.len() == x.len() + 1 + decimal(i).len());
    assert(t.len() == y.len() + 1 + decimal(j).len());
    assert(s[x.len() as int] == '_');
    assert(t[y.len() as int] == '_');
    if x.len() < y.len() {
        assert(s[y.len() as int] == decimal(i)[y.len() - x.len() - 1]);
        assert(false);
    }
    if y.len() < x.len() {
        assert(t[x.len() as int] == decimal(j)[x.len() - y.len() - 1]);
        assert(false);
    }
    assert(decimal(i) =~= decimal(j)) by {
        assert forall|k: int| 0 <= k < decimal(i).len() implies decimal(i)[k] == decimal(j)[k] by {
            assert(s[x.len() + 1 + k] == decimal(i)[k]);
            assert(t[y.len() + 1 + k] == decimal(j)[k]);
        }
    }
    lemma_decimal_injective(i, j);
}

/// Placeholder names of different positions differ.
proof fn lemma_placeholder_names_differ(i: nat, j: nat)
    requires
        "Type"@ + decimal(i) == "Type"@ + decimal(j),
    ensures
        i == j,
{
    let s = "Type"@ + decimal(i);
    let t = "Type"@ + decimal(j);
    assert(s.len() == "Type"@.len() + decimal(i).len());
    assert(t.len() == "Type"@.len() + decimal(j).len());
    assert(decimal(i) =~= decimal(j)) by {
        assert forall|k: int| 0 <= k < decimal(i).len() implies decimal(i)[k] == decimal(j)[k] by {
            assert(s["Type"@.len() + k] == decimal(i)[k]);
            assert(t["Type"@.len() + k] == decimal(j)[k]);
        }
    }
    lemma_decimal_injective(i, j);
}

/// A placeholder name is no name with an underscore and a number at its end.
proof fn lemma_placeholder_is_not_suffixed(i: nat, y: Seq<char>, j: nat)
    ensures
        "Type"@ + decimal(i) != y + "_"@ + decimal(j),
{
    reveal_strlit("_");
    reveal_strlit("Type");
    let s = "Type"@ + decimal(i);
    let t = y + "_"@ + decimal(j);
    lemma_digits_are_no_underscores(i);
    if s == t {
        assert(t[y.len() as int] == '_');
        assert(t.len() == y.len() + 1 + decimal(j).len());
        if y.len() < 4 {
            assert(s[y.len() as int] == "Type"@[y.len() as int]);
        } else {
            assert(s[y.len() as int] == decimal(i)[y.len() - 4]);
        }
        assert(false);
    }
}

/// Whether the entry is declared under the very name that it was declared
/// with: it has a name, and no other entry has it.
pub open spec fn keeps_declared_name(reg: Seq<EntryView>, entry: EntryView) -> bool {
    entry.name matches Some(name) && name_is_unique(reg, name)
}

/// Whether the name that the entry `i` was declared with, and keeps, is
/// spelled as the name that is made up for the entry `j`: as `Type` and the
/// position of `j`, or as the shared name of `j`, an underscore and the
/// position of `j`.
pub open spec fn reads_as_made_up(reg: Seq<EntryView>, i: int, j: int) -> bool {
    &&& keeps_declared_name(reg, reg[i])
    &&& !keeps_declared_name(reg, reg[j])
    &&& reg[i].name == Some(display_name(reg, reg[j]))
}

/// Entries that share a declared name are declared under that name, an
/// underscore and their own index, and these names differ.
pub proof fn law_shared_names_are_suffixed(reg: Seq<EntryView>, i: int, j: int)
    requires
        keys_are_unique(reg),
        0 <= i < reg.len(),
        0 <= j < reg.len(),
        i != j,
        reg[i].name is Some,
        reg[i].name == reg[j].name,
    ensures
        display_name(reg, reg[i]) == reg[i].name->0 + "_"@ + decimal(i as nat),
        display_name(reg, reg[j]) == reg[j].name->0 + "_"@ + decimal(j as nat),
        display_name(reg, reg[i]) != display_name(reg, reg[j]),
{
    lemma_position_is_index(reg, i);
    lemma_position_is_index(reg, j);
    assert(!name_is_unique(reg, reg[i].name->0));
    if display_name(reg, reg[i]) == display_name(reg, reg[j]) {
        lemma_suffixed_names_differ(reg[i].name->0, i as nat, reg[j].name->0, j as nat);
    }
}

/// No two declarations share a name: two entries of a registry with unique
/// fingerprints are declared under different names, unless the name that one
/// of them was declared with is spelled as the name made up for the other.
pub proof fn law_display_names_are_distinct(reg: Seq<EntryView>, i: int, j: int)
    requires
        keys_are_unique(reg),
        0 <= i < reg.len(),
        0 <= j < reg.len(),
        i != j,
        !reads_as_made_up(reg, i, j),
        !reads_as_made_up(reg, j, i),
    ensures
        display_name(reg, reg[i]) != display_name(reg, reg[j]),
{
    lemma_position_is_index(reg, i);
    lemma_position_is_index(reg, j);
    if display_name(reg, reg[i]) == display_name(reg, reg[j]) {
        let a = keeps_declared_name(reg, reg[i]);
        let b = keeps_declared_name(reg, reg[j]);
        if a && b {
            assert(reg[i].name == reg[j].name);
            assert(false);
        } else if !a && !b {
            match (reg[i].name, reg[j].name) {
                (Some(x), Some(y)) => {
                    lemma_suffixed_names_differ(x, i as nat, y, j as nat);
                },
                (None, None) => {
                    lemma_placeholder_names_differ(i as nat, j as nat);
                },
                (None, Some(y)) => {
                    lemma_placeholder_is_not_suffixed(i as nat, y, j as nat);
                },
                (Some(x), None) => {
                    lemma_placeholder_is_not_suffixed(j as nat, x, i as nat);
                },
            }
        }
    }
}


proof fn lemma_with_dep(deps: Seq<u32>, index: u32, x: u32)
    ensures
        with_dep(deps, index).contains(x) <==> deps.contains(x) || x == index,
        deps.no_duplicates() ==> with_dep(deps, index).no_duplicates(),
{
    if !deps.contains(index) {
        let grown = deps.push(index);
        assert(grown[deps.len() as int] == index);
        if deps.contains(x) {
            let k = choose|k: int| 0 <= k < deps.len() && deps[k] == x;
            assert(grown[k] == x);
        }
        if grown.contains(x) {
            let k = choose|k: int| 0 <= k < grown.len() && grown[k] == x;
            if k < deps.len() {
                assert(deps[k] == x);
            }
        }
        if deps.no_duplicates() {
            assert forall|a: int, b: int|
                0 <= a < grown.len() && 0 <= b < grown.len() && a != b implies grown[a]
                != grown[b] by {
                if a < deps.len() && b < deps.len() {
                    assert(deps[a] != deps[b]);
                } else if a < deps.len() {
                    assert(deps.contains(deps[a]));
                } else if b < deps.len() {
                    assert(deps.contains(deps[b]));
                }
            }
        }
    }
}

proof fn lemma_with_deps(deps: Seq<u32>, more: Seq<u32>, x: u32)
    ensures
        with_deps(deps, more).contains(x) <==> deps.contains(x) || more.contains(x),
        deps.no_duplicates() ==> with_deps(deps, more).no_duplicates(),
    decreases more.len(),
{
    if more.len() > 0 {
        let front = more.drop_last();
        lemma_with_deps(deps, front, x);
        lemma_with_dep(with_deps(deps, front), more.last(), x);
        if front.contains(x) {
            let k = choose|k: int| 0 <= k < front.len() && front[k] == x;
            assert(more[k] == x);
        }
        if more.contains(x) {
            let k = choose|k: int| 0 <= k < more.len() && more[k] == x;
            if k < front.len() {
                assert(front[k] == x);
            }
        }
    }
}

/// Whether `x` is one of `children` or something that one of them depends
/// on.
pub open spec fn is_child_or_its_dependency(
    reg: Seq<EntryView>,
    children: Seq<u32>,
    x: u32,
) -> bool {
    exists|k: int|
        0 <= k < children.len() && ((#[trigger] children[k]) == x || reg[children[k] as int]
            .dependencies.contains(x))
}

/// What an entry depends on is the union of its children and of what they
/// depend on: the list holds exactly these indices, each once.
pub proof fn law_dependencies_are_the_union(reg: Seq<EntryView>, children: Seq<u32>, x: u32)
    ensures
        children_deps(reg, children).contains(x) <==> is_child_or_its_dependency(
            reg,
            children,
            x,
        ),
        children_deps(reg, children).no_duplicates(),
    decreases children.len(),
{
    if children.len() > 0 {
        let front = children.drop_last();
        let child = children.last();
        law_dependencies_are_the_union(reg, front, x);
        lemma_with_deps(children_deps(reg, front), reg[child as int].dependencies, x);
        lemma_with_dep(
            with_deps(children_deps(reg, front), reg[child as int].dependencies),
            child,
            x,
        );
        if is_child_or_its_dependency(reg, front, x) {
            let k = choose|k: int|
                0 <= k < front.len() && ((#[trigger] front[k]) == x || reg[front[k] as int]
                    .dependencies.contains(x));
            assert(children[k] == front[k]);
        }
        if is_child_or_its_dependency(reg, children, x) {
            let k = choose|k: int|
                0 <= k < children.len() && ((#[trigger] children[k]) == x
                    || reg[children[k] as int].dependencies.contains(x));
            if k < front.len() {
                assert(front[k] == children[k]);
            }
        }
        if x == child || reg[child as int].dependencies.contains(x) {
            assert(children[children.len() - 1] == child);
        }
    }
}


/// An enum with the name `Option` and without a variant `Some` is
/// malformed: it has no entry, and to register it fails with
/// `MalformedOption` wherever it has to be classified.
pub proof fn law_option_without_some_is_malformed(
    schema: DecodedSchemaView,
    reg: Seq<EntryView>,
    metadata: TypeMetadataView,
    variants: Seq<(u8, Seq<LocalTypeId>)>,
    id: LocalTypeId,
    fuel: nat,
)
    requires
        is_option(metadata),
        some_variant(metadata, variants, 0) is None,
    ensures
        enum_entry(schema, reg, metadata, TypeKindView::Enum { variants }, variants, fuel) == Err::<
            (Seq<EntryView>, EntryView),
            _,
        >(SchemaError::MalformedOption),
        reg.len() <= u32::MAX && fuel > 0 && !has_key(
            reg,
            fingerprint(metadata, TypeKindView::Enum { variants }),
        ) ==> got_or_registered(schema, reg, metadata, TypeKindView::Enum { variants }, id, fuel)
            == Err::<(Seq<EntryView>, u32), _>(SchemaError::MalformedOption),
{
    lemma_position_of_present_key(reg, fingerprint(metadata, TypeKindView::Enum { variants }));
}

/// An enum with the name `Option` becomes an option of the fields of its
/// variant `Some`: its entry holds the indices at which the field types
/// were registered, in their order, and depends on what
/// `children_deps` gives for them. The other variants add nothing.
pub proof fn law_option_of_its_payload(
    schema: DecodedSchemaView,
    reg: Seq<EntryView>,
    metadata: TypeMetadataView,
    variants: Seq<(u8, Seq<LocalTypeId>)>,
    field_types: Seq<LocalTypeId>,
    fuel: nat,
)
    requires
        is_option(metadata),
        some_variant(metadata, variants, 0) == Some(field_types),
        registered_all(schema, reg, field_types, 0, Seq::empty(), fuel) is Ok,
    ensures
        enum_entry(schema, reg, metadata, TypeKindView::Enum { variants }, variants, fuel) == Ok::<
            _,
            SchemaError,
        >(
            (
                registered_all(schema, reg, field_types, 0, Seq::empty(), fuel)->Ok_0.0,
                EntryView {
                    type_hash: fingerprint(metadata, TypeKindView::Enum { variants }),
                    name: metadata.name,
                    schema_kind: KindView::Option {
                        inner_types: registered_all(
                            schema,
                            reg,
                            field_types,
                            0,
                            Seq::empty(),
                            fuel,
                        )->Ok_0.1,
                    },
                    dependencies: children_deps(
                        registered_all(schema, reg, field_types, 0, Seq::empty(), fuel)->Ok_0.0,
                        registered_all(schema, reg, field_types, 0, Seq::empty(), fuel)->Ok_0.1,
                    ),
                },
            ),
        ),
{
}

/// An option of one type: where the variant `Some` has one field, whose
/// type is registered at the index `i`, the entry of the enum is an option
/// of `i` alone, and depends on `i` and on what the entry at `i` depends on.
pub proof fn law_option_of_one_type(
    schema: DecodedSchemaView,
    reg: Seq<EntryView>,
    metadata: TypeMetadataView,
    variants: Seq<(u8, Seq<LocalTypeId>)>,
    field_type: LocalTypeId,
    fuel: nat,
    x: u32,
)
    requires
        is_option(metadata),
        some_variant(metadata, variants, 0) == Some(seq![field_type]),
        registered_type(schema, reg, field_type, fuel) is Ok,
    ensures
        enum_entry(schema, reg, metadata, TypeKindView::Enum { variants }, variants, fuel) is Ok,
        ({
            let registered = registered_type(schema, reg, field_type, fuel)->Ok_0;
            let made = enum_entry(
                schema,
                reg,
                metadata,
                TypeKindView::Enum { variants },
                variants,
                fuel,
            )->Ok_0;
            &&& made.0 == registered.0
            &&& made.1.schema_kind == KindView::Option { inner_types: seq![registered.1] }
            &&& made.1.dependencies.contains(x) <==> x == registered.1
                || registered.0[registered.1 as int].dependencies.contains(x)
        }),
{
    let ids = seq![field_type];
    let registered = registered_type(schema, reg, field_type, fuel)->Ok_0;
    assert(registered_all(schema, registered.0, ids, 1, seq![registered.1], fuel) == Ok::<
        _,
        SchemaError,
    >((registered.0, seq![registered.1])));
    assert(Seq::<u32>::empty().push(registered.1) =~= seq![registered.1]);
    assert(registered_all(schema, reg, ids, 0, Seq::empty(), fuel) == Ok::<_, SchemaError>(
        (registered.0, seq![registered.1]),
    ));
    law_dependencies_are_the_union(registered.0, seq![registered.1], x);
    if is_child_or_its_dependency(registered.0, seq![registered.1], x) {
        let k = choose|k: int|
            0 <= k < seq![registered.1].len() && ((#[trigger] seq![registered.1][k]) == x
                || registered.0[seq![registered.1][k] as int].dependencies.contains(x));
        assert(k == 0);
    }
    if x == registered.1 || registered.0[registered.1 as int].dependencies.contains(x) {
        assert(seq![registered.1][0] == registered.1);
    }
}

/// An option of one type is written with the type as its argument.
pub proof fn law_option_text_of_one_type(reg: Seq<EntryView>, inner: u32, fuel: nat)
    ensures
        expression_text(reg, KindView::Option { inner_types: seq![inner] }, fuel) == match child_text(
            reg,
            inner,
            fuel,
        ) {
            Some(text) => Some("s.option("@ + text + ")"@),
            None => None,
        },
{
    assert(seq![inner][0] == inner);
}

/// An option of two types is written with a tuple of the two as its
/// argument, and so is an option of any number of types but one: the types
/// stand in their order, with `, ` between them.
pub proof fn law_option_text_of_several_types(
    reg: Seq<EntryView>,
    inner_types: Seq<u32>,
    fuel: nat,
)
    requires
        inner_types.len() != 1,
    ensures
        expression_text(reg, KindView::Option { inner_types }, fuel) == match joined_children(
            reg,
            inner_types,
            0,
            "s.option(s.tuple(["@,
            fuel,
        ) {
            Some(text) => Some(text + "]))"@),
            None => None,
        },
        inner_types.len() == 2 ==> expression_text(reg, KindView::Option { inner_types }, fuel)
            == match (child_text(reg, inner_types[0], fuel), child_text(reg, inner_types[1], fuel)) {
            (Some(first), Some(second)) => Some(
                "s.option(s.tuple(["@ + first + ", "@ + second + "]))"@,
            ),
            _ => None,
        },
{
    if inner_types.len() == 2 {
        let opening = "s.option(s.tuple(["@;
        match child_text(reg, inner_types[0], fuel) {
            Some(first) => {
                match child_text(reg, inner_types[1], fuel) {
                    Some(second) => {
                        assert(joined_children(
                            reg,
                            inner_types,
                            2,
                            opening + first + ", "@ + second,
                            fuel,
                        ) == Some(opening + first + ", "@ + second));
                        assert(joined_children(reg, inner_types, 1, opening + first, fuel) == Some(
                            opening + first + ", "@ + second,
                        ));
                    },
                    None => {
                        assert(joined_children(reg, inner_types, 1, opening + first, fuel)
                            is None);
                    },
                }
            },
            None => {},
        }
    }
}

/// The entries that stand for the fields of enum variants are told apart by
/// the names and the types of the fields: two of them have the same
/// fingerprint exactly where both agree. So a variant without fields and a
/// variant with fields never share an entry.
pub proof fn law_payloads_are_told_apart(
    first_names: Option<Seq<Seq<char>>>,
    first_types: Seq<LocalTypeId>,
    second_names: Option<Seq<Seq<char>>>,
    second_types: Seq<LocalTypeId>,
)
    ensures
        fingerprint(
            unnamed_metadata(first_names),
            TypeKindView::Tuple { field_types: first_types },
        ) == fingerprint(
            unnamed_metadata(second_names),
            TypeKindView::Tuple { field_types: second_types },
        ) <==> first_names == second_names && first_types == second_types,
{
    law_fingerprints_identify_types(
        unnamed_metadata(first_names),
        TypeKindView::Tuple { field_types: first_types },
        unnamed_metadata(second_names),
        TypeKindView::Tuple { field_types: second_types },
    );
}

} // verus!
