use schema_gen::ez_mode_gen::{
    is_inline, RegistryEntry, SborEzModeSchemaKind, SchemaError, SchemaRegistry, TypeHash,
};

fn entry(key: &str, name: Option<&str>, kind: SborEzModeSchemaKind, deps: Vec<u32>) -> RegistryEntry {
    RegistryEntry {
        type_hash: TypeHash(key.to_string()),
        name: name.map(|n| n.to_string()),
        schema_kind: kind,
        dependencies: deps,
    }
}

fn registry_of(entries: Vec<RegistryEntry>) -> SchemaRegistry {
    let mut registry = SchemaRegistry::new();
    for e in entries.iter() {
        registry.register(e);
    }
    registry
}

#[test]
fn new_registry_is_empty() {
    let registry = SchemaRegistry::new();
    assert!(registry.entries.is_empty());
}

#[test]
fn register_appends_new_keys_and_reuses_old_ones() {
    let mut registry = SchemaRegistry::new();
    let a = entry("a", Some("A"), SborEzModeSchemaKind::Number, vec![]);
    let b = entry("b", Some("B"), SborEzModeSchemaKind::String, vec![]);
    assert_eq!(registry.register(&a), 0);
    assert_eq!(registry.register(&b), 1);
    assert_eq!(registry.register(&a), 0);
    assert_eq!(registry.register(&b), 1);
    assert_eq!(registry.entries.len(), 2);
}

#[test]
fn register_keeps_the_first_entry_of_a_key() {
    let mut registry = SchemaRegistry::new();
    registry.register(&entry("a", Some("First"), SborEzModeSchemaKind::Number, vec![]));
    let index = registry.register(&entry("a", Some("Second"), SborEzModeSchemaKind::Bool, vec![]));
    assert_eq!(index, 0);
    assert_eq!(registry.entries[0].name.as_deref(), Some("First"));
}

#[test]
fn position_finds_the_first_entry_with_the_key() {
    let registry = registry_of(vec![
        entry("a", None, SborEzModeSchemaKind::Number, vec![]),
        entry("b", None, SborEzModeSchemaKind::Number, vec![]),
    ]);
    assert_eq!(registry.position(&TypeHash("b".to_string())), Some(1));
    assert_eq!(registry.position(&TypeHash("c".to_string())), None);
}

#[test]
fn name_is_unique_with_at_most_one_bearer() {
    let registry = registry_of(vec![
        entry("a", Some("Shared"), SborEzModeSchemaKind::Number, vec![]),
        entry("b", Some("Alone"), SborEzModeSchemaKind::Number, vec![]),
        entry("c", Some("Shared"), SborEzModeSchemaKind::Number, vec![]),
        entry("d", None, SborEzModeSchemaKind::Number, vec![]),
    ]);
    assert!(registry.is_type_name_unique("Alone"));
    assert!(registry.is_type_name_unique("Absent"));
    assert!(!registry.is_type_name_unique("Shared"));
}

#[test]
fn unique_var_name_suffixes_shared_names_with_the_position() {
    let registry = registry_of(vec![
        entry("a", Some("Shared"), SborEzModeSchemaKind::Number, vec![]),
        entry("b", Some("Alone"), SborEzModeSchemaKind::Number, vec![]),
        entry("c", Some("Shared"), SborEzModeSchemaKind::Number, vec![]),
        entry("d", None, SborEzModeSchemaKind::Number, vec![]),
    ]);
    assert_eq!(registry.entries[0].unique_var_name(&registry), "Shared_0");
    assert_eq!(registry.entries[1].unique_var_name(&registry), "Alone");
    assert_eq!(registry.entries[2].unique_var_name(&registry), "Shared_2");
    assert_eq!(registry.entries[3].unique_var_name(&registry), "Type3");
}

#[test]
fn unique_var_name_writes_positions_in_decimal() {
    let mut entries = Vec::new();
    for i in 0..124 {
        entries.push(entry(&format!("k{}", i), None, SborEzModeSchemaKind::Number, vec![]));
    }
    let registry = registry_of(entries);
    assert_eq!(registry.entries[9].unique_var_name(&registry), "Type9");
    assert_eq!(registry.entries[10].unique_var_name(&registry), "Type10");
    assert_eq!(registry.entries[100].unique_var_name(&registry), "Type100");
    assert_eq!(registry.entries[123].unique_var_name(&registry), "Type123");
}

#[test]
fn leaves_arrays_options_and_maps_are_inline() {
    for kind in [
        SborEzModeSchemaKind::Address,
        SborEzModeSchemaKind::InternalAddress,
        SborEzModeSchemaKind::Number,
        SborEzModeSchemaKind::String,
        SborEzModeSchemaKind::Bool,
        SborEzModeSchemaKind::Decimal,
        SborEzModeSchemaKind::NonFungibleLocalId,
        SborEzModeSchemaKind::Value,
        SborEzModeSchemaKind::Instant,
        SborEzModeSchemaKind::Array { element_type: 0 },
        SborEzModeSchemaKind::Option { inner_types: vec![0] },
        SborEzModeSchemaKind::Mapping { key_type: 0, value_type: 0 },
    ] {
        assert!(is_inline(&entry("k", Some("Named"), kind, vec![])));
    }
}

#[test]
fn structs_enums_and_named_tuples_are_declared() {
    assert!(!is_inline(&entry("k", None, SborEzModeSchemaKind::Struct { fields: vec![] }, vec![])));
    assert!(!is_inline(&entry("k", None, SborEzModeSchemaKind::Enum { variants: vec![] }, vec![])));
    assert!(!is_inline(&entry("k", Some("T"), SborEzModeSchemaKind::Tuple { fields: vec![] }, vec![])));
    assert!(is_inline(&entry("k", None, SborEzModeSchemaKind::Tuple { fields: vec![] }, vec![])));
}

#[test]
fn order_puts_dependencies_first() {
    let registry = registry_of(vec![
        entry("a", None, SborEzModeSchemaKind::Number, vec![2]),
        entry("b", None, SborEzModeSchemaKind::Number, vec![]),
        entry("c", None, SborEzModeSchemaKind::Number, vec![1]),
        entry("d", None, SborEzModeSchemaKind::Number, vec![0, 1]),
    ]);
    let order = registry.topologically_sorted_indices().unwrap();
    assert_eq!(order, vec![1, 2, 0, 3]);
    for (i, e) in registry.entries.iter().enumerate() {
        let at = order.iter().position(|&x| x as usize == i).unwrap();
        for dep in e.dependencies.iter() {
            let dep_at = order.iter().position(|x| x == dep).unwrap();
            assert!(dep_at < at);
        }
    }
}

#[test]
fn order_breaks_ties_by_insertion() {
    let registry = registry_of(vec![
        entry("a", None, SborEzModeSchemaKind::Number, vec![]),
        entry("b", None, SborEzModeSchemaKind::Number, vec![3]),
        entry("c", None, SborEzModeSchemaKind::Number, vec![]),
        entry("d", None, SborEzModeSchemaKind::Number, vec![]),
    ]);
    assert_eq!(registry.topologically_sorted_indices().unwrap(), vec![0, 2, 3, 1]);
}

#[test]
fn order_of_an_empty_registry_is_empty() {
    assert_eq!(SchemaRegistry::new().topologically_sorted_indices(), Ok(vec![]));
}

#[test]
fn order_counts_a_repeated_dependency_once() {
    let registry = registry_of(vec![
        entry("a", None, SborEzModeSchemaKind::Number, vec![1, 1, 1]),
        entry("b", None, SborEzModeSchemaKind::Number, vec![]),
    ]);
    assert_eq!(registry.topologically_sorted_indices().unwrap(), vec![1, 0]);
}

#[test]
fn mutual_dependency_is_a_cycle() {
    let registry = registry_of(vec![
        entry("a", Some("A"), SborEzModeSchemaKind::Number, vec![1]),
        entry("b", Some("B"), SborEzModeSchemaKind::Number, vec![0]),
    ]);
    assert_eq!(registry.topologically_sorted_indices(), Err(SchemaError::CycleDetected));
}

#[test]
fn self_dependency_is_a_cycle() {
    let registry = registry_of(vec![
        entry("a", None, SborEzModeSchemaKind::Number, vec![]),
        entry("b", None, SborEzModeSchemaKind::Number, vec![1]),
    ]);
    assert_eq!(registry.topologically_sorted_indices(), Err(SchemaError::CycleDetected));
}

#[test]
fn cycle_behind_sound_entries_is_found() {
    let registry = registry_of(vec![
        entry("a", None, SborEzModeSchemaKind::Number, vec![]),
        entry("b", None, SborEzModeSchemaKind::Number, vec![0, 3]),
        entry("c", None, SborEzModeSchemaKind::Number, vec![1]),
        entry("d", None, SborEzModeSchemaKind::Number, vec![2]),
    ]);
    assert_eq!(registry.topologically_sorted_indices(), Err(SchemaError::CycleDetected));
}

#[test]
fn dependency_out_of_range_is_named() {
    let registry = registry_of(vec![
        entry("a", None, SborEzModeSchemaKind::Number, vec![]),
        entry("b", None, SborEzModeSchemaKind::Number, vec![0, 7, 9]),
        entry("c", None, SborEzModeSchemaKind::Number, vec![5]),
    ]);
    let error = registry.topologically_sorted_indices().unwrap_err();
    assert_eq!(error, SchemaError::InvalidDependency { dependency: 7, entry: 1 });
    assert_eq!(error.message(), "Invalid dependency index 7 in entry 1");
}

#[test]
fn declared_name_may_read_as_a_made_up_name() {
    let registry = registry_of(vec![
        entry("a", Some("Type1"), SborEzModeSchemaKind::Number, vec![]),
        entry("b", None, SborEzModeSchemaKind::Number, vec![]),
        entry("c", Some("Pair_3"), SborEzModeSchemaKind::Number, vec![]),
        entry("d", Some("Pair"), SborEzModeSchemaKind::Number, vec![]),
        entry("e", Some("Pair"), SborEzModeSchemaKind::Number, vec![]),
    ]);
    assert_eq!(registry.entries[0].unique_var_name(&registry), "Type1");
    assert_eq!(registry.entries[1].unique_var_name(&registry), "Type1");
    assert_eq!(registry.entries[2].unique_var_name(&registry), "Pair_3");
    assert_eq!(registry.entries[3].unique_var_name(&registry), "Pair_3");
    assert_eq!(registry.entries[4].unique_var_name(&registry), "Pair_4");
}

#[test]
fn error_messages() {
    assert_eq!(
        SchemaError::UnresolvedType.message(),
        "Type id does not resolve in the schema"
    );
    assert_eq!(
        SchemaError::MissingFieldName.message(),
        "Tuple has fewer field names than fields"
    );
    assert_eq!(SchemaError::RecursiveType.message(), "Recursive types are not supported");
    assert_eq!(SchemaError::RegistryFull.message(), "Too many types in the registry");
    assert_eq!(
        SchemaError::BrokenReference.message(),
        "Entry refers to a type that cannot be rendered"
    );
    assert_eq!(SchemaError::CycleDetected.message(), "Cycle detected in dependency graph");
    assert_eq!(
        SchemaError::MalformedOption.message(),
        "Option enum does not have a Some variant"
    );
    assert_eq!(
        SchemaError::InvalidDependency { dependency: 4294967295, entry: 10 }.message(),
        "Invalid dependency index 4294967295 in entry 10"
    );
}

#[test]
fn clone_keeps_the_entry() {
    let first = entry(
        "k",
        Some("N"),
        SborEzModeSchemaKind::Struct { fields: vec![("x".to_string(), 1), ("y".to_string(), 2)] },
        vec![1, 2],
    );
    let copy = first.clone();
    assert_eq!(copy.type_hash.0, "k");
    assert_eq!(copy.name.as_deref(), Some("N"));
    assert_eq!(copy.dependencies, vec![1, 2]);
    match copy.schema_kind {
        SborEzModeSchemaKind::Struct { fields } => {
            assert_eq!(fields, vec![("x".to_string(), 1), ("y".to_string(), 2)]);
        }
        _ => panic!("the copy is no struct"),
    }
}

#[test]
fn entries_are_equal_where_their_fingerprints_are() {
    let a = entry("k", Some("A"), SborEzModeSchemaKind::Number, vec![]);
    let same_key = entry("k", Some("B"), SborEzModeSchemaKind::String, vec![1]);
    let other_key = entry("j", Some("A"), SborEzModeSchemaKind::Number, vec![]);
    assert!(a == same_key);
    assert!(a != other_key);
    assert!(TypeHash("k".to_string()) == TypeHash("k".to_string()));
    assert!(TypeHash("k".to_string()) != TypeHash("j".to_string()));
}

#[test]
fn default_registry_is_empty() {
    assert!(SchemaRegistry::default().entries.is_empty());
}
