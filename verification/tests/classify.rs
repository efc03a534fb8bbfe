use schema_gen::decoded::{
    ChildNames, CustomTypeKind, DecodedSchema, LocalTypeId, TypeData, TypeKind, TypeMetadata,
    VariantNames, INSTANT_TYPE,
};
use schema_gen::ez_mode_gen::{
    generate_ir, DecodedBlueprint, SborEzModeSchemaKind, SchemaError, SchemaRegistry, TypeHash,
};
use schema_gen::gateway::{BlueprintDefinition, Type};

fn unnamed() -> TypeMetadata {
    TypeMetadata { name: None, child_names: None }
}

fn named(name: &str) -> TypeMetadata {
    TypeMetadata { name: Some(name.to_string()), child_names: None }
}

fn named_fields(name: &str, fields: &[&str]) -> TypeMetadata {
    TypeMetadata {
        name: Some(name.to_string()),
        child_names: Some(ChildNames::NamedFields(fields.iter().map(|f| f.to_string()).collect())),
    }
}

fn variant(id: u8, name: &str, fields: Option<&[&str]>) -> VariantNames {
    VariantNames {
        id,
        name: Some(name.to_string()),
        field_names: fields.map(|f| f.iter().map(|n| n.to_string()).collect()),
    }
}

fn enum_named(name: &str, variants: Vec<VariantNames>) -> TypeMetadata {
    TypeMetadata {
        name: Some(name.to_string()),
        child_names: Some(ChildNames::EnumVariants(variants)),
    }
}

fn local(index: usize) -> LocalTypeId {
    LocalTypeId::SchemaLocalIndex(index)
}

fn well_known_table() -> Vec<Option<TypeData>> {
    let mut table: Vec<Option<TypeData>> = Vec::new();
    for _ in 0..256 {
        table.push(None);
    }
    table[0x0c] = Some(TypeData { kind: TypeKind::String, metadata: named("String") });
    table[0x09] = Some(TypeData { kind: TypeKind::U32, metadata: named("U32") });
    table[INSTANT_TYPE as usize] = Some(TypeData { kind: TypeKind::I64, metadata: named("Instant") });
    table
}

fn schema_of(types: Vec<(TypeKind, TypeMetadata)>) -> DecodedSchema {
    let mut type_kinds = Vec::new();
    let mut type_metadata = Vec::new();
    for (kind, metadata) in types {
        type_kinds.push(kind);
        type_metadata.push(metadata);
    }
    DecodedSchema { type_kinds, type_metadata, well_known: well_known_table() }
}

fn blueprint_of(name: &str, state: u32, events: &[(&str, u32)]) -> BlueprintDefinition {
    BlueprintDefinition {
        state: Type { name: name.to_string(), type_id: state, schema_hash: "h".to_string() },
        events: events
            .iter()
            .map(|(event, type_id)| Type {
                name: event.to_string(),
                type_id: *type_id,
                schema_hash: "h".to_string(),
            })
            .collect(),
        schema_hash: "h".to_string(),
    }
}

fn register(registry: &mut SchemaRegistry, schema: &DecodedSchema, index: usize) -> Result<u32, SchemaError> {
    registry.get_or_register(
        schema,
        &schema.type_metadata[index],
        &schema.type_kinds[index],
        local(index),
    )
}

const HEADER: &str = "// Generated TypeScript schema for Scrypto SBOR types of package address: addr\n//Generated by: https://www.8arms1goal.com/sbor-ez-mode-ez-mode\n\n";

#[test]
fn counter_blueprint_renders_struct_and_enum() {
    let schema = schema_of(vec![
        (
            TypeKind::Tuple { field_types: vec![local(1), local(2)] },
            named_fields("Counter", &["count", "label"]),
        ),
        (TypeKind::I32, unnamed()),
        (TypeKind::String, unnamed()),
        (
            TypeKind::Enum { variants: vec![(0, vec![local(4)]), (1, vec![])] },
            enum_named(
                "CounterEvent",
                vec![variant(0, "Created", Some(&["id"])), variant(1, "Removed", None)],
            ),
        ),
        (TypeKind::Custom(CustomTypeKind::NonFungibleLocalId), unnamed()),
    ]);
    let blueprints = vec![DecodedBlueprint {
        blueprint: blueprint_of("Counter", 0, &[("CounterEvent", 3)]),
        schema,
    }];
    let registry = generate_ir(&blueprints).unwrap();
    assert_eq!(registry.entries.len(), 7);
    let text = registry.render("addr", false).unwrap();
    let expected = format!(
        "{}{}{}{}",
        HEADER,
        "const Type1 = s.struct({\n  id: s.nonFungibleLocalId()\n});\n\n",
        "const CounterEvent = s.enum([\n  { variant: \"Created\", schema: Type1 },\n  { variant: \"Removed\", schema: s.tuple([]) }\n]);\n\n",
        "const Counter = s.struct({\n  count: s.number(),\n  label: s.string()\n});\n\n",
    );
    assert_eq!(text, expected);
    let named_declarations = registry
        .entries
        .iter()
        .filter(|e| e.name.is_some() && text.contains(&format!("const {} = ", e.name.as_ref().unwrap())))
        .count();
    assert_eq!(named_declarations, 2);
    assert_eq!(text.matches("const ").count(), 3);
}

#[test]
fn option_without_some_variant_fails() {
    let schema = schema_of(vec![
        (
            TypeKind::Enum { variants: vec![(0, vec![]), (1, vec![local(1)])] },
            enum_named("Option", vec![variant(0, "None", None), variant(1, "Present", None)]),
        ),
        (TypeKind::String, unnamed()),
    ]);
    let mut registry = SchemaRegistry::new();
    assert_eq!(register(&mut registry, &schema, 0), Err(SchemaError::MalformedOption));
    assert!(registry.entries.is_empty());
}

#[test]
fn option_without_variant_names_fails() {
    let schema = schema_of(vec![(
        TypeKind::Enum { variants: vec![(0, vec![]), (1, vec![])] },
        named("Option"),
    )]);
    let blueprints = vec![DecodedBlueprint { blueprint: blueprint_of("B", 0, &[]), schema }];
    assert_eq!(generate_ir(&blueprints).err(), Some(SchemaError::MalformedOption));
}

#[test]
fn option_with_one_payload_renders_single_argument_form() {
    let schema = schema_of(vec![
        (
            TypeKind::Enum { variants: vec![(0, vec![]), (1, vec![local(1)])] },
            enum_named("Option", vec![variant(0, "None", None), variant(1, "Some", None)]),
        ),
        (TypeKind::String, unnamed()),
    ]);
    let mut registry = SchemaRegistry::new();
    let index = register(&mut registry, &schema, 0).unwrap();
    assert_eq!(index, 1);
    match &registry.entries[1].schema_kind {
        SborEzModeSchemaKind::Option { inner_types } => assert_eq!(inner_types, &vec![0]),
        _ => panic!("no option"),
    }
    assert_eq!(registry.entries[1].dependencies, vec![0]);
    assert_eq!(registry.entries[1].render(&registry), "s.option(s.string())");
}

#[test]
fn option_with_several_payloads_renders_tuple_form() {
    let schema = schema_of(vec![
        (
            TypeKind::Enum { variants: vec![(0, vec![]), (1, vec![local(1), local(2)])] },
            enum_named("Option", vec![variant(0, "None", None), variant(1, "Some", None)]),
        ),
        (TypeKind::String, unnamed()),
        (TypeKind::U8, unnamed()),
    ]);
    let mut registry = SchemaRegistry::new();
    let index = register(&mut registry, &schema, 0).unwrap();
    assert_eq!(index, 2);
    assert_eq!(registry.entries[2].dependencies, vec![0, 1]);
    assert_eq!(
        registry.entries[2].render(&registry),
        "s.option(s.tuple([s.string(), s.number()]))"
    );
}

#[test]
fn registering_twice_gives_the_same_index() {
    let schema = schema_of(vec![
        (TypeKind::Tuple { field_types: vec![local(1)] }, named_fields("Wrapper", &["inner"])),
        (TypeKind::Bool, unnamed()),
    ]);
    let mut registry = SchemaRegistry::new();
    let first = register(&mut registry, &schema, 0).unwrap();
    let len = registry.entries.len();
    let second = register(&mut registry, &schema, 0).unwrap();
    assert_eq!(first, second);
    assert_eq!(registry.entries.len(), len);
    assert!(registry.has_type(&schema.type_kinds[0], &schema.type_metadata[0]));
    assert!(!registry.has_type(&TypeKind::Any, &unnamed()));
}

#[test]
fn types_shared_by_blueprints_are_registered_once() {
    let shared = || {
        schema_of(vec![
            (TypeKind::Tuple { field_types: vec![local(1)] }, named_fields("Token", &["amount"])),
            (TypeKind::Custom(CustomTypeKind::Decimal), unnamed()),
        ])
    };
    let blueprints = vec![
        DecodedBlueprint { blueprint: blueprint_of("A", 0, &[]), schema: shared() },
        DecodedBlueprint { blueprint: blueprint_of("B", 0, &[]), schema: shared() },
    ];
    let registry = generate_ir(&blueprints).unwrap();
    assert_eq!(registry.entries.len(), 2);
}

#[test]
fn blueprints_are_registered_last_first() {
    let first = schema_of(vec![(TypeKind::Tuple { field_types: vec![] }, named("First"))]);
    let second = schema_of(vec![(TypeKind::Tuple { field_types: vec![] }, named("Second"))]);
    let blueprints = vec![
        DecodedBlueprint { blueprint: blueprint_of("First", 0, &[]), schema: first },
        DecodedBlueprint { blueprint: blueprint_of("Second", 0, &[]), schema: second },
    ];
    let registry = generate_ir(&blueprints).unwrap();
    assert_eq!(registry.entries[0].name.as_deref(), Some("Second"));
    assert_eq!(registry.entries[1].name.as_deref(), Some("First"));
}

#[test]
fn events_are_registered_before_the_state() {
    let schema = schema_of(vec![
        (TypeKind::Tuple { field_types: vec![] }, named("State")),
        (TypeKind::Tuple { field_types: vec![] }, named("EventA")),
        (TypeKind::Tuple { field_types: vec![] }, named("EventB")),
    ]);
    let blueprints = vec![DecodedBlueprint {
        blueprint: blueprint_of("State", 0, &[("EventA", 1), ("EventB", 2)]),
        schema,
    }];
    let registry = generate_ir(&blueprints).unwrap();
    let names: Vec<_> = registry.entries.iter().map(|e| e.name.clone().unwrap()).collect();
    assert_eq!(names, vec!["EventA", "EventB", "State"]);
}

#[test]
fn root_outside_the_schema_is_passed_over() {
    let schema = schema_of(vec![(TypeKind::Bool, unnamed())]);
    let blueprints = vec![DecodedBlueprint {
        blueprint: blueprint_of("State", 5, &[("E", 0)]),
        schema,
    }];
    let registry = generate_ir(&blueprints).unwrap();
    assert_eq!(registry.entries.len(), 1);
}

#[test]
fn scalars_map_to_leaves() {
    let kinds = vec![
        (TypeKind::Bool, "s.bool()"),
        (TypeKind::U8, "s.number()"),
        (TypeKind::U16, "s.number()"),
        (TypeKind::U32, "s.number()"),
        (TypeKind::U64, "s.number()"),
        (TypeKind::U128, "s.number()"),
        (TypeKind::I8, "s.number()"),
        (TypeKind::I16, "s.number()"),
        (TypeKind::I32, "s.number()"),
        (TypeKind::I64, "s.number()"),
        (TypeKind::I128, "s.number()"),
        (TypeKind::String, "s.string()"),
        (TypeKind::Any, "s.value()"),
        (TypeKind::Custom(CustomTypeKind::Decimal), "s.decimal()"),
        (TypeKind::Custom(CustomTypeKind::PreciseDecimal), "s.decimal()"),
        (TypeKind::Custom(CustomTypeKind::Reference), "s.address()"),
        (TypeKind::Custom(CustomTypeKind::Own), "s.internalAddress()"),
        (TypeKind::Custom(CustomTypeKind::NonFungibleLocalId), "s.nonFungibleLocalId()"),
    ];
    for (kind, text) in kinds {
        let schema = schema_of(vec![(kind, unnamed())]);
        let mut registry = SchemaRegistry::new();
        let index = register(&mut registry, &schema, 0).unwrap();
        assert_eq!(index, 0);
        assert!(registry.entries[0].dependencies.is_empty());
        assert_eq!(registry.entries[0].render(&registry), text);
    }
}

#[test]
fn well_known_instant_maps_to_instant() {
    let schema = schema_of(vec![(
        TypeKind::Tuple { field_types: vec![LocalTypeId::WellKnown(INSTANT_TYPE), local(1)] },
        named_fields("Times", &["at", "plain"]),
    ), (TypeKind::I64, unnamed())]);
    let mut registry = SchemaRegistry::new();
    register(&mut registry, &schema, 0).unwrap();
    assert_eq!(
        registry.entries[2].render(&registry),
        "s.struct({\n  at: s.instant(),\n  plain: s.number()\n})"
    );
}

#[test]
fn well_known_types_resolve_through_the_table() {
    let schema = schema_of(vec![(
        TypeKind::Array { element_type: LocalTypeId::WellKnown(0x0c) },
        unnamed(),
    )]);
    let mut registry = SchemaRegistry::new();
    let index = register(&mut registry, &schema, 0).unwrap();
    assert_eq!(registry.entries[index as usize].render(&registry), "s.array(s.string())");
}

#[test]
fn unknown_well_known_type_is_unresolved() {
    let schema = schema_of(vec![(
        TypeKind::Array { element_type: LocalTypeId::WellKnown(0x7f) },
        unnamed(),
    )]);
    let mut registry = SchemaRegistry::new();
    assert_eq!(register(&mut registry, &schema, 0), Err(SchemaError::UnresolvedType));
}

#[test]
fn dangling_local_type_is_unresolved_and_leaves_the_registry_as_it_was() {
    let schema = schema_of(vec![
        (TypeKind::Tuple { field_types: vec![local(1), local(9)] }, unnamed()),
        (TypeKind::Bool, unnamed()),
    ]);
    let mut registry = SchemaRegistry::new();
    assert_eq!(register(&mut registry, &schema, 0), Err(SchemaError::UnresolvedType));
    assert!(registry.entries.is_empty());
}

#[test]
fn tuple_with_too_few_names_fails() {
    let schema = schema_of(vec![
        (TypeKind::Tuple { field_types: vec![local(1), local(1)] }, named_fields("Short", &["only"])),
        (TypeKind::Bool, unnamed()),
    ]);
    let mut registry = SchemaRegistry::new();
    assert_eq!(register(&mut registry, &schema, 0), Err(SchemaError::MissingFieldName));
}

#[test]
fn type_that_contains_itself_fails() {
    let schema = schema_of(vec![
        (TypeKind::Tuple { field_types: vec![local(1)] }, named_fields("Node", &["next"])),
        (TypeKind::Array { element_type: local(0) }, unnamed()),
    ]);
    let mut registry = SchemaRegistry::new();
    assert_eq!(register(&mut registry, &schema, 0), Err(SchemaError::RecursiveType));
    assert!(registry.entries.is_empty());
}

#[test]
fn unnamed_tuple_becomes_a_tuple_and_named_fields_a_struct() {
    let schema = schema_of(vec![
        (TypeKind::Tuple { field_types: vec![local(2), local(2)] }, named("Pair")),
        (TypeKind::Tuple { field_types: vec![local(2)] }, named_fields("Rec", &["a"])),
        (TypeKind::String, unnamed()),
    ]);
    let mut registry = SchemaRegistry::new();
    let pair = register(&mut registry, &schema, 0).unwrap() as usize;
    let rec = register(&mut registry, &schema, 1).unwrap() as usize;
    assert!(matches!(registry.entries[pair].schema_kind, SborEzModeSchemaKind::Tuple { .. }));
    assert!(matches!(registry.entries[rec].schema_kind, SborEzModeSchemaKind::Struct { .. }));
    assert_eq!(registry.entries[pair].dependencies, vec![0]);
    assert_eq!(registry.entries[pair].name.as_deref(), Some("Pair"));
}

#[test]
fn map_depends_on_key_and_value_and_theirs() {
    let schema = schema_of(vec![
        (TypeKind::Mapping { key_type: local(1), value_type: local(2) }, unnamed()),
        (TypeKind::String, unnamed()),
        (TypeKind::Array { element_type: local(3) }, unnamed()),
        (TypeKind::U8, unnamed()),
    ]);
    let mut registry = SchemaRegistry::new();
    let map = register(&mut registry, &schema, 0).unwrap() as usize;
    assert_eq!(map, 3);
    assert_eq!(registry.entries[map].dependencies, vec![0, 1, 2]);
    assert_eq!(
        registry.entries[map].render(&registry),
        "s.map({ key: s.string(), value: s.array(s.number()) })"
    );
}

#[test]
fn enum_variants_get_entries_of_their_own() {
    let schema = schema_of(vec![
        (
            TypeKind::Enum {
                variants: vec![(0, vec![local(1), local(1)]), (1, vec![local(1)]), (2, vec![local(1)])],
            },
            enum_named(
                "Shape",
                vec![
                    variant(0, "Rect", Some(&["w", "h"])),
                    variant(1, "Circle", None),
                    VariantNames { id: 2, name: None, field_names: None },
                ],
            ),
        ),
        (TypeKind::U32, unnamed()),
    ]);
    let mut registry = SchemaRegistry::new();
    let shape = register(&mut registry, &schema, 0).unwrap() as usize;
    assert_eq!(shape, 3);
    match &registry.entries[shape].schema_kind {
        SborEzModeSchemaKind::Enum { variants } => {
            assert_eq!(
                variants,
                &vec![
                    ("Rect".to_string(), 1),
                    ("Circle".to_string(), 2),
                    ("<unnamed>".to_string(), 2)
                ]
            );
        }
        _ => panic!("no enum"),
    }
    assert_eq!(registry.entries[shape].dependencies, vec![0, 1, 2]);
    assert_eq!(registry.entries[1].name, None);
    assert_eq!(
        registry.entries[shape].render(&registry),
        "s.enum([\n  { variant: \"Rect\", schema: Type1 },\n  { variant: \"Circle\", schema: s.tuple([s.number()]) },\n  { variant: \"<unnamed>\", schema: s.tuple([s.number()]) }\n])"
    );
}

#[test]
fn variant_field_names_of_another_length_are_left_out() {
    let schema = schema_of(vec![
        (
            TypeKind::Enum { variants: vec![(0, vec![local(1)])] },
            enum_named("E", vec![variant(0, "V", Some(&["a", "b"]))]),
        ),
        (TypeKind::U32, unnamed()),
    ]);
    let mut registry = SchemaRegistry::new();
    register(&mut registry, &schema, 0).unwrap();
    assert!(matches!(registry.entries[1].schema_kind, SborEzModeSchemaKind::Tuple { .. }));
}

#[test]
fn every_dependency_is_registered_before_its_entry() {
    let schema = schema_of(vec![
        (
            TypeKind::Tuple { field_types: vec![local(1), local(2), local(3)] },
            named_fields("Top", &["a", "b", "c"]),
        ),
        (TypeKind::Array { element_type: local(2) }, unnamed()),
        (TypeKind::Mapping { key_type: local(4), value_type: local(3) }, named("Index")),
        (
            TypeKind::Enum { variants: vec![(0, vec![local(4)]), (1, vec![])] },
            enum_named("Option", vec![variant(0, "Some", None), variant(1, "None", None)]),
        ),
        (TypeKind::String, unnamed()),
    ]);
    let blueprints = vec![DecodedBlueprint { blueprint: blueprint_of("Top", 0, &[]), schema }];
    let registry = generate_ir(&blueprints).unwrap();
    for (i, e) in registry.entries.iter().enumerate() {
        for dep in e.dependencies.iter() {
            assert!((*dep as usize) < i);
        }
    }
    let order = registry.topologically_sorted_indices().unwrap();
    let expected: Vec<u32> = (0..registry.entries.len() as u32).collect();
    assert_eq!(order, expected);
}

#[test]
fn fingerprints_tell_types_apart() {
    let a = TypeHash::create(&named("A"), &TypeKind::Bool);
    let again = TypeHash::create(&named("A"), &TypeKind::Bool);
    let other_name = TypeHash::create(&named("B"), &TypeKind::Bool);
    let other_kind = TypeHash::create(&named("A"), &TypeKind::U8);
    let no_name = TypeHash::create(&unnamed(), &TypeKind::Bool);
    assert_eq!(a.0, again.0);
    assert_ne!(a.0, other_name.0);
    assert_ne!(a.0, other_kind.0);
    assert_ne!(a.0, no_name.0);
}

#[test]
fn fingerprint_text() {
    let metadata = enum_named(
        "E",
        vec![variant(0, "A", Some(&["x", "y"])), VariantNames { id: 10, name: None, field_names: None }],
    );
    let kind = TypeKind::Enum {
        variants: vec![(0, vec![local(12), LocalTypeId::WellKnown(196)]), (10, vec![])],
    };
    assert_eq!(
        TypeHash::create(&metadata, &kind).0,
        "1:1:E2:2:0:1:1:A1:2:1:x1:y10:0:0:15:2:0:2:1:12:0:196:10:0:"
    );
    assert_eq!(
        TypeHash::create(&named_fields("S", &["f"]), &TypeKind::Tuple { field_types: vec![local(1)] }).0,
        "1:1:S1:1:1:f14:1:1:1:"
    );
    assert_eq!(
        TypeHash::create(&unnamed(), &TypeKind::Mapping { key_type: local(1), value_type: local(2) }).0,
        "0:0:16:1:1:1:2:"
    );
    assert_eq!(
        TypeHash::create(&unnamed(), &TypeKind::Array { element_type: LocalTypeId::WellKnown(7) }).0,
        "0:0:13:0:7:"
    );
    assert_eq!(TypeHash::create(&named("Long name"), &TypeKind::Any).0, "1:9:Long name0:0:");
    assert_eq!(
        TypeHash::create(&unnamed(), &TypeKind::Custom(CustomTypeKind::NonFungibleLocalId)).0,
        "0:0:21:"
    );
    assert_eq!(
        TypeHash::create_unnamed(Some(&vec!["f".to_string()]), &vec![local(1)]).0,
        "0:1:1:1:f14:1:1:1:"
    );
    assert_eq!(TypeHash::create_unnamed(None, &vec![]).0, "0:0:14:0:");
}

#[test]
fn fingerprint_of_unnamed_tuple_is_that_of_its_metadata_and_kind() {
    let names = vec!["a".to_string(), "b".to_string()];
    let types = vec![local(3), LocalTypeId::WellKnown(9)];
    let metadata = TypeMetadata {
        name: None,
        child_names: Some(ChildNames::NamedFields(names.clone())),
    };
    assert_eq!(
        TypeHash::create_unnamed(Some(&names), &types).0,
        TypeHash::create(&metadata, &TypeKind::Tuple { field_types: types.clone() }).0
    );
    assert_eq!(
        TypeHash::create_unnamed(None, &types).0,
        TypeHash::create(&unnamed(), &TypeKind::Tuple { field_types: types }).0
    );
}

#[test]
fn fingerprints_of_names_with_delimiters_differ() {
    let kind = || TypeKind::Tuple { field_types: vec![local(1), local(1)] };
    let two = TypeHash::create(&named_fields("S", &["a", "b"]), &kind());
    let one = TypeHash::create(&named_fields("S", &["a1:b"]), &kind());
    let joined = TypeHash::create(&named_fields("S", &["a1:b", ""]), &kind());
    assert_ne!(two.0, one.0);
    assert_ne!(two.0, joined.0);
    assert_ne!(one.0, joined.0);
    assert_ne!(
        TypeHash::create(&named("1:"), &TypeKind::Any).0,
        TypeHash::create(&named(""), &TypeKind::Bool).0
    );
}

#[test]
fn fingerprint_counts_characters() {
    assert_eq!(TypeHash::create(&named("\u{e9}t\u{e9}"), &TypeKind::Bool).0, "1:3:\u{e9}t\u{e9}0:1:");
}

#[test]
fn instant_id_is_that_of_scrypto() {
    assert_eq!(
        INSTANT_TYPE as usize,
        radix_common::data::scrypto::well_known_scrypto_custom_types::INSTANT_TYPE.as_index()
    );
}

#[test]
fn variant_data_agrees_with_sbor() {
    let mut variants = sbor::prelude::IndexMap::new();
    variants.insert(0u8, sbor::TypeMetadata::struct_fields("Rect", &["w", "h"]));
    variants.insert(3u8, sbor::TypeMetadata::no_child_names("Circle"));
    variants.insert(7u8, sbor::TypeMetadata::unnamed());
    let theirs = sbor::TypeMetadata::enum_variants("Shape", variants);
    let ours = enum_named(
        "Shape",
        vec![
            variant(0, "Rect", Some(&["w", "h"])),
            variant(3, "Circle", None),
            VariantNames { id: 7, name: None, field_names: None },
        ],
    );
    for id in [0u8, 1, 3, 7, 255] {
        for length in 0..4usize {
            let expected = theirs.get_matching_enum_variant_data(id, length);
            let found = ours.get_matching_enum_variant_data(id, length);
            assert_eq!(found.variant_name.map(|n| n.as_str()), expected.variant_name);
            let expected_fields: Option<Vec<String>> =
                expected.field_names.map(|f| f.iter().map(|n| n.to_string()).collect());
            assert_eq!(found.field_names.cloned(), expected_fields);
        }
    }
}

#[test]
fn field_names_agree_with_sbor() {
    let theirs = sbor::TypeMetadata::struct_fields("S", &["a", "b"]);
    let ours = named_fields("S", &["a", "b"]);
    let expected: Option<Vec<String>> =
        theirs.get_field_names().map(|f| f.iter().map(|n| n.to_string()).collect());
    assert_eq!(ours.get_field_names().cloned(), expected);
    assert_eq!(named("S").get_field_names(), None);
    assert!(sbor::TypeMetadata::no_child_names("S").get_field_names().is_none());
    assert_eq!(enum_named("E", vec![]).get_field_names(), None);
}

#[test]
fn types_resolve_as_in_sbor() {
    let schema = schema_of(vec![(TypeKind::Bool, named("Flag")), (TypeKind::U8, unnamed())]);
    assert!(matches!(schema.resolve_type_kind(local(0)), Some(TypeKind::Bool)));
    assert_eq!(schema.resolve_type_metadata(local(0)).unwrap().name.as_deref(), Some("Flag"));
    assert!(schema.resolve_type_kind(local(2)).is_none());
    assert!(schema.resolve_type_metadata(local(2)).is_none());
    assert!(matches!(schema.resolve_type_kind(LocalTypeId::WellKnown(0x0c)), Some(TypeKind::String)));
    assert!(schema.resolve_type_kind(LocalTypeId::WellKnown(0x7f)).is_none());
    assert_eq!(schema.depth_limit(), 2 + 256);
    let theirs: sbor::Schema<radix_common::data::scrypto::ScryptoCustomSchema> = sbor::Schema {
        type_kinds: vec![sbor::TypeKind::Bool, sbor::TypeKind::U8],
        type_metadata: vec![sbor::TypeMetadata::no_child_names("Flag"), sbor::TypeMetadata::unnamed()],
        type_validations: vec![sbor::TypeValidation::None, sbor::TypeValidation::None],
    };
    assert!(matches!(
        theirs.resolve_type_kind(sbor::LocalTypeId::SchemaLocalIndex(0)),
        Some(sbor::TypeKind::Bool)
    ));
    assert!(theirs.resolve_type_kind(sbor::LocalTypeId::SchemaLocalIndex(2)).is_none());
    assert!(matches!(
        theirs.resolve_type_kind(sbor::LocalTypeId::WellKnown(sbor::WellKnownTypeId::of(INSTANT_TYPE))),
        Some(sbor::TypeKind::I64)
    ));
    assert_eq!(
        theirs
            .resolve_type_metadata(sbor::LocalTypeId::WellKnown(sbor::WellKnownTypeId::of(INSTANT_TYPE)))
            .and_then(|m| m.get_name()),
        Some("Instant")
    );
}

#[test]
fn generating_twice_gives_the_same_text() {
    let blueprints = || {
        vec![DecodedBlueprint {
            blueprint: blueprint_of("Top", 0, &[("Event", 1)]),
            schema: schema_of(vec![
                (
                    TypeKind::Tuple { field_types: vec![local(1), local(2)] },
                    named_fields("Top", &["event", "amounts"]),
                ),
                (
                    TypeKind::Enum { variants: vec![(0, vec![local(2)]), (1, vec![])] },
                    enum_named("Event", vec![variant(0, "Paid", Some(&["amounts"])), variant(1, "Closed", None)]),
                ),
                (TypeKind::Array { element_type: local(3) }, unnamed()),
                (TypeKind::Custom(CustomTypeKind::Decimal), unnamed()),
            ]),
        }]
    };
    let first = generate_ir(&blueprints()).unwrap().render("addr", true).unwrap();
    let second = generate_ir(&blueprints()).unwrap().render("addr", true).unwrap();
    assert_eq!(first, second);
    assert_eq!(
        first,
        "import s from '@calamari-radix/sbor-ez-mode';\n\
         // Generated TypeScript schema for Scrypto SBOR types of package address: addr\n\
         //Generated by: https://www.8arms1goal.com/sbor-ez-mode-ez-mode\n\n\
         export const Type2 = s.struct({\n  amounts: s.array(s.decimal())\n});\n\n\
         export const Event = s.enum([\n  { variant: \"Paid\", schema: Type2 },\n  { variant: \"Closed\", schema: s.tuple([]) }\n]);\n\n\
         export const Top = s.struct({\n  event: Event,\n  amounts: s.array(s.decimal())\n});\n\n"
    );
}

#[test]
fn equal_payloads_of_different_enums_share_an_entry() {
    let schema = schema_of(vec![
        (
            TypeKind::Enum { variants: vec![(0, vec![local(2)])] },
            enum_named("A", vec![variant(0, "Only", Some(&["x"]))]),
        ),
        (
            TypeKind::Enum { variants: vec![(0, vec![local(2)])] },
            enum_named("B", vec![variant(0, "Other", Some(&["x"]))]),
        ),
        (TypeKind::U8, unnamed()),
    ]);
    let mut registry = SchemaRegistry::new();
    let a = register(&mut registry, &schema, 0).unwrap() as usize;
    let b = register(&mut registry, &schema, 1).unwrap() as usize;
    assert_eq!(registry.entries.len(), 4);
    let payload = |index: usize| match &registry.entries[index].schema_kind {
        SborEzModeSchemaKind::Enum { variants } => variants[0].1,
        _ => panic!("no enum"),
    };
    assert_eq!(payload(a), payload(b));
}

#[test]
fn registry_keeps_fingerprints_unique() {
    let schema = schema_of(vec![
        (
            TypeKind::Tuple { field_types: vec![local(1), local(2), local(1), local(3)] },
            named_fields("T", &["a", "b", "c", "d"]),
        ),
        (TypeKind::U8, unnamed()),
        (TypeKind::U8, unnamed()),
        (TypeKind::U8, named("Byte")),
    ]);
    let mut registry = SchemaRegistry::new();
    register(&mut registry, &schema, 0).unwrap();
    assert_eq!(registry.entries.len(), 3);
    for (i, a) in registry.entries.iter().enumerate() {
        for (j, b) in registry.entries.iter().enumerate() {
            assert_eq!(a.type_hash.0 == b.type_hash.0, i == j);
        }
    }
    match &registry.entries[2].schema_kind {
        SborEzModeSchemaKind::Struct { fields } => {
            let indices: Vec<u32> = fields.iter().map(|f| f.1).collect();
            assert_eq!(indices, vec![0, 0, 0, 1]);
        }
        _ => panic!("no struct"),
    }
    assert_eq!(registry.entries[2].dependencies, vec![0, 1]);
}

#[test]
fn new_type_gets_the_last_index_and_known_type_leaves_the_registry() {
    let schema = schema_of(vec![
        (TypeKind::Tuple { field_types: vec![local(1), local(2)] }, named_fields("T", &["a", "b"])),
        (TypeKind::Bool, unnamed()),
        (TypeKind::String, unnamed()),
    ]);
    let mut registry = SchemaRegistry::new();
    let flag = register(&mut registry, &schema, 1).unwrap();
    assert_eq!(flag as usize, registry.entries.len() - 1);
    let top = register(&mut registry, &schema, 0).unwrap();
    assert_eq!(top as usize, registry.entries.len() - 1);
    assert_eq!(registry.entries.len(), 3);
    let again = register(&mut registry, &schema, 1).unwrap();
    assert_eq!(again, flag);
    assert_eq!(registry.entries.len(), 3);
}

#[test]
fn boolean_field_renders_as_bool() {
    let schema = schema_of(vec![
        (TypeKind::Tuple { field_types: vec![local(1), local(2)] }, named_fields("Flags", &["on", "count"])),
        (TypeKind::Bool, unnamed()),
        (TypeKind::U8, unnamed()),
    ]);
    let mut registry = SchemaRegistry::new();
    let index = register(&mut registry, &schema, 0).unwrap() as usize;
    assert!(matches!(registry.entries[0].schema_kind, SborEzModeSchemaKind::Bool));
    assert!(registry.entries[0].dependencies.is_empty());
    assert_eq!(
        registry.entries[index].render(&registry),
        "s.struct({\n  on: s.bool(),\n  count: s.number()\n})"
    );
}
