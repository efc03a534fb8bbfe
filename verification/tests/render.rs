use schema_gen::ez_mode_gen::{
    RegistryEntry, SborEzModeSchemaKind, SchemaError, SchemaRegistry, TypeHash,
};

fn entry(key: &str, name: Option<&str>, kind: SborEzModeSchemaKind, deps: Vec<u32>) -> RegistryEntry {
    RegistryEntry {
        type_hash: TypeHash(key.to_string()),
        name: name.map(|n| n.to_string()),
        schema_kind: kind,
        dependencies: deps,
    }
}

fn registry_of(entries: Vec<RegistryEntry>) -> SchemaRegistry {
    let mut registry = SchemaRegistry::new();
    for e in entries.iter() {
        registry.register(e);
    }
    registry
}

fn leaves() -> SchemaRegistry {
    registry_of(vec![
        entry("0", None, SborEzModeSchemaKind::Address, vec![]),
        entry("1", None, SborEzModeSchemaKind::InternalAddress, vec![]),
        entry("2", None, SborEzModeSchemaKind::Decimal, vec![]),
        entry("3", None, SborEzModeSchemaKind::Number, vec![]),
        entry("4", None, SborEzModeSchemaKind::String, vec![]),
        entry("5", None, SborEzModeSchemaKind::Bool, vec![]),
        entry("6", None, SborEzModeSchemaKind::Instant, vec![]),
        entry("7", None, SborEzModeSchemaKind::NonFungibleLocalId, vec![]),
        entry("8", None, SborEzModeSchemaKind::Value, vec![]),
    ])
}

#[test]
fn leaves_render_as_their_constructors() {
    let registry = leaves();
    let expected = [
        "s.address()",
        "s.internalAddress()",
        "s.decimal()",
        "s.number()",
        "s.string()",
        "s.bool()",
        "s.instant()",
        "s.nonFungibleLocalId()",
        "s.value()",
    ];
    for (i, text) in expected.iter().enumerate() {
        assert_eq!(registry.entries[i].render(&registry), *text);
    }
}

#[test]
fn array_renders_its_element_inline() {
    let registry = leaves();
    let array = entry("a", None, SborEzModeSchemaKind::Array { element_type: 3 }, vec![3]);
    assert_eq!(array.render(&registry), "s.array(s.number())");
}

#[test]
fn map_renders_key_and_value() {
    let registry = leaves();
    let map = entry("m", None, SborEzModeSchemaKind::Mapping { key_type: 4, value_type: 2 }, vec![4, 2]);
    assert_eq!(map.render(&registry), "s.map({ key: s.string(), value: s.decimal() })");
}

#[test]
fn tuple_renders_fields_in_order() {
    let registry = leaves();
    let tuple = entry("t", None, SborEzModeSchemaKind::Tuple { fields: vec![3, 4, 5] }, vec![]);
    assert_eq!(tuple.render(&registry), "s.tuple([s.number(), s.string(), s.bool()])");
    let empty = entry("e", None, SborEzModeSchemaKind::Tuple { fields: vec![] }, vec![]);
    assert_eq!(empty.render(&registry), "s.tuple([])");
    let single = entry("s", None, SborEzModeSchemaKind::Tuple { fields: vec![0] }, vec![]);
    assert_eq!(single.render(&registry), "s.tuple([s.address()])");
}

#[test]
fn struct_renders_one_field_per_line() {
    let registry = leaves();
    let fields = vec![("count".to_string(), 3), ("label".to_string(), 4)];
    let record = entry("r", Some("R"), SborEzModeSchemaKind::Struct { fields }, vec![]);
    assert_eq!(record.render(&registry), "s.struct({\n  count: s.number(),\n  label: s.string()\n})");
    let empty = entry("e", None, SborEzModeSchemaKind::Struct { fields: vec![] }, vec![]);
    assert_eq!(empty.render(&registry), "s.struct({\n  \n})");
}

#[test]
fn enum_renders_one_variant_per_line() {
    let registry = leaves();
    let variants = vec![("On".to_string(), 5), ("Off".to_string(), 3)];
    let choice = entry("c", Some("C"), SborEzModeSchemaKind::Enum { variants }, vec![]);
    assert_eq!(
        choice.render(&registry),
        "s.enum([\n  { variant: \"On\", schema: s.bool() },\n  { variant: \"Off\", schema: s.number() }\n])"
    );
}

#[test]
fn option_of_one_type_takes_it_as_argument() {
    let registry = leaves();
    let option = entry("o", Some("Option"), SborEzModeSchemaKind::Option { inner_types: vec![4] }, vec![]);
    assert_eq!(option.render(&registry), "s.option(s.string())");
}

#[test]
fn option_of_several_types_wraps_them_in_a_tuple() {
    let registry = leaves();
    let option = entry("o", Some("Option"), SborEzModeSchemaKind::Option { inner_types: vec![4, 3] }, vec![]);
    assert_eq!(option.render(&registry), "s.option(s.tuple([s.string(), s.number()]))");
    let none = entry("n", Some("Option"), SborEzModeSchemaKind::Option { inner_types: vec![] }, vec![]);
    assert_eq!(none.render(&registry), "s.option(s.tuple([]))");
}

#[test]
fn declared_children_are_referred_to_by_name() {
    let registry = registry_of(vec![
        entry("n", None, SborEzModeSchemaKind::Number, vec![]),
        entry("p", Some("Point"), SborEzModeSchemaKind::Struct { fields: vec![("x".to_string(), 0)] }, vec![0]),
        entry("q", None, SborEzModeSchemaKind::Struct { fields: vec![] }, vec![]),
        entry("l", None, SborEzModeSchemaKind::Array { element_type: 1 }, vec![0, 1]),
        entry("m", None, SborEzModeSchemaKind::Mapping { key_type: 2, value_type: 3 }, vec![0, 1, 2, 3]),
    ]);
    assert_eq!(registry.entries[3].render(&registry), "s.array(Point)");
    assert_eq!(registry.entries[4].render(&registry), "s.map({ key: Type2, value: s.array(Point) })");
}

#[test]
fn try_render_gives_nothing_for_a_missing_child() {
    let registry = leaves();
    let array = entry("a", None, SborEzModeSchemaKind::Array { element_type: 99 }, vec![]);
    assert_eq!(array.try_render(&registry), None);
}

#[test]
fn try_render_gives_nothing_for_an_array_of_itself() {
    let registry = registry_of(vec![entry(
        "a",
        None,
        SborEzModeSchemaKind::Array { element_type: 0 },
        vec![],
    )]);
    assert_eq!(registry.entries[0].try_render(&registry), None);
}

#[test]
fn try_render_follows_inline_children_through_the_whole_registry() {
    let registry = registry_of(vec![
        entry("a", None, SborEzModeSchemaKind::Array { element_type: 1 }, vec![]),
        entry("b", None, SborEzModeSchemaKind::Array { element_type: 2 }, vec![]),
        entry("c", None, SborEzModeSchemaKind::Number, vec![]),
    ]);
    let outer = entry("o", None, SborEzModeSchemaKind::Array { element_type: 0 }, vec![]);
    assert_eq!(
        outer.try_render(&registry),
        Some("s.array(s.array(s.array(s.number())))".to_string())
    );
}

#[test]
fn registry_renders_declarations_in_dependency_order() {
    let registry = registry_of(vec![
        entry(
            "outer",
            Some("Outer"),
            SborEzModeSchemaKind::Struct { fields: vec![("inner".to_string(), 2), ("n".to_string(), 1)] },
            vec![1, 2],
        ),
        entry("n", None, SborEzModeSchemaKind::Number, vec![]),
        entry(
            "inner",
            Some("Inner"),
            SborEzModeSchemaKind::Tuple { fields: vec![1] },
            vec![1],
        ),
    ]);
    let text = registry.render("package_x", false).unwrap();
    assert_eq!(
        text,
        "// Generated TypeScript schema for Scrypto SBOR types of package address: package_x\n\
         //Generated by: https://www.8arms1goal.com/sbor-ez-mode-ez-mode\n\n\
         const Inner = s.tuple([s.number()]);\n\n\
         const Outer = s.struct({\n  inner: Inner,\n  n: s.number()\n});\n\n"
    );
}

#[test]
fn registry_renders_a_module_with_import_and_exports() {
    let registry = registry_of(vec![
        entry("n", None, SborEzModeSchemaKind::Number, vec![]),
        entry("p", Some("P"), SborEzModeSchemaKind::Struct { fields: vec![("x".to_string(), 0)] }, vec![0]),
    ]);
    let text = registry.render("addr", true).unwrap();
    assert_eq!(
        text,
        "import s from '@calamari-radix/sbor-ez-mode';\n\
         // Generated TypeScript schema for Scrypto SBOR types of package address: addr\n\
         //Generated by: https://www.8arms1goal.com/sbor-ez-mode-ez-mode\n\n\
         export const P = s.struct({\n  x: s.number()\n});\n\n"
    );
}

#[test]
fn empty_registry_renders_the_header_alone() {
    let text = SchemaRegistry::new().render("addr", false).unwrap();
    assert_eq!(
        text,
        "// Generated TypeScript schema for Scrypto SBOR types of package address: addr\n\
         //Generated by: https://www.8arms1goal.com/sbor-ez-mode-ez-mode\n\n"
    );
}

#[test]
fn shared_names_are_declared_with_their_positions() {
    let registry = registry_of(vec![
        entry("a", Some("Pair"), SborEzModeSchemaKind::Struct { fields: vec![] }, vec![]),
        entry("b", Some("Pair"), SborEzModeSchemaKind::Struct { fields: vec![] }, vec![]),
        entry("c", Some("Single"), SborEzModeSchemaKind::Struct { fields: vec![("p".to_string(), 1)] }, vec![1]),
    ]);
    let text = registry.render("addr", false).unwrap();
    assert!(text.contains("const Pair_0 = "));
    assert!(text.contains("const Pair_1 = "));
    assert!(text.contains("const Single = s.struct({\n  p: Pair_1\n});"));
    assert!(!text.contains("const Pair = "));
}

#[test]
fn render_fails_on_a_cycle() {
    let registry = registry_of(vec![
        entry("a", Some("A"), SborEzModeSchemaKind::Struct { fields: vec![("b".to_string(), 1)] }, vec![1]),
        entry("b", Some("B"), SborEzModeSchemaKind::Struct { fields: vec![("a".to_string(), 0)] }, vec![0]),
    ]);
    assert_eq!(registry.render("addr", false), Err(SchemaError::CycleDetected));
}

#[test]
fn render_fails_on_a_dependency_out_of_range() {
    let registry = registry_of(vec![entry("a", None, SborEzModeSchemaKind::Number, vec![3])]);
    assert_eq!(
        registry.render("addr", false),
        Err(SchemaError::InvalidDependency { dependency: 3, entry: 0 })
    );
}

#[test]
fn render_fails_on_a_broken_reference() {
    let registry = registry_of(vec![entry(
        "a",
        Some("A"),
        SborEzModeSchemaKind::Struct { fields: vec![("x".to_string(), 5)] },
        vec![],
    )]);
    assert_eq!(registry.render("addr", false), Err(SchemaError::BrokenReference));
}

#[test]
fn render_twice_gives_the_same_text() {
    let registry = registry_of(vec![
        entry("n", None, SborEzModeSchemaKind::Number, vec![]),
        entry("p", Some("P"), SborEzModeSchemaKind::Struct { fields: vec![("x".to_string(), 0)] }, vec![0]),
    ]);
    assert_eq!(registry.render("addr", true), registry.render("addr", true));
}
