use schema_gen::gateway::{
    get_blueprint_definitions, get_blueprints_and_corresponding_schemas, get_schemas,
    BlueprintDefinition, BlueprintItem, EventItem, Schema, SchemaItem, Type, TypeReference,
};

fn blueprint(name: &str, state_type: u32, events: Vec<(&str, u32)>, hash: &str) -> BlueprintDefinition {
    BlueprintDefinition {
        state: Type { name: name.to_string(), type_id: state_type, schema_hash: hash.to_string() },
        events: events
            .into_iter()
            .map(|(event, type_id)| Type {
                name: event.to_string(),
                type_id,
                schema_hash: hash.to_string(),
            })
            .collect(),
        schema_hash: hash.to_string(),
    }
}

#[test]
fn test_get_blueprints_and_schemas() {
    let package_address = "package_rdx1ph3l366k7kq8mg8pzs5d0c855whtqtxkxnlxf2yzxvlelphztlqn05";
    let blueprints = vec![
        blueprint("Pool", 7, vec![("Deposit", 3), ("Withdraw", 4)], "aa11"),
        blueprint("Oracle", 2, vec![], "bb22"),
    ];
    let schemas = vec![
        Schema { schema: vec![0x5c, 0x21], schema_hash: "bb22".to_string() },
        Schema { schema: vec![0x5c, 0x22, 0x01], schema_hash: "aa11".to_string() },
    ];
    let result = get_blueprints_and_corresponding_schemas(&blueprints, &schemas);
    println!("Blueprints and Schemas of {}: {:#?}", package_address, result);
    let pairs = result.expect("Schema not found");
    assert_eq!(pairs.len(), 2);
    assert_eq!(pairs[0].blueprint.state.name, "Pool");
    assert_eq!(pairs[0].blueprint.state.type_id, 7);
    assert_eq!(pairs[0].blueprint.events.len(), 2);
    assert_eq!(pairs[0].blueprint.events[1].name, "Withdraw");
    assert_eq!(pairs[0].blueprint.events[1].type_id, 4);
    assert_eq!(pairs[0].schema.schema, vec![0x5c, 0x22, 0x01]);
    assert_eq!(pairs[0].schema.schema_hash, "aa11");
    assert_eq!(pairs[1].blueprint.state.name, "Oracle");
    assert_eq!(pairs[1].schema.schema, vec![0x5c, 0x21]);
}

#[test]
fn blueprint_without_schema_gives_nothing() {
    let blueprints = vec![blueprint("Pool", 0, vec![], "aa11"), blueprint("Lost", 0, vec![], "cc33")];
    let schemas = vec![Schema { schema: vec![1], schema_hash: "aa11".to_string() }];
    assert!(get_blueprints_and_corresponding_schemas(&blueprints, &schemas).is_none());
}

#[test]
fn first_schema_with_the_hash_is_taken() {
    let blueprints = vec![blueprint("Pool", 0, vec![], "aa11")];
    let schemas = vec![
        Schema { schema: vec![9], schema_hash: "ff00".to_string() },
        Schema { schema: vec![1], schema_hash: "aa11".to_string() },
        Schema { schema: vec![2], schema_hash: "aa11".to_string() },
    ];
    let pairs = get_blueprints_and_corresponding_schemas(&blueprints, &schemas).unwrap();
    assert_eq!(pairs[0].schema.schema, vec![1]);
}

#[test]
fn no_blueprints_give_no_pairs() {
    let pairs = get_blueprints_and_corresponding_schemas(&Vec::new(), &Vec::new()).unwrap();
    assert!(pairs.is_empty());
}

#[test]
fn schema_from_hex_decodes_both_cases() {
    let schema = Schema::from_hex("5c2102Ff0a", "9f").unwrap();
    assert_eq!(schema.schema, vec![0x5c, 0x21, 0x02, 0xff, 0x0a]);
    assert_eq!(schema.schema_hash, "9f");
}

#[test]
fn schema_from_hex_of_empty_text_is_empty() {
    let schema = Schema::from_hex("", "").unwrap();
    assert!(schema.schema.is_empty());
}

#[test]
fn schema_from_hex_refuses_odd_length() {
    assert!(Schema::from_hex("5c2", "9f").is_none());
}

#[test]
fn schema_from_hex_refuses_other_characters() {
    assert!(Schema::from_hex("5g", "9f").is_none());
    assert!(Schema::from_hex("5 ", "9f").is_none());
    assert!(Schema::from_hex("\u{e9}a", "9f").is_none());
}

#[test]
fn schema_hex_is_lower_case() {
    let schema = Schema { schema: vec![0x00, 0x5c, 0xab, 0xff, 0x10], schema_hash: String::new() };
    assert_eq!(schema.schema_hex(), "005cabff10");
}

#[test]
fn schema_hex_and_from_hex_are_inverse() {
    let schema = Schema { schema: vec![1, 2, 3, 250], schema_hash: "h".to_string() };
    let again = Schema::from_hex(&schema.schema_hex(), "h").unwrap();
    assert_eq!(again.schema, schema.schema);
}

fn reference(hash: Option<&str>, local: Option<Option<u64>>) -> Option<TypeReference> {
    Some(TypeReference { schema_hash: hash.map(|h| h.to_string()), local_type_id: local })
}

#[test]
fn listed_schemas_are_decoded_in_order() {
    let items = vec![
        SchemaItem { schema_hex: "5c21".to_string(), schema_hash_hex: "aa".to_string() },
        SchemaItem { schema_hex: "".to_string(), schema_hash_hex: "bb".to_string() },
    ];
    let schemas = get_schemas(&items).unwrap();
    assert_eq!(schemas.len(), 2);
    assert_eq!(schemas[0].schema, vec![0x5c, 0x21]);
    assert_eq!(schemas[0].schema_hash, "aa");
    assert!(schemas[1].schema.is_empty());
    assert_eq!(schemas[1].schema_hash, "bb");
}

#[test]
fn listed_schema_with_bad_hex_gives_nothing() {
    let items = vec![
        SchemaItem { schema_hex: "5c21".to_string(), schema_hash_hex: "aa".to_string() },
        SchemaItem { schema_hex: "xyz".to_string(), schema_hash_hex: "bb".to_string() },
    ];
    assert!(get_schemas(&items).is_none());
}

#[test]
fn listed_blueprint_becomes_a_definition() {
    let items = vec![BlueprintItem {
        name: Some("Pool".to_string()),
        events: vec![
            EventItem { name: "Deposit".to_string(), type_reference: reference(Some("e1"), Some(Some(3))) },
            EventItem { name: "NoType".to_string(), type_reference: None },
            EventItem { name: "NoLocalId".to_string(), type_reference: reference(Some("e2"), None) },
            EventItem { name: "NoNumber".to_string(), type_reference: reference(None, Some(None)) },
        ],
        state: reference(Some("s1"), Some(Some(7))),
    }];
    let blueprints = get_blueprint_definitions(&items).unwrap();
    assert_eq!(blueprints.len(), 1);
    let blueprint = &blueprints[0];
    assert_eq!(blueprint.schema_hash, "s1");
    assert_eq!(blueprint.state.name, "Pool");
    assert_eq!(blueprint.state.type_id, 7);
    assert_eq!(blueprint.state.schema_hash, "s1");
    assert_eq!(blueprint.events.len(), 2);
    assert_eq!(blueprint.events[0].name, "Deposit");
    assert_eq!(blueprint.events[0].type_id, 3);
    assert_eq!(blueprint.events[0].schema_hash, "e1");
    assert_eq!(blueprint.events[1].name, "NoNumber");
    assert_eq!(blueprint.events[1].type_id, 0);
    assert_eq!(blueprint.events[1].schema_hash, "");
}

#[test]
fn listed_blueprint_without_name_has_the_empty_name() {
    let items = vec![BlueprintItem { name: None, events: vec![], state: reference(None, Some(Some(1))) }];
    let blueprints = get_blueprint_definitions(&items).unwrap();
    assert_eq!(blueprints[0].state.name, "");
    assert_eq!(blueprints[0].schema_hash, "");
}

#[test]
fn type_index_keeps_the_low_32_bits() {
    let items = vec![BlueprintItem {
        name: None,
        events: vec![],
        state: reference(Some("h"), Some(Some(0x1_0000_0005))),
    }];
    assert_eq!(get_blueprint_definitions(&items).unwrap()[0].state.type_id, 5);
}

#[test]
fn listed_blueprint_without_state_type_gives_nothing() {
    let good = || BlueprintItem { name: None, events: vec![], state: reference(Some("h"), Some(Some(1))) };
    let no_state = BlueprintItem { name: Some("A".to_string()), events: vec![], state: None };
    let no_local = BlueprintItem { name: Some("B".to_string()), events: vec![], state: reference(Some("h"), None) };
    assert!(get_blueprint_definitions(&vec![good(), no_state]).is_none());
    assert!(get_blueprint_definitions(&vec![no_local, good()]).is_none());
    assert_eq!(get_blueprint_definitions(&Vec::new()).unwrap().len(), 0);
}

#[test]
fn test_get_schema() {
    let package_address = "package_rdx1pkl8tdw43xqx64etxwdf8rjtvptqurq4c3fky0kaj6vwa0zrkfmcmc";
    let items = vec![SchemaItem {
        schema_hex: "5c2102".to_string(),
        schema_hash_hex: "0011aabb".to_string(),
    }];
    let schema = get_schemas(&items);
    println!("Schema of {}: {:?}", package_address, schema);
    let schema_bytes = schema.unwrap();
    assert_eq!(schema_bytes[0].schema, vec![0x5c, 0x21, 0x02]);
    assert_eq!(schema_bytes[0].schema_hash, "0011aabb");
}

#[test]
fn get_blueprint_names_and_events_test() {
    let package_address = "package_rdx1ph3l366k7kq8mg8pzs5d0c855whtqtxkxnlxf2yzxvlelphztlqn05";
    let items = vec![BlueprintItem {
        name: Some("Pool".to_string()),
        events: vec![EventItem {
            name: "Deposit".to_string(),
            type_reference: reference(Some("aa11"), Some(Some(3))),
        }],
        state: reference(Some("aa11"), Some(Some(7))),
    }];
    let result = get_blueprint_definitions(&items);
    println!("Blueprints of {}: {:#?}", package_address, result);
    let blueprints = result.unwrap();
    assert_eq!(blueprints[0].state.name, "Pool");
    assert_eq!(blueprints[0].events[0].name, "Deposit");
}
