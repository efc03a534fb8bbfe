//! The data of a package as the Radix gateway gives it: the schemas of the
//! package as bytes, and its blueprints with the types of their state and
//! events.

use vstd::prelude::*;

verus! {

/// A schema of a package: its SBOR bytes, and its hash in hexadecimal.
#[derive(Debug)]
pub struct Schema {
    pub schema: Vec<u8>,
    pub schema_hash: String,
}

/// The mathematical value of a [`Schema`].
pub struct SchemaView {
    pub schema: Seq<u8>,
    pub schema_hash: Seq<char>,
}

impl View for Schema {
    type V = SchemaView;

    open spec fn view(&self) -> SchemaView {
        SchemaView { schema: self.schema@, schema_hash: self.schema_hash@ }
    }
}

impl DeepView for Schema {
    type V = SchemaView;

    open spec fn deep_view(&self) -> SchemaView {
        self@
    }
}

/// A type of a blueprint: its name, and its index in the schema with the
/// given hash.
#[derive(Debug)]
pub struct Type {
    pub name: String,
    pub type_id: u32,
    pub schema_hash: String,
}

/// The mathematical value of a [`Type`].
pub struct TypeView {
    pub name: Seq<char>,
    pub type_id: u32,
    pub schema_hash: Seq<char>,
}

impl View for Type {
    type V = TypeView;

    open spec fn view(&self) -> TypeView {
        TypeView { name: self.name@, type_id: self.type_id, schema_hash: self.schema_hash@ }
    }
}

impl DeepView for Type {
    type V = TypeView;

    open spec fn deep_view(&self) -> TypeView {
        self@
    }
}

/// A blueprint: the type of its state, the types of its events, and the hash
/// of the schema that holds them.
#[derive(Debug)]
pub struct BlueprintDefinition {
    pub state: Type,
    pub events: Vec<Type>,
    pub schema_hash: String,
}

/// The mathematical value of a [`BlueprintDefinition`].
pub struct BlueprintDefinitionView {
    pub state: TypeView,
    pub events: Seq<TypeView>,
    pub schema_hash: Seq<char>,
}

impl View for BlueprintDefinition {
    type V = BlueprintDefinitionView;

    open spec fn view(&self) -> BlueprintDefinitionView {
        BlueprintDefinitionView {
            state: self.state@,
            events: self.events.deep_view(),
            schema_hash: self.schema_hash@,
        }
    }
}

impl DeepView for BlueprintDefinition {
    type V = BlueprintDefinitionView;

    open spec fn deep_view(&self) -> BlueprintDefinitionView {
        self@
    }
}

/// A blueprint together with the schema that holds its types.
#[derive(Debug)]
pub struct BlueprintWithSchema {
    pub blueprint: BlueprintDefinition,
    pub schema: Schema,
}

/// The mathematical value of a [`BlueprintWithSchema`].
pub struct BlueprintWithSchemaView {
    pub blueprint: BlueprintDefinitionView,
    pub schema: SchemaView,
}

impl View for BlueprintWithSchema {
    type V = BlueprintWithSchemaView;

    open spec fn view(&self) -> BlueprintWithSchemaView {
        BlueprintWithSchemaView { blueprint: self.blueprint@, schema: self.schema@ }
    }
}

impl DeepView for BlueprintWithSchema {
    type V = BlueprintWithSchemaView;

    open spec fn deep_view(&self) -> BlueprintWithSchemaView {
        self@
    }
}

impl Clone for Schema {
    fn clone(&self) -> (copy: Self)
        ensures
            copy@ == self@,
    {
        let mut bytes: Vec<u8> = Vec::new();
        let mut i: usize = 0;
        while i < self.schema.len()
            invariant
                i <= self.schema.len(),
                bytes@ == self.schema@.take(i as int),
            decreases self.schema.len() - i,
        {
            bytes.push(self.schema[i]);
            i += 1;
            assert(bytes@ =~= self.schema@.take(i as int));
        }
        assert(self.schema@.take(self.schema.len() as int) =~= self.schema@);
        Schema { schema: bytes, schema_hash: self.schema_hash.clone() }
    }
}

impl Clone for Type {
    fn clone(&self) -> (copy: Self)
        ensures
            copy@ == self@,
    {
        Type {
            name: self.name.clone(),
            type_id: self.type_id,
            schema_hash: self.schema_hash.clone(),
        }
    }
}

impl Clone for BlueprintDefinition {
    fn clone(&self) -> (copy: Self)
        ensures
            copy@ == self@,
    {
        let mut events: Vec<Type> = Vec::new();
        let mut i: usize = 0;
        while i < self.events.len()
            invariant
                i <= self.events.len(),
                events@.len() == i,
                forall|j: int| 0 <= j < i ==> (#[trigger] events@[j])@ == self.events@[j]@,
            decreases self.events.len() - i,
        {
            events.push(self.events[i].clone());
            i += 1;
        }
        assert(events.deep_view() =~= self.events.deep_view());
        BlueprintDefinition {
            state: self.state.clone(),
            events,
            schema_hash: self.schema_hash.clone(),
        }
    }
}

impl Clone for BlueprintWithSchema {
    fn clone(&self) -> (copy: Self)
        ensures
            copy@ == self@,
    {
        BlueprintWithSchema { blueprint: self.blueprint.clone(), schema: self.schema.clone() }
    }
}

/// The value of a hexadecimal digit, in either case.
pub open spec fn hex_digit_value(c: char) -> Option<u8> {
    let code = c as u32;
    if 48 <= code <= 57 {
        Some((code - 48) as u8)
    } else if 97 <= code <= 102 {
        Some((code - 87) as u8)
    } else if 65 <= code <= 70 {
        Some((code - 55) as u8)
    } else {
        None
    }
}

/// Whether `text` is hexadecimal notation for bytes: an even number of
/// hexadecimal digits.
pub open spec fn is_hex_text(text: Seq<char>) -> bool {
    &&& text.len() % 2 == 0
    &&& forall|i: int| 0 <= i < text.len() ==> hex_digit_value(#[trigger] text[i]) is Some
}

/// The bytes that `text` is the hexadecimal notation of: a byte from each
/// two digits, the high digit first.
pub open spec fn hex_bytes(text: Seq<char>) -> Seq<u8> {
    Seq::new(
        text.len() / 2,
        |i: int|
            (16 * hex_digit_value(text[2 * i]).unwrap() + hex_digit_value(
                text[2 * i + 1],
            ).unwrap()) as u8,
    )
}

/// The lower-case hexadecimal digit of a value below 16.
pub open spec fn hex_digit(value: int) -> char {
    if value < 10 {
        (48 + value) as char
    } else {
        (87 + value) as char
    }
}

/// The hexadecimal notation of `bytes`: two lower-case digits for each byte,
/// the high digit first.
pub open spec fn hex_text(bytes: Seq<u8>) -> Seq<char> {
    Seq::new(
        2 * bytes.len(),
        |i: int|
            if i % 2 == 0 {
                hex_digit(bytes[i / 2] as int / 16)
            } else {
                hex_digit(bytes[i / 2] as int % 16)
            },
    )
}

/// Hexadecimal notation can be read back: the notation of bytes is
/// hexadecimal text, and the bytes that it is the notation of are the bytes.
pub proof fn law_hex_round_trip(bytes: Seq<u8>)
    ensures
        is_hex_text(hex_text(bytes)),
        hex_bytes(hex_text(bytes)) == bytes,
{
    let text = hex_text(bytes);
    assert forall|i: int| 0 <= i < text.len() implies hex_digit_value(#[trigger] text[i])
        is Some by {
        let value = if i % 2 == 0 {
            bytes[i / 2] as int / 16
        } else {
            bytes[i / 2] as int % 16
        };
        assert(0 <= value < 16);
        assert(text[i] == hex_digit(value));
    }
    assert forall|k: int| 0 <= k < bytes.len() implies #[trigger] hex_bytes(text)[k]
        == bytes[k] by {
        let high = bytes[k] as int / 16;
        let low = bytes[k] as int % 16;
        assert(text[2 * k] == hex_digit(high));
        assert(text[2 * k + 1] == hex_digit(low));
        assert(hex_digit_value(hex_digit(high)) == Some(high as u8));
        assert(hex_digit_value(hex_digit(low)) == Some(low as u8));
    }
    assert(hex_bytes(text) =~= bytes);
}

/// `hex::decode` on a string: the bytes that the string is the hexadecimal
/// notation of, and nothing where it has an odd length or holds anything but
/// hexadecimal digits.
#[verifier::external_body]
fn hex_decode(text: &str) -> (bytes: Option<Vec<u8>>)
    ensures
        bytes is Some <==> is_hex_text(text@),
        bytes matches Some(bytes) ==> bytes@ == hex_bytes(text@),
{
    hex::decode(text).ok()
}

/// `hex::encode` on bytes: their notation in lower-case hexadecimal digits.
#[verifier::external_body]
fn hex_encode(bytes: &Vec<u8>) -> (text: String)
    ensures
        text@ == hex_text(bytes@),
{
    hex::encode(bytes)
}

impl Schema {
    /// The schema with the bytes that `schema_hex` is the hexadecimal
    /// notation of, and with the hash `schema_hash_hex` as it is. Nothing
    /// where `schema_hex` is no hexadecimal notation.
    pub fn from_hex(schema_hex: &str, schema_hash_hex: &str) -> (schema: Option<Schema>)
        ensures
            schema is Some <==> is_hex_text(schema_hex@),
            schema matches Some(schema) ==> schema@ == (SchemaView {
                schema: hex_bytes(schema_hex@),
                schema_hash: schema_hash_hex@,
            }),
    {
        match hex_decode(schema_hex) {
            Some(bytes) => Some(
                Schema { schema: bytes, schema_hash: String::from_str(schema_hash_hex) },
            ),
            None => None,
        }
    }

    /// The bytes of the schema in hexadecimal notation.
    pub fn schema_hex(&self) -> (text: String)
        ensures
            text@ == hex_text(self@.schema),
    {
        hex_encode(&self.schema)
    }
}

/// Whether `i` is the index of the first of `schemas` with the hash `hash`.
pub open spec fn is_first_with_hash(schemas: Seq<SchemaView>, hash: Seq<char>, i: int) -> bool {
    &&& 0 <= i < schemas.len()
    &&& schemas[i].schema_hash == hash
    &&& forall|j: int| 0 <= j < i ==> (#[trigger] schemas[j]).schema_hash != hash
}

/// Whether one of `schemas` has the hash `hash`.
pub open spec fn has_schema(schemas: Seq<SchemaView>, hash: Seq<char>) -> bool {
    exists|i: int| 0 <= i < schemas.len() && (#[trigger] schemas[i]).schema_hash == hash
}

/// The first of `schemas` that has the hash `hash`.
fn find_schema<'a>(schemas: &'a Vec<Schema>, hash: &String) -> (found: Option<&'a Schema>)
    ensures
        found is Some <==> has_schema(schemas.deep_view(), hash@),
        found matches Some(schema) ==> exists|i: int|
            is_first_with_hash(schemas.deep_view(), hash@, i) && schemas.deep_view()[i]
                == schema@,
{
    let mut i: usize = 0;
    while i < schemas.len()
        invariant
            i <= schemas.len(),
            forall|j: int| 0 <= j < i ==> (#[trigger] schemas.deep_view()[j]).schema_hash != hash@,
        decreases schemas.len() - i,
    {
        if schemas[i].schema_hash == *hash {
            assert(is_first_with_hash(schemas.deep_view(), hash@, i as int));
            return Some(&schemas[i]);
        }
        i += 1;
    }
    None
}

/// Attaches to each blueprint the schema that holds its types: the first of
/// `schemas` whose hash is the schema hash of the blueprint. The blueprints
/// keep their order. Nothing where a blueprint has no such schema.
pub fn get_blueprints_and_corresponding_schemas(
    blueprints: &Vec<BlueprintDefinition>,
    schemas: &Vec<Schema>,
) -> (result: Option<Vec<BlueprintWithSchema>>)
    ensures
        result is Some <==> forall|k: int|
            0 <= k < blueprints@.len() ==> has_schema(
                schemas.deep_view(),
                (#[trigger] blueprints.deep_view()[k]).schema_hash,
            ),
        result matches Some(pairs) ==> {
            &&& pairs@.len() == blueprints@.len()
            &&& forall|k: int|
                0 <= k < pairs@.len() ==> {
                    &&& (#[trigger] pairs.deep_view()[k]).blueprint == blueprints.deep_view()[k]
                    &&& exists|i: int|
                        is_first_with_hash(
                            schemas.deep_view(),
                            blueprints.deep_view()[k].schema_hash,
                            i,
                        ) && schemas.deep_view()[i] == pairs.deep_view()[k].schema
                }
        },
{
    let mut pairs: Vec<BlueprintWithSchema> = Vec::new();
    let mut k: usize = 0;
    while k < blueprints.len()
        invariant
            k <= blueprints.len(),
            pairs@.len() == k,
            forall|j: int|
                0 <= j < k ==> has_schema(
                    schemas.deep_view(),
                    (#[trigger] blueprints.deep_view()[j]).schema_hash,
                ),
            forall|j: int|
                0 <= j < k ==> {
                    &&& (#[trigger] pairs.deep_view()[j]).blueprint == blueprints.deep_view()[j]
                    &&& exists|i: int|
                        is_first_with_hash(
                            schemas.deep_view(),
                            blueprints.deep_view()[j].schema_hash,
                            i,
                        ) && schemas.deep_view()[i] == pairs.deep_view()[j].schema
                },
        decreases blueprints.len() - k,
    {
        let blueprint = &blueprints[k];
        match find_schema(schemas, &blueprint.schema_hash) {
            None => {
                assert(!has_schema(
                    schemas.deep_view(),
                    blueprints.deep_view()[k as int].schema_hash,
                ));
                return None;
            },
            Some(schema) => {
                let ghost before = pairs.deep_view();
                let pair = BlueprintWithSchema {
                    blueprint: blueprint.clone(),
                    schema: schema.clone(),
                };
                pairs.push(pair);
                assert(pairs.deep_view() =~= before.push(pair@));
            },
        }
        k += 1;
    }
    Some(pairs)
}


/// A schema as the gateway lists it: its bytes and its hash, both in
/// hexadecimal notation.
#[derive(Debug)]
pub struct SchemaItem {
    pub schema_hex: String,
    pub schema_hash_hex: String,
}

/// The mathematical value of a [`SchemaItem`].
pub struct SchemaItemView {
    pub schema_hex: Seq<char>,
    pub schema_hash_hex: Seq<char>,
}

impl View for SchemaItem {
    type V = SchemaItemView;

    open spec fn view(&self) -> SchemaItemView {
        SchemaItemView { schema_hex: self.schema_hex@, schema_hash_hex: self.schema_hash_hex@ }
    }
}

impl DeepView for SchemaItem {
    type V = SchemaItemView;

    open spec fn deep_view(&self) -> SchemaItemView {
        self@
    }
}

/// The schema that a listed schema stands for.
pub open spec fn schema_of_item(item: SchemaItemView) -> SchemaView {
    SchemaView { schema: hex_bytes(item.schema_hex), schema_hash: item.schema_hash_hex }
}

/// The schemas that the gateway lists, with their bytes decoded. Nothing
/// where the bytes of one of them are not in hexadecimal notation.
pub fn get_schemas(items: &Vec<SchemaItem>) -> (result: Option<Vec<Schema>>)
    ensures
        result is Some <==> forall|k: int|
            0 <= k < items@.len() ==> is_hex_text((#[trigger] items.deep_view()[k]).schema_hex),
        result matches Some(schemas) ==> {
            &&& schemas@.len() == items@.len()
            &&& forall|k: int|
                0 <= k < schemas@.len() ==> (#[trigger] schemas.deep_view()[k]) == schema_of_item(
                    items.deep_view()[k],
                )
        },
{
    let mut schemas: Vec<Schema> = Vec::new();
    let mut k: usize = 0;
    while k < items.len()
        invariant
            k <= items.len(),
            schemas@.len() == k,
            forall|j: int|
                0 <= j < k ==> is_hex_text((#[trigger] items.deep_view()[j]).schema_hex),
            forall|j: int|
                0 <= j < k ==> (#[trigger] schemas.deep_view()[j]) == schema_of_item(
                    items.deep_view()[j],
                ),
        decreases items.len() - k,
    {
        let item = &items[k];
        assert(items.deep_view()[k as int] == item@);
        match Schema::from_hex(item.schema_hex.as_str(), item.schema_hash_hex.as_str()) {
            None => {
                return None;
            },
            Some(schema) => {
                let ghost before = schemas.deep_view();
                let ghost added = schema@;
                schemas.push(schema);
                assert(schemas.deep_view() =~= before.push(added));
            },
        }
        k += 1;
    }
    Some(schemas)
}

/// A reference to a type as the gateway gives it: the hash of a schema, and
/// the local type id, which may be there without a number in it.
#[derive(Debug)]
pub struct TypeReference {
    pub schema_hash: Option<String>,
    pub local_type_id: Option<Option<u64>>,
}

/// The mathematical value of a [`TypeReference`].
pub struct TypeReferenceView {
    pub schema_hash: Option<Seq<char>>,
    pub local_type_id: Option<Option<u64>>,
}

impl View for TypeReference {
    type V = TypeReferenceView;

    open spec fn view(&self) -> TypeReferenceView {
        TypeReferenceView {
            schema_hash: self.schema_hash.deep_view(),
            local_type_id: self.local_type_id,
        }
    }
}

/// An event of a blueprint as the gateway gives it: its name, and the
/// reference to its type where there is one.
#[derive(Debug)]
pub struct EventItem {
    pub name: String,
    pub type_reference: Option<TypeReference>,
}

/// The mathematical value of an [`EventItem`].
pub struct EventItemView {
    pub name: Seq<char>,
    pub type_reference: Option<TypeReferenceView>,
}

impl View for EventItem {
    type V = EventItemView;

    open spec fn view(&self) -> EventItemView {
        EventItemView {
            name: self.name@,
            type_reference: match self.type_reference {
                Some(reference) => Some(reference@),
                None => None,
            },
        }
    }
}

impl DeepView for EventItem {
    type V = EventItemView;

    open spec fn deep_view(&self) -> EventItemView {
        self@
    }
}

/// A blueprint as the gateway gives it: its name, its events, and the
/// reference to the type of its state, each as far as it is there.
#[derive(Debug)]
pub struct BlueprintItem {
    pub name: Option<String>,
    pub events: Vec<EventItem>,
    pub state: Option<TypeReference>,
}

/// The mathematical value of a [`BlueprintItem`].
pub struct BlueprintItemView {
    pub name: Option<Seq<char>>,
    pub events: Seq<EventItemView>,
    pub state: Option<TypeReferenceView>,
}

impl View for BlueprintItem {
    type V = BlueprintItemView;

    open spec fn view(&self) -> BlueprintItemView {
        BlueprintItemView {
            name: self.name.deep_view(),
            events: self.events.deep_view(),
            state: match self.state {
                Some(reference) => Some(reference@),
                None => None,
            },
        }
    }
}

impl DeepView for BlueprintItem {
    type V = BlueprintItemView;

    open spec fn deep_view(&self) -> BlueprintItemView {
        self@
    }
}

/// The text, or the empty text where there is none.
pub open spec fn text_or_empty(text: Option<Seq<char>>) -> Seq<char> {
    match text {
        Some(text) => text,
        None => Seq::empty(),
    }
}

/// The schema hash and the type index that a reference gives: nothing
/// without a local type id; else the hash, or the empty text where it is
/// missing, and the low 32 bits of the number, or 0 where it is missing.
pub open spec fn resolved_reference(reference: Option<TypeReferenceView>) -> Option<
    (Seq<char>, u32),
> {
    match reference {
        Some(reference) => match reference.local_type_id {
            Some(id) => Some(
                (
                    text_or_empty(reference.schema_hash),
                    (match id {
                        Some(id) => id,
                        None => 0,
                    }) as u32,
                ),
            ),
            None => None,
        },
        None => None,
    }
}

/// `acc`, followed by the types of the events `events[k..]` that have a
/// reference with a local type id, in their order.
pub open spec fn event_types(events: Seq<EventItemView>, k: nat, acc: Seq<TypeView>) -> Seq<
    TypeView,
>
    decreases events.len() - k,
{
    if k >= events.len() {
        acc
    } else {
        match resolved_reference(events[k as int].type_reference) {
            Some((schema_hash, type_id)) => event_types(
                events,
                k + 1,
                acc.push(TypeView { name: events[k as int].name, type_id, schema_hash }),
            ),
            None => event_types(events, k + 1, acc),
        }
    }
}

/// The blueprint that a listed blueprint stands for: nothing where the
/// reference to the type of its state is missing or has no local type id.
/// The state has the name of the blueprint, and the blueprint the schema
/// hash of its state.
pub open spec fn blueprint_of_item(item: BlueprintItemView) -> Option<BlueprintDefinitionView> {
    match resolved_reference(item.state) {
        Some((schema_hash, type_id)) => Some(
            BlueprintDefinitionView {
                state: TypeView { name: text_or_empty(item.name), type_id, schema_hash },
                events: event_types(item.events, 0, Seq::empty()),
                schema_hash,
            },
        ),
        None => None,
    }
}

/// A copy of the text, or the empty text where there is none.
fn clone_or_empty(text: &Option<String>) -> (copy: String)
    ensures
        copy@ == text_or_empty(text.deep_view()),
{
    match text {
        Some(text) => text.clone(),
        None => String::new(),
    }
}

/// The schema hash and the type index that a reference gives.
fn resolve_reference(reference: &Option<TypeReference>) -> (resolved: Option<(String, u32)>)
    ensures
        resolved.deep_view() == resolved_reference(
            match reference {
                Some(reference) => Some(reference@),
                None => None,
            },
        ),
{
    match reference {
        Some(reference) => match reference.local_type_id {
            Some(id) => {
                let number: u64 = match id {
                    Some(id) => id,
                    None => 0,
                };
                Some((clone_or_empty(&reference.schema_hash), #[verifier::truncate] (number as u32)))
            },
            None => None,
        },
        None => None,
    }
}

/// The types of the events that have a reference with a local type id.
fn collect_event_types(events: &Vec<EventItem>) -> (types: Vec<Type>)
    ensures
        types.deep_view() == event_types(events.deep_view(), 0, Seq::empty()),
{
    let mut types: Vec<Type> = Vec::new();
    let mut k: usize = 0;
    assert(types.deep_view() =~= Seq::<TypeView>::empty());
    while k < events.len()
        invariant
            k <= events.len(),
            event_types(events.deep_view(), 0, Seq::empty()) == event_types(
                events.deep_view(),
                k as nat,
                types.deep_view(),
            ),
        decreases events.len() - k,
    {
        let event = &events[k];
        assert(events.deep_view()[k as int] == event@);
        assert(events.deep_view().len() == events@.len());
        match resolve_reference(&event.type_reference) {
            Some((schema_hash, type_id)) => {
                let ghost before = types.deep_view();
                let added = Type { name: event.name.clone(), type_id, schema_hash };
                let ghost added_view = added@;
                types.push(added);
                assert(types.deep_view() =~= before.push(added_view));
            },
            None => {},
        }
        k += 1;
    }
    types
}

/// The blueprints that the gateway lists, in their order. Nothing where one
/// of them lacks the type of its state.
pub fn get_blueprint_definitions(items: &Vec<BlueprintItem>) -> (result: Option<
    Vec<BlueprintDefinition>,
>)
    ensures
        result is Some <==> forall|k: int|
            0 <= k < items@.len() ==> blueprint_of_item(#[trigger] items.deep_view()[k]) is Some,
        result matches Some(blueprints) ==> {
            &&& blueprints@.len() == items@.len()
            &&& forall|k: int|
                0 <= k < blueprints@.len() ==> Some(#[trigger] blueprints.deep_view()[k])
                    == blueprint_of_item(items.deep_view()[k])
        },
{
    let mut blueprints: Vec<BlueprintDefinition> = Vec::new();
    let mut k: usize = 0;
    while k < items.len()
        invariant
            k <= items.len(),
            blueprints@.len() == k,
            forall|j: int|
                0 <= j < k ==> blueprint_of_item(#[trigger] items.deep_view()[j]) is Some,
            forall|j: int|
                0 <= j < k ==> Some(#[trigger] blueprints.deep_view()[j]) == blueprint_of_item(
                    items.deep_view()[j],
                ),
        decreases items.len() - k,
    {
        let item = &items[k];
        assert(items.deep_view()[k as int] == item@);
        match resolve_reference(&item.state) {
            None => {
                return None;
            },
            Some((schema_hash, type_id)) => {
                let ghost before = blueprints.deep_view();
                let blueprint = BlueprintDefinition {
                    state: Type {
                        name: clone_or_empty(&item.name),
                        type_id,
                        schema_hash: schema_hash.clone(),
                    },
                    events: collect_event_types(&item.events),
                    schema_hash,
                };
                let ghost added = blueprint@;
                blueprints.push(blueprint);
                assert(blueprints.deep_view() =~= before.push(added));
            },
        }
        k += 1;
    }
    Some(blueprints)
}

} // verus!
