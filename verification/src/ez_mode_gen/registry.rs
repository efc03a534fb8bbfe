//! The registry of schema entries and the entries themselves.

use crate::text::{decimal, push_decimal};
use vstd::prelude::*;

verus! {

/// The fingerprint of a type: the sole identity by which the registry tells
/// types apart.
#[derive(Debug)]
pub struct TypeHash(pub String);

impl View for TypeHash {
    type V = Seq<char>;

    open spec fn view(&self) -> Seq<char> {
        self.0@
    }
}

/// The `sbor-ez-mode` schema constructors. Composite kinds hold the registry
/// indices of their parts.
#[derive(Debug)]
#[allow(inconsistent_fields)]
pub enum SborEzModeSchemaKind {
    Struct { fields: Vec<(String, u32)> },
    Tuple { fields: Vec<u32> },
    Array { element_type: u32 },
    Mapping { key_type: u32, value_type: u32 },
    Enum { variants: Vec<(String, u32)> },
    Option { inner_types: Vec<u32> },
    Decimal,
    Address,
    InternalAddress,
    Number,
    String,
    Bool,
    Instant,
    NonFungibleLocalId,
    Value,
}

/// The mathematical value of a [`SborEzModeSchemaKind`].
#[allow(inconsistent_fields)]
pub enum KindView {
    Struct { fields: Seq<(Seq<char>, u32)> },
    Tuple { fields: Seq<u32> },
    Array { element_type: u32 },
    Mapping { key_type: u32, value_type: u32 },
    Enum { variants: Seq<(Seq<char>, u32)> },
    Option { inner_types: Seq<u32> },
    Decimal,
    Address,
    InternalAddress,
    Number,
    String,
    Bool,
    Instant,
    NonFungibleLocalId,
    Value,
}

impl View for SborEzModeSchemaKind {
    type V = KindView;

    open spec fn view(&self) -> KindView {
        match self {
            SborEzModeSchemaKind::Struct { fields } => KindView::Struct {
                fields: fields.deep_view(),
            },
            SborEzModeSchemaKind::Tuple { fields } => KindView::Tuple { fields: fields@ },
            SborEzModeSchemaKind::Array { element_type } => KindView::Array {
                element_type: *element_type,
            },
            SborEzModeSchemaKind::Mapping { key_type, value_type } => KindView::Mapping {
                key_type: *key_type,
                value_type: *value_type,
            },
            SborEzModeSchemaKind::Enum { variants } => KindView::Enum {
                variants: variants.deep_view(),
            },
            SborEzModeSchemaKind::Option { inner_types } => KindView::Option {
                inner_types: inner_types@,
            },
            SborEzModeSchemaKind::Decimal => KindView::Decimal,
            SborEzModeSchemaKind::Address => KindView::Address,
            SborEzModeSchemaKind::InternalAddress => KindView::InternalAddress,
            SborEzModeSchemaKind::Number => KindView::Number,
            SborEzModeSchemaKind::String => KindView::String,
            SborEzModeSchemaKind::Bool => KindView::Bool,
            SborEzModeSchemaKind::Instant => KindView::Instant,
            SborEzModeSchemaKind::NonFungibleLocalId => KindView::NonFungibleLocalId,
            SborEzModeSchemaKind::Value => KindView::Value,
        }
    }
}

/// One type of the registry.
#[derive(Debug)]
pub struct RegistryEntry {
    /// The fingerprint by which the type is recognised.
    pub type_hash: TypeHash,
    /// The name the type was declared with, if any.
    pub name: Option<String>,
    /// The schema constructor the type maps to.
    pub schema_kind: SborEzModeSchemaKind,
    /// The registry indices of the entries that must be declared before this
    /// one. The list is read as a set.
    pub dependencies: Vec<u32>,
}

/// The mathematical value of a [`RegistryEntry`].
pub struct EntryView {
    pub type_hash: Seq<char>,
    pub name: Option<Seq<char>>,
    pub schema_kind: KindView,
    pub dependencies: Seq<u32>,
}

impl View for RegistryEntry {
    type V = EntryView;

    open spec fn view(&self) -> EntryView {
        EntryView {
            type_hash: self.type_hash@,
            name: self.name.deep_view(),
            schema_kind: self.schema_kind@,
            dependencies: self.dependencies@,
        }
    }
}

/// The registry: the entries in the order in which they were registered. An
/// entry's index is its position.
#[derive(Debug)]
pub struct SchemaRegistry {
    pub entries: Vec<RegistryEntry>,
}

impl View for SchemaRegistry {
    type V = Seq<EntryView>;

    open spec fn view(&self) -> Seq<EntryView> {
        Seq::new(self.entries@.len(), |i: int| self.entries@[i]@)
    }
}

/// Whether an entry of this kind, with or without a declared name, is written
/// out at each place of use rather than declared once.
pub open spec fn spec_is_inline(entry: EntryView) -> bool {
    match entry.schema_kind {
        KindView::Struct { .. } => false,
        KindView::Enum { .. } => false,
        KindView::Tuple { .. } => entry.name is None,
        _ => true,
    }
}

/// Whether `entry` is rendered inline: every leaf, array, option and map is,
/// and so is a tuple without a name.
pub fn is_inline(entry: &RegistryEntry) -> (inline: bool)
    ensures
        inline == spec_is_inline(entry@),
{
    match entry.schema_kind {
        SborEzModeSchemaKind::Address
        | SborEzModeSchemaKind::InternalAddress
        | SborEzModeSchemaKind::Number
        | SborEzModeSchemaKind::String
        | SborEzModeSchemaKind::Bool
        | SborEzModeSchemaKind::Decimal
        | SborEzModeSchemaKind::NonFungibleLocalId
        | SborEzModeSchemaKind::Array { .. }
        | SborEzModeSchemaKind::Option { .. }
        | SborEzModeSchemaKind::Value
        | SborEzModeSchemaKind::Instant
        | SborEzModeSchemaKind::Mapping { .. } => true,
        SborEzModeSchemaKind::Tuple { .. } => entry.name.is_none(),
        _ => false,
    }
}

impl SchemaRegistry {
    /// A registry without entries.
    pub fn new() -> (registry: Self)
        ensures
            registry@ == Seq::<EntryView>::empty(),
            keys_are_unique(registry@),
    {
        let registry = Self { entries: Vec::new() };
        assert(registry@ =~= Seq::<EntryView>::empty());
        registry
    }
}


/// A copy of a list of indices.
fn clone_indices(indices: &Vec<u32>) -> (copy: Vec<u32>)
    ensures
        copy@ == indices@,
{
    let mut copy: Vec<u32> = Vec::new();
    let mut i: usize = 0;
    while i < indices.len()
        invariant
            i <= indices.len(),
            copy@ == indices@.take(i as int),
        decreases indices.len() - i,
    {
        copy.push(indices[i]);
        i += 1;
        assert(copy@ =~= indices@.take(i as int));
    }
    assert(indices@.take(indices.len() as int) =~= indices@);
    copy
}

/// A copy of a list of names, each with an index.
fn clone_named_indices(items: &Vec<(String, u32)>) -> (copy: Vec<(String, u32)>)
    ensures
        copy.deep_view() == items.deep_view(),
{
    let mut copy: Vec<(String, u32)> = Vec::new();
    let mut i: usize = 0;
    while i < items.len()
        invariant
            i <= items.len(),
            copy@.len() == i,
            forall|j: int| 0 <= j < i ==> (#[trigger] copy@[j]).0@ == items@[j].0@ && copy@[j].1 == items@[j].1,
        decreases items.len() - i,
    {
        let name = items[i].0.clone();
        copy.push((name, items[i].1));
        i += 1;
    }
    assert(copy.deep_view() =~= items.deep_view());
    copy
}

impl PartialEq for TypeHash {
    fn eq(&self, other: &Self) -> (equal: bool) {
        self.0 == other.0
    }
}

impl Eq for TypeHash {

}

impl vstd::std_specs::cmp::PartialEqSpecImpl for TypeHash {
    open spec fn obeys_eq_spec() -> bool {
        true
    }

    open spec fn eq_spec(&self, other: &Self) -> bool {
        self@ == other@
    }
}

/// Entries are equal where their fingerprints are.
impl PartialEq for RegistryEntry {
    fn eq(&self, other: &Self) -> (equal: bool) {
        self.type_hash.0 == other.type_hash.0
    }
}

impl Eq for RegistryEntry {

}

impl vstd::std_specs::cmp::PartialEqSpecImpl for RegistryEntry {
    open spec fn obeys_eq_spec() -> bool {
        true
    }

    open spec fn eq_spec(&self, other: &Self) -> bool {
        self@.type_hash == other@.type_hash
    }
}

impl Default for SchemaRegistry {
    fn default() -> (registry: Self)
        ensures
            registry@ == Seq::<EntryView>::empty(),
    {
        SchemaRegistry::new()
    }
}

impl Clone for TypeHash {
    fn clone(&self) -> (copy: Self)
        ensures
            copy@ == self@,
    {
        TypeHash(self.0.clone())
    }
}

impl Clone for SborEzModeSchemaKind {
    fn clone(&self) -> (copy: Self)
        ensures
            copy@ == self@,
    {
        match self {
            SborEzModeSchemaKind::Struct { fields } => SborEzModeSchemaKind::Struct {
                fields: clone_named_indices(fields),
            },
            SborEzModeSchemaKind::Tuple { fields } => SborEzModeSchemaKind::Tuple {
                fields: clone_indices(fields),
            },
            SborEzModeSchemaKind::Array { element_type } => SborEzModeSchemaKind::Array {
                element_type: *element_type,
            },
            SborEzModeSchemaKind::Mapping { key_type, value_type } => {
                SborEzModeSchemaKind::Mapping { key_type: *key_type, value_type: *value_type }
            },
            SborEzModeSchemaKind::Enum { variants } => SborEzModeSchemaKind::Enum {
                variants: clone_named_indices(variants),
            },
            SborEzModeSchemaKind::Option { inner_types } => SborEzModeSchemaKind::Option {
                inner_types: clone_indices(inner_types),
            },
            SborEzModeSchemaKind::Decimal => SborEzModeSchemaKind::Decimal,
            SborEzModeSchemaKind::Address => SborEzModeSchemaKind::Address,
            SborEzModeSchemaKind::InternalAddress => SborEzModeSchemaKind::InternalAddress,
            SborEzModeSchemaKind::Number => SborEzModeSchemaKind::Number,
            SborEzModeSchemaKind::String => SborEzModeSchemaKind::String,
            SborEzModeSchemaKind::Bool => SborEzModeSchemaKind::Bool,
            SborEzModeSchemaKind::Instant => SborEzModeSchemaKind::Instant,
            SborEzModeSchemaKind::NonFungibleLocalId => SborEzModeSchemaKind::NonFungibleLocalId,
            SborEzModeSchemaKind::Value => SborEzModeSchemaKind::Value,
        }
    }
}

impl Clone for RegistryEntry {
    fn clone(&self) -> (copy: Self)
        ensures
            copy@ == self@,
    {
        let name = match &self.name {
            Some(name) => Some(name.clone()),
            None => None,
        };
        RegistryEntry {
            type_hash: self.type_hash.clone(),
            name,
            schema_kind: self.schema_kind.clone(),
            dependencies: clone_indices(&self.dependencies),
        }
    }
}

/// Whether some entry of `reg` has the fingerprint `key`.
pub open spec fn has_key(reg: Seq<EntryView>, key: Seq<char>) -> bool {
    exists|i: int| 0 <= i < reg.len() && (#[trigger] reg[i]).type_hash == key
}

/// Whether `i` is the index of the first entry of `reg` that has the
/// fingerprint `key`.
pub open spec fn is_first_with_key(reg: Seq<EntryView>, key: Seq<char>, i: int) -> bool {
    &&& 0 <= i < reg.len()
    &&& reg[i].type_hash == key
    &&& forall|j: int| 0 <= j < i ==> (#[trigger] reg[j]).type_hash != key
}

/// The index of the first entry of `reg` that has the fingerprint `key`.
pub open spec fn position_of(reg: Seq<EntryView>, key: Seq<char>) -> Option<int> {
    if exists|i: int| is_first_with_key(reg, key, i) {
        Some(choose|i: int| is_first_with_key(reg, key, i))
    } else {
        None
    }
}

/// The first entry with a given fingerprint is the only one that is first.
pub proof fn lemma_first_with_key_is_position(reg: Seq<EntryView>, key: Seq<char>, i: int)
    requires
        is_first_with_key(reg, key, i),
    ensures
        position_of(reg, key) == Some(i),
{
    let c = choose|c: int| is_first_with_key(reg, key, c);
    if c < i {
        assert(reg[c].type_hash != key);
    }
    if i < c {
        assert(reg[i].type_hash != key);
    }
}

/// A fingerprint that no entry has is found at no position.
pub proof fn lemma_absent_key_has_no_position(reg: Seq<EntryView>, key: Seq<char>)
    requires
        forall|j: int| 0 <= j < reg.len() ==> (#[trigger] reg[j]).type_hash != key,
    ensures
        position_of(reg, key) is None,
        !has_key(reg, key),
{
}

/// Where a fingerprint has a position, an entry has it, and conversely.
pub proof fn lemma_position_of_present_key(reg: Seq<EntryView>, key: Seq<char>)
    ensures
        has_key(reg, key) <==> position_of(reg, key) is Some,
        position_of(reg, key) matches Some(i) ==> is_first_with_key(reg, key, i),
{
    if has_key(reg, key) {
        let w = choose|i: int| 0 <= i < reg.len() && (#[trigger] reg[i]).type_hash == key;
        let f = lemma_first_with_key_exists(reg, key, w);
        lemma_first_with_key_is_position(reg, key, f);
    }
    if position_of(reg, key) is Some {
        let c = choose|c: int| is_first_with_key(reg, key, c);
        assert(reg[c].type_hash == key);
    }
}

/// Below any entry with the fingerprint `key` stands a first one.
pub proof fn lemma_first_with_key_exists(reg: Seq<EntryView>, key: Seq<char>, w: int) -> (f: int)
    requires
        0 <= w < reg.len(),
        reg[w].type_hash == key,
    ensures
        is_first_with_key(reg, key, f),
        f <= w,
    decreases w,
{
    if exists|j: int| 0 <= j < w && (#[trigger] reg[j]).type_hash == key {
        let j = choose|j: int| 0 <= j < w && (#[trigger] reg[j]).type_hash == key;
        lemma_first_with_key_exists(reg, key, j)
    } else {
        w
    }
}

/// Whether no two entries have the same fingerprint.
pub open spec fn keys_are_unique(reg: Seq<EntryView>) -> bool {
    forall|i: int, j: int|
        0 <= i < reg.len() && 0 <= j < reg.len() && (#[trigger] reg[i]).type_hash == (
        #[trigger] reg[j]).type_hash ==> i == j
}

/// Whether at most one entry of `reg` was declared with the name `name`.
pub open spec fn name_is_unique(reg: Seq<EntryView>, name: Seq<char>) -> bool {
    forall|i: int, j: int|
        0 <= i < reg.len() && 0 <= j < reg.len() && (#[trigger] reg[i]).name == Some(name) && (
        #[trigger] reg[j]).name == Some(name) ==> i == j
}

/// The position by which `entry` is told apart: that of the first entry of
/// `reg` with its fingerprint, and 0 where there is none.
pub open spec fn entry_position(reg: Seq<EntryView>, entry: EntryView) -> nat {
    match position_of(reg, entry.type_hash) {
        Some(i) => i as nat,
        None => 0,
    }
}

/// The name under which `entry` is declared and referred to: its own name
/// where no other entry has it, else its name, an underscore and its position;
/// `Type` and its position where it has no name.
pub open spec fn display_name(reg: Seq<EntryView>, entry: EntryView) -> Seq<char> {
    match entry.name {
        Some(name) => if name_is_unique(reg, name) {
            name
        } else {
            name + "_"@ + decimal(entry_position(reg, entry))
        },
        None => "Type"@ + decimal(entry_position(reg, entry)),
    }
}

/// What registering `entry` makes of `reg`, and the index it gives: an entry
/// with the same fingerprint is reused, else `entry` is appended.
pub open spec fn registered(reg: Seq<EntryView>, entry: EntryView) -> (Seq<EntryView>, int) {
    match position_of(reg, entry.type_hash) {
        Some(i) => (reg, i),
        None => (reg.push(entry), reg.len() as int),
    }
}

/// After an entry was registered, its fingerprint is found at the index that
/// registering gave.
pub proof fn lemma_registered_is_found(reg: Seq<EntryView>, entry: EntryView)
    ensures
        position_of(registered(reg, entry).0, entry.type_hash) == Some(registered(reg, entry).1),
{
    lemma_position_of_present_key(reg, entry.type_hash);
    if position_of(reg, entry.type_hash) is None {
        let grown = reg.push(entry);
        assert(is_first_with_key(grown, entry.type_hash, reg.len() as int)) by {
            assert forall|j: int| 0 <= j < reg.len() implies (#[trigger] grown[j]).type_hash
                != entry.type_hash by {
                assert(grown[j] == reg[j]);
                if reg[j].type_hash == entry.type_hash {
                    assert(has_key(reg, entry.type_hash));
                }
            }
        }
        lemma_first_with_key_is_position(grown, entry.type_hash, reg.len() as int);
    }
}

/// Registering keeps the fingerprints unique.
pub proof fn lemma_register_keeps_keys_unique(reg: Seq<EntryView>, entry: EntryView)
    requires
        keys_are_unique(reg),
    ensures
        keys_are_unique(registered(reg, entry).0),
{
    lemma_position_of_present_key(reg, entry.type_hash);
    if position_of(reg, entry.type_hash) is None {
        let grown = reg.push(entry);
        assert forall|i: int, j: int|
            0 <= i < grown.len() && 0 <= j < grown.len() && (#[trigger] grown[i]).type_hash == (
            #[trigger] grown[j]).type_hash implies i == j by {
            if i < reg.len() {
                assert(grown[i] == reg[i]);
            }
            if j < reg.len() {
                assert(grown[j] == reg[j]);
            }
            if i < reg.len() && j == reg.len() {
                assert(has_key(reg, entry.type_hash));
            }
            if j < reg.len() && i == reg.len() {
                assert(has_key(reg, entry.type_hash));
            }
        }
    }
}

impl SchemaRegistry {
    /// The index of the first entry with the fingerprint `key`.
    pub fn position(&self, key: &TypeHash) -> (found: Option<usize>)
        ensures
            found is Some <==> has_key(self@, key@),
            match found {
                Some(i) => position_of(self@, key@) == Some(i as int),
                None => position_of(self@, key@) is None,
            },
    {
        let mut i: usize = 0;
        while i < self.entries.len()
            invariant
                i <= self.entries.len(),
                forall|j: int| 0 <= j < i ==> (#[trigger] self@[j]).type_hash != key@,
            decreases self.entries.len() - i,
        {
            if self.entries[i].type_hash.0 == key.0 {
                proof {
                    assert(self@[i as int].type_hash == key@);
                    lemma_first_with_key_is_position(self@, key@, i as int);
                }
                return Some(i);
            }
            i += 1;
        }
        proof {
            lemma_absent_key_has_no_position(self@, key@);
        }
        None
    }

    /// Whether at most one entry was declared with the name `name`.
    pub fn is_type_name_unique(&self, name: &str) -> (unique: bool)
        ensures
            unique == name_is_unique(self@, name@),
    {
        let wanted = String::from_str(name);
        let mut seen: bool = false;
        let ghost mut first: int = 0;
        let mut i: usize = 0;
        while i < self.entries.len()
            invariant
                i <= self.entries.len(),
                wanted@ == name@,
                seen ==> 0 <= first < i && self@[first].name == Some(name@),
                !seen ==> forall|j: int| 0 <= j < i ==> (#[trigger] self@[j]).name != Some(name@),
                forall|j: int, k: int|
                    0 <= j < i && 0 <= k < i && (#[trigger] self@[j]).name == Some(name@) && (
                    #[trigger] self@[k]).name == Some(name@) ==> j == k,
            decreases self.entries.len() - i,
        {
            let same = match &self.entries[i].name {
                Some(other) => *other == wanted,
                None => false,
            };
            assert(same == (self@[i as int].name == Some(name@)));
            if same {
                if seen {
                    return false;
                }
                seen = true;
                proof {
                    first = i as int;
                }
            }
            i += 1;
        }
        true
    }

    /// Registers `entry` unless an entry with its fingerprint is there, and
    /// returns the index of the entry that now stands for it.
    pub fn register(&mut self, entry: &RegistryEntry) -> (index: u32)
        requires
            old(self)@.len() <= u32::MAX,
        ensures
            (final(self)@, index as int) == registered(old(self)@, entry@),
            position_of(final(self)@, entry@.type_hash) == Some(index as int),
            keys_are_unique(old(self)@) ==> keys_are_unique(final(self)@),
    {
        proof {
            lemma_registered_is_found(old(self)@, entry@);
            if keys_are_unique(old(self)@) {
                lemma_register_keeps_keys_unique(old(self)@, entry@);
            }
        }
        match self.position(&entry.type_hash) {
            Some(i) => i as u32,
            None => {
                let index = self.entries.len() as u32;
                self.entries.push(entry.clone());
                assert(self@ =~= old(self)@.push(entry@));
                index
            },
        }
    }
}

impl RegistryEntry {
    /// The name under which this entry is declared and referred to in the
    /// rendering of `registry`.
    pub fn unique_var_name(&self, registry: &SchemaRegistry) -> (name: String)
        requires
            has_key(registry@, self@.type_hash),
        ensures
            name@ == display_name(registry@, self@),
    {
        let position: usize = match registry.position(&self.type_hash) {
            Some(i) => i,
            None => 0,
        };
        match &self.name {
            Some(name) => {
                if registry.is_type_name_unique(name.as_str()) {
                    name.clone()
                } else {
                    let mut text = name.clone();
                    text.append("_");
                    push_decimal(&mut text, position as u64);
                    text
                }
            },
            None => {
                let mut text = String::from_str("Type");
                push_decimal(&mut text, position as u64);
                text
            },
        }
    }
}

} // verus!
