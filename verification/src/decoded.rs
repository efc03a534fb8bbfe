//! Decoded SBOR type schemas: the type kinds and metadata of a schema as
//! plain data, each type addressed by a [`LocalTypeId`].

use vstd::prelude::*;

verus! {

/// The well-known id of the `Instant` type of Scrypto.
pub const INSTANT_TYPE: u8 = 0xc4;

/// A reference to a type from within a schema: a well-known type, or a type
/// of the schema itself by its index.
#[derive(Clone, Copy, Debug, PartialEq, Eq, Structural)]
pub enum LocalTypeId {
    WellKnown(u8),
    SchemaLocalIndex(usize),
}

impl DeepView for LocalTypeId {
    type V = LocalTypeId;

    open spec fn deep_view(&self) -> LocalTypeId {
        *self
    }
}

/// The type kinds that Scrypto adds to those of SBOR.
#[derive(Clone, Copy, Debug, PartialEq, Eq, Structural)]
pub enum CustomTypeKind {
    Reference,
    Own,
    Decimal,
    PreciseDecimal,
    NonFungibleLocalId,
}

/// The structure of a type.
#[derive(Debug)]
pub enum TypeKind {
    Any,
    Bool,
    I8,
    I16,
    I32,
    I64,
    I128,
    U8,
    U16,
    U32,
    U64,
    U128,
    String,
    Array { element_type: LocalTypeId },
    Tuple { field_types: Vec<LocalTypeId> },
    /// The variants in the order of the schema, each with its discriminator
    /// and the types of its fields.
    Enum { variants: Vec<(u8, Vec<LocalTypeId>)> },
    Mapping { key_type: LocalTypeId, value_type: LocalTypeId },
    Custom(CustomTypeKind),
}

/// The mathematical value of a [`TypeKind`].
pub enum TypeKindView {
    Any,
    Bool,
    I8,
    I16,
    I32,
    I64,
    I128,
    U8,
    U16,
    U32,
    U64,
    U128,
    String,
    Array { element_type: LocalTypeId },
    Tuple { field_types: Seq<LocalTypeId> },
    Enum { variants: Seq<(u8, Seq<LocalTypeId>)> },
    Mapping { key_type: LocalTypeId, value_type: LocalTypeId },
    Custom(CustomTypeKind),
}

impl View for TypeKind {
    type V = TypeKindView;

    open spec fn view(&self) -> TypeKindView {
        match self {
            TypeKind::Any => TypeKindView::Any,
            TypeKind::Bool => TypeKindView::Bool,
            TypeKind::I8 => TypeKindView::I8,
            TypeKind::I16 => TypeKindView::I16,
            TypeKind::I32 => TypeKindView::I32,
            TypeKind::I64 => TypeKindView::I64,
            TypeKind::I128 => TypeKindView::I128,
            TypeKind::U8 => TypeKindView::U8,
            TypeKind::U16 => TypeKindView::U16,
            TypeKind::U32 => TypeKindView::U32,
            TypeKind::U64 => TypeKindView::U64,
            TypeKind::U128 => TypeKindView::U128,
            TypeKind::String => TypeKindView::String,
            TypeKind::Array { element_type } => TypeKindView::Array { element_type: *element_type },
            TypeKind::Tuple { field_types } => TypeKindView::Tuple { field_types: field_types@ },
            TypeKind::Enum { variants } => TypeKindView::Enum { variants: variants.deep_view() },
            TypeKind::Mapping { key_type, value_type } => TypeKindView::Mapping {
                key_type: *key_type,
                value_type: *value_type,
            },
            TypeKind::Custom(custom) => TypeKindView::Custom(*custom),
        }
    }
}

/// The names of one variant of an enum: its discriminator, its name and the
/// names of its fields, where it has them.
#[derive(Debug)]
pub struct VariantNames {
    pub id: u8,
    pub name: Option<String>,
    pub field_names: Option<Vec<String>>,
}

/// The mathematical value of a [`VariantNames`].
pub struct VariantNamesView {
    pub id: u8,
    pub name: Option<Seq<char>>,
    pub field_names: Option<Seq<Seq<char>>>,
}

impl View for VariantNames {
    type V = VariantNamesView;

    open spec fn view(&self) -> VariantNamesView {
        VariantNamesView {
            id: self.id,
            name: self.name.deep_view(),
            field_names: self.field_names.deep_view(),
        }
    }
}

impl DeepView for VariantNames {
    type V = VariantNamesView;

    open spec fn deep_view(&self) -> VariantNamesView {
        self@
    }
}

/// The names of the parts of a type: of the fields of a tuple, or of the
/// variants of an enum.
#[derive(Debug)]
pub enum ChildNames {
    NamedFields(Vec<String>),
    EnumVariants(Vec<VariantNames>),
}

/// The mathematical value of a [`ChildNames`].
pub enum ChildNamesView {
    NamedFields(Seq<Seq<char>>),
    EnumVariants(Seq<VariantNamesView>),
}

impl View for ChildNames {
    type V = ChildNamesView;

    open spec fn view(&self) -> ChildNamesView {
        match self {
            ChildNames::NamedFields(names) => ChildNamesView::NamedFields(names.deep_view()),
            ChildNames::EnumVariants(variants) => ChildNamesView::EnumVariants(
                variants.deep_view(),
            ),
        }
    }
}

/// The names that a schema gives to a type and to its parts.
#[derive(Debug)]
pub struct TypeMetadata {
    pub name: Option<String>,
    pub child_names: Option<ChildNames>,
}

/// The mathematical value of a [`TypeMetadata`].
pub struct TypeMetadataView {
    pub name: Option<Seq<char>>,
    pub child_names: Option<ChildNamesView>,
}

impl View for TypeMetadata {
    type V = TypeMetadataView;

    open spec fn view(&self) -> TypeMetadataView {
        TypeMetadataView {
            name: self.name.deep_view(),
            child_names: match self.child_names {
                Some(names) => Some(names@),
                None => None,
            },
        }
    }
}

/// The names of an enum variant as they match a given number of fields.
pub struct EnumVariantData<'a> {
    pub variant_name: Option<&'a String>,
    pub field_names: Option<&'a Vec<String>>,
}

/// The mathematical value of an [`EnumVariantData`].
pub struct EnumVariantDataView {
    pub variant_name: Option<Seq<char>>,
    pub field_names: Option<Seq<Seq<char>>>,
}

impl<'a> View for EnumVariantData<'a> {
    type V = EnumVariantDataView;

    open spec fn view(&self) -> EnumVariantDataView {
        EnumVariantDataView {
            variant_name: match self.variant_name {
                Some(name) => Some(name@),
                None => None,
            },
            field_names: match self.field_names {
                Some(names) => Some(names.deep_view()),
                None => None,
            },
        }
    }
}

/// The field names of `metadata`, where it names the fields of a tuple.
pub open spec fn field_names_of(metadata: TypeMetadataView) -> Option<Seq<Seq<char>>> {
    match metadata.child_names {
        Some(ChildNamesView::NamedFields(names)) => Some(names),
        _ => None,
    }
}

/// The first of `variants` with the discriminator `id`, looked for from
/// position `from` on.
pub open spec fn find_variant(variants: Seq<VariantNamesView>, id: u8, from: int) -> Option<
    VariantNamesView,
>
    decreases variants.len() - from,
{
    if from < 0 || from >= variants.len() {
        None
    } else if variants[from].id == id {
        Some(variants[from])
    } else {
        find_variant(variants, id, from + 1)
    }
}

/// The names that `metadata` gives to the enum variant `id`: its name, and
/// its field names where there are exactly `fields_length` of them.
pub open spec fn matching_variant_data(
    metadata: TypeMetadataView,
    id: u8,
    fields_length: nat,
) -> EnumVariantDataView {
    match metadata.child_names {
        Some(ChildNamesView::EnumVariants(variants)) => match find_variant(variants, id, 0) {
            Some(variant) => EnumVariantDataView {
                variant_name: variant.name,
                field_names: match variant.field_names {
                    Some(names) => if names.len() == fields_length {
                        Some(names)
                    } else {
                        None
                    },
                    None => None,
                },
            },
            None => EnumVariantDataView { variant_name: None, field_names: None },
        },
        _ => EnumVariantDataView { variant_name: None, field_names: None },
    }
}

impl TypeMetadata {
    /// The names of the fields, where the metadata is that of a tuple with
    /// named fields.
    pub fn get_field_names(&self) -> (names: Option<&Vec<String>>)
        ensures
            match names {
                Some(names) => field_names_of(self@) == Some(names.deep_view()),
                None => field_names_of(self@) is None,
            },
    {
        match &self.child_names {
            Some(ChildNames::NamedFields(names)) => Some(names),
            _ => None,
        }
    }

    /// The names of the enum variant with the discriminator `variant_id`. The
    /// field names are given only where there are `fields_length` of them.
    pub fn get_matching_enum_variant_data(&self, variant_id: u8, fields_length: usize) -> (data:
        EnumVariantData<'_>)
        ensures
            data@ == matching_variant_data(self@, variant_id, fields_length as nat),
    {
        match &self.child_names {
            Some(ChildNames::EnumVariants(variants)) => {
                let mut i: usize = 0;
                while i < variants.len()
                    invariant
                        i <= variants.len(),
                        self@.child_names == Some(
                            ChildNamesView::EnumVariants(variants.deep_view()),
                        ),
                        find_variant(variants.deep_view(), variant_id, 0) == find_variant(
                            variants.deep_view(),
                            variant_id,
                            i as int,
                        ),
                    decreases variants.len() - i,
                {
                    if variants[i].id == variant_id {
                        assert(variants.deep_view()[i as int] == variants@[i as int]@);
                        let field_names = match &variants[i].field_names {
                            Some(names) => {
                                assert(names.deep_view().len() == names.len());
                                if names.len() == fields_length {
                                    Some(names)
                                } else {
                                    None
                                }
                            },
                            None => None,
                        };
                        let variant_name = match &variants[i].name {
                            Some(name) => Some(name),
                            None => None,
                        };
                        let data = EnumVariantData { variant_name, field_names };
                        proof {
                            let variant = variants.deep_view()[i as int];
                            assert(find_variant(variants.deep_view(), variant_id, i as int) == Some(
                                variant,
                            ));
                        }
                        return data;
                    }
                    assert(variants.deep_view()[i as int] == variants@[i as int]@);
                    i += 1;
                }
                EnumVariantData { variant_name: None, field_names: None }
            },
            _ => EnumVariantData { variant_name: None, field_names: None },
        }
    }
}

/// The kind and the metadata of one type.
#[derive(Debug)]
pub struct TypeData {
    pub kind: TypeKind,
    pub metadata: TypeMetadata,
}

/// The mathematical value of a [`TypeData`].
pub struct TypeDataView {
    pub kind: TypeKindView,
    pub metadata: TypeMetadataView,
}

impl View for TypeData {
    type V = TypeDataView;

    open spec fn view(&self) -> TypeDataView {
        TypeDataView { kind: self.kind@, metadata: self.metadata@ }
    }
}

/// A decoded schema: the kinds and the metadata of its own types, side by
/// side, and the table of the well-known types by their ids.
#[derive(Debug)]
pub struct DecodedSchema {
    pub type_kinds: Vec<TypeKind>,
    pub type_metadata: Vec<TypeMetadata>,
    pub well_known: Vec<Option<TypeData>>,
}

/// The mathematical value of a [`DecodedSchema`].
pub struct DecodedSchemaView {
    pub type_kinds: Seq<TypeKindView>,
    pub type_metadata: Seq<TypeMetadataView>,
    pub well_known: Seq<Option<TypeDataView>>,
}

impl View for DecodedSchema {
    type V = DecodedSchemaView;

    open spec fn view(&self) -> DecodedSchemaView {
        DecodedSchemaView {
            type_kinds: Seq::new(self.type_kinds@.len(), |i: int| self.type_kinds@[i]@),
            type_metadata: Seq::new(self.type_metadata@.len(), |i: int| self.type_metadata@[i]@),
            well_known: Seq::new(
                self.well_known@.len(),
                |i: int|
                    match self.well_known@[i] {
                        Some(data) => Some(data@),
                        None => None,
                    },
            ),
        }
    }
}

/// The kind of the type that `id` refers to in `schema`.
pub open spec fn resolved_kind(schema: DecodedSchemaView, id: LocalTypeId) -> Option<TypeKindView> {
    match id {
        LocalTypeId::WellKnown(index) => if index < schema.well_known.len() {
            match schema.well_known[index as int] {
                Some(data) => Some(data.kind),
                None => None,
            }
        } else {
            None
        },
        LocalTypeId::SchemaLocalIndex(index) => if index < schema.type_kinds.len() {
            Some(schema.type_kinds[index as int])
        } else {
            None
        },
    }
}

/// The metadata of the type that `id` refers to in `schema`.
pub open spec fn resolved_metadata(schema: DecodedSchemaView, id: LocalTypeId) -> Option<
    TypeMetadataView,
> {
    match id {
        LocalTypeId::WellKnown(index) => if index < schema.well_known.len() {
            match schema.well_known[index as int] {
                Some(data) => Some(data.metadata),
                None => None,
            }
        } else {
            None
        },
        LocalTypeId::SchemaLocalIndex(index) => if index < schema.type_metadata.len() {
            Some(schema.type_metadata[index as int])
        } else {
            None
        },
    }
}

/// The greatest depth to which the types of `schema` can be nested without
/// one of them containing itself: the number of types that it holds, as far
/// as a `usize` can count them.
pub open spec fn depth_limit(schema: DecodedSchemaView) -> nat {
    if schema.type_kinds.len() + schema.well_known.len() > usize::MAX {
        usize::MAX as nat
    } else {
        schema.type_kinds.len() + schema.well_known.len()
    }
}

impl DecodedSchema {
    /// The kind of the type that `id` refers to.
    pub fn resolve_type_kind(&self, id: LocalTypeId) -> (kind: Option<&TypeKind>)
        ensures
            match kind {
                Some(kind) => resolved_kind(self@, id) == Some(kind@),
                None => resolved_kind(self@, id) is None,
            },
    {
        match id {
            LocalTypeId::WellKnown(index) => {
                if (index as usize) < self.well_known.len() {
                    match &self.well_known[index as usize] {
                        Some(data) => Some(&data.kind),
                        None => None,
                    }
                } else {
                    None
                }
            },
            LocalTypeId::SchemaLocalIndex(index) => {
                if index < self.type_kinds.len() {
                    Some(&self.type_kinds[index])
                } else {
                    None
                }
            },
        }
    }

    /// The metadata of the type that `id` refers to.
    pub fn resolve_type_metadata(&self, id: LocalTypeId) -> (metadata: Option<&TypeMetadata>)
        ensures
            match metadata {
                Some(metadata) => resolved_metadata(self@, id) == Some(metadata@),
                None => resolved_metadata(self@, id) is None,
            },
    {
        match id {
            LocalTypeId::WellKnown(index) => {
                if (index as usize) < self.well_known.len() {
                    match &self.well_known[index as usize] {
                        Some(data) => Some(&data.metadata),
                        None => None,
                    }
                } else {
                    None
                }
            },
            LocalTypeId::SchemaLocalIndex(index) => {
                if index < self.type_metadata.len() {
                    Some(&self.type_metadata[index])
                } else {
                    None
                }
            },
        }
    }

    /// The number of types that the schema holds, as far as a `usize` can
    /// count them.
    pub fn depth_limit(&self) -> (limit: usize)
        ensures
            limit == depth_limit(self@),
    {
        let own = self.type_kinds.len();
        let shared = self.well_known.len();
        if own > usize::MAX - shared {
            usize::MAX
        } else {
            own + shared
        }
    }
}

} // verus!
