//! The fingerprint of a type: a text made of its metadata and of its kind.
//! Every part of the text says how long it is before it begins, so that
//! types have the same fingerprint only where they have the same metadata
//! and the same kind.

use crate::decoded::{
    ChildNames, ChildNamesView, CustomTypeKind, LocalTypeId, TypeKind, TypeKindView, TypeMetadata,
    TypeMetadataView, VariantNames, VariantNamesView,
};
use crate::ez_mode_gen::registry::TypeHash;
use crate::text::{decimal, push_decimal};
use vstd::prelude::*;

verus! {

/// A number in decimal notation, closed by a colon.
pub open spec fn number_text(n: nat) -> Seq<char> {
    decimal(n) + ":"@
}

/// A text with its length before it.
pub open spec fn counted_text(text: Seq<char>) -> Seq<char> {
    number_text(text.len()) + text
}

/// A text that may be missing: 0 where it is, else 1 and the text.
pub open spec fn optional_text(text: Option<Seq<char>>) -> Seq<char> {
    match text {
        None => number_text(0),
        Some(text) => number_text(1) + counted_text(text),
    }
}

/// The texts `texts[k..]`, one after the other.
pub open spec fn texts_from(texts: Seq<Seq<char>>, k: nat) -> Seq<char>
    decreases texts.len() - k,
{
    if k >= texts.len() {
        Seq::empty()
    } else {
        counted_text(texts[k as int]) + texts_from(texts, k + 1)
    }
}

/// A list of texts with its length before it.
pub open spec fn texts_text(texts: Seq<Seq<char>>) -> Seq<char> {
    number_text(texts.len()) + texts_from(texts, 0)
}

/// A list of texts that may be missing: 0 where it is, else 1 and the list.
pub open spec fn optional_texts_text(texts: Option<Seq<Seq<char>>>) -> Seq<char> {
    match texts {
        None => number_text(0),
        Some(texts) => number_text(1) + texts_text(texts),
    }
}

/// The names of one enum variant: discriminator, name and field names.
pub open spec fn variant_names_text(variant: VariantNamesView) -> Seq<char> {
    number_text(variant.id as nat) + optional_text(variant.name) + optional_texts_text(
        variant.field_names,
    )
}

/// The names of the variants `variants[k..]`, one after the other.
pub open spec fn variant_names_from(variants: Seq<VariantNamesView>, k: nat) -> Seq<char>
    decreases variants.len() - k,
{
    if k >= variants.len() {
        Seq::empty()
    } else {
        variant_names_text(variants[k as int]) + variant_names_from(variants, k + 1)
    }
}

/// The names of the parts of a type: 0 where there are none, 1 and the names
/// of fields, or 2 and the names of variants with their number before them.
pub open spec fn child_names_text(names: Option<ChildNamesView>) -> Seq<char> {
    match names {
        None => number_text(0),
        Some(ChildNamesView::NamedFields(names)) => number_text(1) + texts_text(names),
        Some(ChildNamesView::EnumVariants(variants)) => number_text(2) + (number_text(
            variants.len(),
        ) + variant_names_from(variants, 0)),
    }
}

/// The text of the metadata of a type: its name and the names of its parts.
pub open spec fn metadata_text(metadata: TypeMetadataView) -> Seq<char> {
    optional_text(metadata.name) + child_names_text(metadata.child_names)
}

/// The text of a type id: 0 and the id of a well-known type, or 1 and the
/// index of a type of the schema.
pub open spec fn type_id_text(id: LocalTypeId) -> Seq<char> {
    match id {
        LocalTypeId::WellKnown(index) => number_text(0) + number_text(index as nat),
        LocalTypeId::SchemaLocalIndex(index) => number_text(1) + number_text(index as nat),
    }
}

/// The texts of the type ids `ids[k..]`, one after the other.
pub open spec fn type_ids_from(ids: Seq<LocalTypeId>, k: nat) -> Seq<char>
    decreases ids.len() - k,
{
    if k >= ids.len() {
        Seq::empty()
    } else {
        type_id_text(ids[k as int]) + type_ids_from(ids, k + 1)
    }
}

/// A list of type ids with its length before it.
pub open spec fn type_ids_text(ids: Seq<LocalTypeId>) -> Seq<char> {
    number_text(ids.len()) + type_ids_from(ids, 0)
}

/// The text of one enum variant: discriminator and field types.
pub open spec fn variant_fields_text(variant: (u8, Seq<LocalTypeId>)) -> Seq<char> {
    number_text(variant.0 as nat) + type_ids_text(variant.1)
}

/// The texts of the variants `variants[k..]`, one after the other.
pub open spec fn variant_fields_from(variants: Seq<(u8, Seq<LocalTypeId>)>, k: nat) -> Seq<char>
    decreases variants.len() - k,
{
    if k >= variants.len() {
        Seq::empty()
    } else {
        variant_fields_text(variants[k as int]) + variant_fields_from(variants, k + 1)
    }
}

/// The number that stands for a kind of type.
pub open spec fn kind_tag(kind: TypeKindView) -> nat {
    match kind {
        TypeKindView::Any => 0,
        TypeKindView::Bool => 1,
        TypeKindView::I8 => 2,
        TypeKindView::I16 => 3,
        TypeKindView::I32 => 4,
        TypeKindView::I64 => 5,
        TypeKindView::I128 => 6,
        TypeKindView::U8 => 7,
        TypeKindView::U16 => 8,
        TypeKindView::U32 => 9,
        TypeKindView::U64 => 10,
        TypeKindView::U128 => 11,
        TypeKindView::String => 12,
        TypeKindView::Array { .. } => 13,
        TypeKindView::Tuple { .. } => 14,
        TypeKindView::Enum { .. } => 15,
        TypeKindView::Mapping { .. } => 16,
        TypeKindView::Custom(CustomTypeKind::Reference) => 17,
        TypeKindView::Custom(CustomTypeKind::Own) => 18,
        TypeKindView::Custom(CustomTypeKind::Decimal) => 19,
        TypeKindView::Custom(CustomTypeKind::PreciseDecimal) => 20,
        TypeKindView::Custom(CustomTypeKind::NonFungibleLocalId) => 21,
    }
}

/// What the text of a kind holds after the number of the kind: the types
/// that a type of the kind is made of.
pub open spec fn kind_parts_text(kind: TypeKindView) -> Seq<char> {
    match kind {
        TypeKindView::Array { element_type } => type_id_text(element_type),
        TypeKindView::Tuple { field_types } => type_ids_text(field_types),
        TypeKindView::Enum { variants } => number_text(variants.len()) + variant_fields_from(
            variants,
            0,
        ),
        TypeKindView::Mapping { key_type, value_type } => type_id_text(key_type) + type_id_text(
            value_type,
        ),
        _ => Seq::empty(),
    }
}

/// The text of the kind of a type: the number of the kind, and the types
/// that the type is made of.
pub open spec fn kind_text(kind: TypeKindView) -> Seq<char> {
    number_text(kind_tag(kind)) + kind_parts_text(kind)
}

/// The metadata of a tuple without a name of its own, whose fields have the
/// given names or none.
pub open spec fn unnamed_metadata(field_names: Option<Seq<Seq<char>>>) -> TypeMetadataView {
    TypeMetadataView {
        name: None,
        child_names: match field_names {
            Some(names) => Some(ChildNamesView::NamedFields(names)),
            None => None,
        },
    }
}

/// The fingerprint of a type with the given metadata and kind: the text of
/// the metadata, then the text of the kind.
pub open spec fn fingerprint(metadata: TypeMetadataView, kind: TypeKindView) -> Seq<char> {
    metadata_text(metadata) + kind_text(kind)
}

/// Appends a number and its colon.
fn push_number(out: &mut String, n: u64)
    ensures
        final(out)@ == old(out)@ + number_text(n as nat),
{
    push_decimal(out, n);
    out.append(":");
    assert(out@ =~= old(out)@ + number_text(n as nat));
}

/// Appends a length and its colon.
fn push_length(out: &mut String, n: usize)
    ensures
        final(out)@ == old(out)@ + number_text(n as nat),
{
    push_number(out, n as u64);
}

/// Appends a text with its length before it.
fn push_counted(out: &mut String, text: &String)
    ensures
        final(out)@ == old(out)@ + counted_text(text@),
{
    push_length(out, text.as_str().unicode_len());
    out.append(text.as_str());
    assert(out@ =~= old(out)@ + counted_text(text@));
}

/// Appends a text that may be missing.
fn push_optional(out: &mut String, text: &Option<String>)
    ensures
        final(out)@ == old(out)@ + optional_text(text.deep_view()),
{
    match text {
        Some(text) => {
            push_number(out, 1);
            push_counted(out, text);
            assert(out@ =~= old(out)@ + optional_text(Some(text@)));
        },
        None => push_number(out, 0),
    }
}

/// Appends a list of texts with its length before it.
fn push_texts(out: &mut String, texts: &Vec<String>)
    ensures
        final(out)@ == old(out)@ + texts_text(texts.deep_view()),
{
    push_length(out, texts.len());
    let ghost start = out@;
    let ghost views = texts.deep_view();
    let mut k: usize = 0;
    while k < texts.len()
        invariant
            k <= texts.len(),
            views == texts.deep_view(),
            out@ + texts_from(views, k as nat) == start + texts_from(views, 0),
        decreases texts.len() - k,
    {
        let ghost before = out@;
        push_counted(out, &texts[k]);
        proof {
            assert(views[k as int] == texts@[k as int]@);
            assert(out@ + texts_from(views, (k + 1) as nat) =~= before + texts_from(
                views,
                k as nat,
            ));
        }
        k += 1;
    }
    assert(out@ =~= start + texts_from(views, 0));
    assert(out@ =~= old(out)@ + texts_text(views));
}

/// Appends a list of texts that may be missing.
fn push_optional_texts(out: &mut String, texts: Option<&Vec<String>>)
    ensures
        final(out)@ == old(out)@ + optional_texts_text(
            match texts {
                Some(texts) => Some(texts.deep_view()),
                None => None,
            },
        ),
{
    match texts {
        Some(texts) => {
            push_number(out, 1);
            push_texts(out, texts);
            assert(out@ =~= old(out)@ + optional_texts_text(Some(texts.deep_view())));
        },
        None => push_number(out, 0),
    }
}

/// Appends the names of one enum variant.
fn push_variant_names(out: &mut String, variant: &VariantNames)
    ensures
        final(out)@ == old(out)@ + variant_names_text(variant@),
{
    push_number(out, variant.id as u64);
    push_optional(out, &variant.name);
    let field_names = match &variant.field_names {
        Some(names) => Some(names),
        None => None,
    };
    push_optional_texts(out, field_names);
    assert(out@ =~= old(out)@ + variant_names_text(variant@));
}

/// Appends the names of the parts of a type.
fn push_child_names(out: &mut String, names: &Option<ChildNames>)
    ensures
        final(out)@ == old(out)@ + child_names_text(
            match names {
                Some(names) => Some(names@),
                None => None,
            },
        ),
{
    match names {
        None => push_number(out, 0),
        Some(ChildNames::NamedFields(names)) => {
            push_number(out, 1);
            push_texts(out, names);
            assert(out@ =~= old(out)@ + (number_text(1) + texts_text(names.deep_view())));
        },
        Some(ChildNames::EnumVariants(variants)) => {
            push_number(out, 2);
            push_length(out, variants.len());
            let ghost start = out@;
            let ghost views = variants.deep_view();
            let mut k: usize = 0;
            while k < variants.len()
                invariant
                    k <= variants.len(),
                    views == variants.deep_view(),
                    out@ + variant_names_from(views, k as nat) == start + variant_names_from(
                        views,
                        0,
                    ),
                decreases variants.len() - k,
            {
                let ghost before = out@;
                push_variant_names(out, &variants[k]);
                proof {
                    assert(views[k as int] == variants@[k as int]@);
                    assert(out@ + variant_names_from(views, (k + 1) as nat) =~= before
                        + variant_names_from(views, k as nat));
                }
                k += 1;
            }
            assert(out@ =~= start + variant_names_from(views, 0));
            assert(out@ =~= old(out)@ + (number_text(2) + (number_text(views.len())
                + variant_names_from(views, 0))));
        },
    }
}

/// Appends a type id.
fn push_type_id(out: &mut String, id: LocalTypeId)
    ensures
        final(out)@ == old(out)@ + type_id_text(id),
{
    match id {
        LocalTypeId::WellKnown(index) => {
            push_number(out, 0);
            push_number(out, index as u64);
        },
        LocalTypeId::SchemaLocalIndex(index) => {
            push_number(out, 1);
            push_length(out, index);
        },
    }
    assert(out@ =~= old(out)@ + type_id_text(id));
}

/// Appends a list of type ids with its length before it.
fn push_type_ids(out: &mut String, ids: &Vec<LocalTypeId>)
    ensures
        final(out)@ == old(out)@ + type_ids_text(ids@),
{
    push_length(out, ids.len());
    let ghost start = out@;
    let mut k: usize = 0;
    while k < ids.len()
        invariant
            k <= ids.len(),
            out@ + type_ids_from(ids@, k as nat) == start + type_ids_from(ids@, 0),
        decreases ids.len() - k,
    {
        let ghost before = out@;
        push_type_id(out, ids[k]);
        proof {
            assert(out@ + type_ids_from(ids@, (k + 1) as nat) =~= before + type_ids_from(
                ids@,
                k as nat,
            ));
        }
        k += 1;
    }
    assert(out@ =~= start + type_ids_from(ids@, 0));
    assert(out@ =~= old(out)@ + type_ids_text(ids@));
}

/// Appends the variants of an enum with their number before them.
fn push_variant_fields(out: &mut String, variants: &Vec<(u8, Vec<LocalTypeId>)>)
    ensures
        final(out)@ == old(out)@ + (number_text(variants@.len()) + variant_fields_from(
            variants.deep_view(),
            0,
        )),
{
    push_length(out, variants.len());
    let ghost start = out@;
    let ghost views = variants.deep_view();
    let mut k: usize = 0;
    while k < variants.len()
        invariant
            k <= variants.len(),
            views == variants.deep_view(),
            out@ + variant_fields_from(views, k as nat) == start + variant_fields_from(views, 0),
        decreases variants.len() - k,
    {
        let ghost before = out@;
        push_number(out, variants[k].0 as u64);
        push_type_ids(out, &variants[k].1);
        proof {
            assert(variants@[k as int].1.deep_view() =~= variants@[k as int].1@);
            assert(views[k as int] == (variants@[k as int].0, variants@[k as int].1@));
            assert(out@ =~= before + variant_fields_text(views[k as int]));
            assert(out@ + variant_fields_from(views, (k + 1) as nat) =~= before
                + variant_fields_from(views, k as nat));
        }
        k += 1;
    }
    assert(out@ =~= start + variant_fields_from(views, 0));
    assert(out@ =~= old(out)@ + (number_text(variants@.len()) + variant_fields_from(views, 0)));
}

/// The number that stands for the kind of a type.
fn tag_of(kind: &TypeKind) -> (tag: u64)
    ensures
        tag == kind_tag(kind@),
{
    match kind {
        TypeKind::Any => 0,
        TypeKind::Bool => 1,
        TypeKind::I8 => 2,
        TypeKind::I16 => 3,
        TypeKind::I32 => 4,
        TypeKind::I64 => 5,
        TypeKind::I128 => 6,
        TypeKind::U8 => 7,
        TypeKind::U16 => 8,
        TypeKind::U32 => 9,
        TypeKind::U64 => 10,
        TypeKind::U128 => 11,
        TypeKind::String => 12,
        TypeKind::Array { .. } => 13,
        TypeKind::Tuple { .. } => 14,
        TypeKind::Enum { .. } => 15,
        TypeKind::Mapping { .. } => 16,
        TypeKind::Custom(CustomTypeKind::Reference) => 17,
        TypeKind::Custom(CustomTypeKind::Own) => 18,
        TypeKind::Custom(CustomTypeKind::Decimal) => 19,
        TypeKind::Custom(CustomTypeKind::PreciseDecimal) => 20,
        TypeKind::Custom(CustomTypeKind::NonFungibleLocalId) => 21,
    }
}

/// Appends the text of a kind.
fn push_kind(out: &mut String, kind: &TypeKind)
    ensures
        final(out)@ == old(out)@ + kind_text(kind@),
{
    push_number(out, tag_of(kind));
    match kind {
        TypeKind::Array { element_type } => {
            push_type_id(out, *element_type);
        },
        TypeKind::Tuple { field_types } => {
            push_type_ids(out, field_types);
        },
        TypeKind::Enum { variants } => {
            push_variant_fields(out, variants);
            assert(variants.deep_view().len() == variants@.len());
        },
        TypeKind::Mapping { key_type, value_type } => {
            push_type_id(out, *key_type);
            push_type_id(out, *value_type);
        },
        _ => {},
    }
    assert(out@ =~= old(out)@ + kind_text(kind@));
}

impl TypeHash {
    /// The fingerprint of the type with the given metadata and kind.
    pub fn create(metadata: &TypeMetadata, kind: &TypeKind) -> (hash: Self)
        ensures
            hash@ == fingerprint(metadata@, kind@),
    {
        let mut text = String::new();
        push_optional(&mut text, &metadata.name);
        push_child_names(&mut text, &metadata.child_names);
        push_kind(&mut text, kind);
        assert(text@ =~= fingerprint(metadata@, kind@));
        TypeHash(text)
    }

    /// The fingerprint of the tuple without a name of its own that has the
    /// given field names and field types.
    pub fn create_unnamed(field_names: Option<&Vec<String>>, field_types: &Vec<LocalTypeId>) -> (hash:
        Self)
        ensures
            hash@ == fingerprint(
                unnamed_metadata(
                    match field_names {
                        Some(names) => Some(names.deep_view()),
                        None => None,
                    },
                ),
                TypeKindView::Tuple { field_types: field_types@ },
            ),
    {
        let mut text = String::new();
        push_number(&mut text, 0);
        match field_names {
            Some(names) => {
                push_number(&mut text, 1);
                push_texts(&mut text, names);
            },
            None => {
                push_number(&mut text, 0);
            },
        }
        push_number(&mut text, 14);
        push_type_ids(&mut text, field_types);
        assert(text@ =~= fingerprint(
            unnamed_metadata(
                match field_names {
                    Some(names) => Some(names.deep_view()),
                    None => None,
                },
            ),
            TypeKindView::Tuple { field_types: field_types@ },
        ));
        TypeHash(text)
    }
}

} // verus!
