//! Fingerprints identify types: two types have the same fingerprint only
//! where they have the same metadata and the same kind.

use crate::decoded::{
    ChildNamesView, LocalTypeId, TypeKindView, TypeMetadataView, VariantNamesView,
};
use crate::ez_mode_gen::fingerprint::{
    child_names_text, counted_text, fingerprint, kind_parts_text, kind_tag, kind_text,
    metadata_text, number_text, optional_text, optional_texts_text, texts_from, texts_text,
    type_id_text, type_ids_from, type_ids_text, variant_fields_from, variant_fields_text,
    variant_names_from, variant_names_text,
};
use crate::text::{decimal, is_digit, lemma_decimal_digits, lemma_decimal_injective};
use vstd::prelude::*;

verus! {

/// Texts that begin with parts of the same length have the same parts.
proof fn lemma_split(x: Seq<char>, rx: Seq<char>, y: Seq<char>, ry: Seq<char>)
    requires
        x.len() == y.len(),
        x + rx == y + ry,
    ensures
        x == y,
        rx == ry,
{
    let s = x + rx;
    let t = y + ry;
    assert(x =~= y) by {
        assert forall|k: int| 0 <= k < x.len() implies x[k] == y[k] by {
            assert(s[k] == x[k]);
            assert(t[k] == y[k]);
        }
    }
    assert(rx =~= ry) by {
        assert(s.len() == x.len() + rx.len());
        assert(t.len() == y.len() + ry.len());
        assert forall|k: int| 0 <= k < rx.len() implies rx[k] == ry[k] by {
            assert(s[x.len() + k] == rx[k]);
            assert(t[y.len() + k] == ry[k]);
        }
    }
}

/// No digit is a colon.
proof fn lemma_digits_are_no_colons(n: nat)
    ensures
        forall|k: int| 0 <= k < decimal(n).len() ==> #[trigger] decimal(n)[k] != ':',
{
    lemma_decimal_digits(n);
    assert forall|k: int| 0 <= k < decimal(n).len() implies #[trigger] decimal(n)[k] != ':' by {
        assert(is_digit(decimal(n)[k]));
    }
}

/// A number is read off the beginning of a text in one way.
proof fn lemma_number(a: nat, ra: Seq<char>, b: nat, rb: Seq<char>)
    requires
        number_text(a) + ra == number_text(b) + rb,
    ensures
        a == b,
        ra == rb,
{
    reveal_strlit(":");
    let s = number_text(a) + ra;
    let t = number_text(b) + rb;
    lemma_digits_are_no_colons(a);
    lemma_digits_are_no_colons(b);
    let la = decimal(a).len() as int;
    let lb = decimal(b).len() as int;
    assert(number_text(a).len() == la + 1);
    assert(number_text(b).len() == lb + 1);
    assert(s[la] == number_text(a)[la]);
    assert(t[lb] == number_text(b)[lb]);
    assert(s[la] == ':');
    assert(t[lb] == ':');
    if la < lb {
        assert(t[la] == number_text(b)[la]);
        assert(number_text(b)[la] == decimal(b)[la]);
        assert(false);
    }
    if lb < la {
        assert(s[lb] == number_text(a)[lb]);
        assert(number_text(a)[lb] == decimal(a)[lb]);
        assert(false);
    }
    assert(decimal(a) =~= decimal(b)) by {
        assert forall|k: int| 0 <= k < la implies decimal(a)[k] == decimal(b)[k] by {
            assert(s[k] == number_text(a)[k]);
            assert(t[k] == number_text(b)[k]);
            assert(number_text(a)[k] == decimal(a)[k]);
            assert(number_text(b)[k] == decimal(b)[k]);
        }
    }
    lemma_decimal_injective(a, b);
    lemma_split(number_text(a), ra, number_text(b), rb);
}

/// A text with its length before it is read off in one way.
proof fn lemma_counted(x: Seq<char>, rx: Seq<char>, y: Seq<char>, ry: Seq<char>)
    requires
        counted_text(x) + rx == counted_text(y) + ry,
    ensures
        x == y,
        rx == ry,
{
    assert(counted_text(x) + rx =~= number_text(x.len()) + (x + rx));
    assert(counted_text(y) + ry =~= number_text(y.len()) + (y + ry));
    lemma_number(x.len(), x + rx, y.len(), y + ry);
    lemma_split(x, rx, y, ry);
}

proof fn lemma_optional(x: Option<Seq<char>>, rx: Seq<char>, y: Option<Seq<char>>, ry: Seq<char>)
    requires
        optional_text(x) + rx == optional_text(y) + ry,
    ensures
        x == y,
        rx == ry,
{
    let left = match x {
        None => rx,
        Some(a) => counted_text(a) + rx,
    };
    let right = match y {
        None => ry,
        Some(b) => counted_text(b) + ry,
    };
    let tag_x: nat = if x is Some { 1 } else { 0 };
    let tag_y: nat = if y is Some { 1 } else { 0 };
    assert(optional_text(x) + rx =~= number_text(tag_x) + left);
    assert(optional_text(y) + ry =~= number_text(tag_y) + right);
    lemma_number(tag_x, left, tag_y, right);
    match (x, y) {
        (Some(a), Some(b)) => {
            lemma_counted(a, rx, b, ry);
        },
        _ => {},
    }
}

proof fn lemma_texts_from(
    xs: Seq<Seq<char>>,
    ys: Seq<Seq<char>>,
    k: nat,
    rx: Seq<char>,
    ry: Seq<char>,
)
    requires
        xs.len() == ys.len(),
        texts_from(xs, k) + rx == texts_from(ys, k) + ry,
    ensures
        forall|j: int| k <= j < xs.len() ==> xs[j] == ys[j],
        rx == ry,
    decreases xs.len() - k,
{
    if k < xs.len() {
        assert(texts_from(xs, k) + rx =~= counted_text(xs[k as int]) + (texts_from(xs, k + 1)
            + rx));
        assert(texts_from(ys, k) + ry =~= counted_text(ys[k as int]) + (texts_from(ys, k + 1)
            + ry));
        lemma_counted(
            xs[k as int],
            texts_from(xs, k + 1) + rx,
            ys[k as int],
            texts_from(ys, k + 1) + ry,
        );
        lemma_texts_from(xs, ys, k + 1, rx, ry);
    } else {
        assert(texts_from(xs, k) + rx =~= rx);
        assert(texts_from(ys, k) + ry =~= ry);
    }
}

proof fn lemma_texts(xs: Seq<Seq<char>>, rx: Seq<char>, ys: Seq<Seq<char>>, ry: Seq<char>)
    requires
        texts_text(xs) + rx == texts_text(ys) + ry,
    ensures
        xs == ys,
        rx == ry,
{
    assert(texts_text(xs) + rx =~= number_text(xs.len()) + (texts_from(xs, 0) + rx));
    assert(texts_text(ys) + ry =~= number_text(ys.len()) + (texts_from(ys, 0) + ry));
    lemma_number(xs.len(), texts_from(xs, 0) + rx, ys.len(), texts_from(ys, 0) + ry);
    lemma_texts_from(xs, ys, 0, rx, ry);
    assert(xs =~= ys);
}

proof fn lemma_optional_texts(
    x: Option<Seq<Seq<char>>>,
    rx: Seq<char>,
    y: Option<Seq<Seq<char>>>,
    ry: Seq<char>,
)
    requires
        optional_texts_text(x) + rx == optional_texts_text(y) + ry,
    ensures
        x == y,
        rx == ry,
{
    let left = match x {
        None => rx,
        Some(a) => texts_text(a) + rx,
    };
    let right = match y {
        None => ry,
        Some(b) => texts_text(b) + ry,
    };
    let tag_x: nat = if x is Some { 1 } else { 0 };
    let tag_y: nat = if y is Some { 1 } else { 0 };
    assert(optional_texts_text(x) + rx =~= number_text(tag_x) + left);
    assert(optional_texts_text(y) + ry =~= number_text(tag_y) + right);
    lemma_number(tag_x, left, tag_y, right);
    match (x, y) {
        (Some(a), Some(b)) => {
            lemma_texts(a, rx, b, ry);
        },
        _ => {},
    }
}

proof fn lemma_variant_names(
    x: VariantNamesView,
    rx: Seq<char>,
    y: VariantNamesView,
    ry: Seq<char>,
)
    requires
        variant_names_text(x) + rx == variant_names_text(y) + ry,
    ensures
        x == y,
        rx == ry,
{
    let fields_x = optional_texts_text(x.field_names) + rx;
    let fields_y = optional_texts_text(y.field_names) + ry;
    let name_x = optional_text(x.name) + fields_x;
    let name_y = optional_text(y.name) + fields_y;
    assert(variant_names_text(x) + rx =~= number_text(x.id as nat) + name_x);
    assert(variant_names_text(y) + ry =~= number_text(y.id as nat) + name_y);
    lemma_number(x.id as nat, name_x, y.id as nat, name_y);
    lemma_optional(x.name, fields_x, y.name, fields_y);
    lemma_optional_texts(x.field_names, rx, y.field_names, ry);
}

proof fn lemma_variant_names_from(
    xs: Seq<VariantNamesView>,
    ys: Seq<VariantNamesView>,
    k: nat,
    rx: Seq<char>,
    ry: Seq<char>,
)
    requires
        xs.len() == ys.len(),
        variant_names_from(xs, k) + rx == variant_names_from(ys, k) + ry,
    ensures
        forall|j: int| k <= j < xs.len() ==> xs[j] == ys[j],
        rx == ry,
    decreases xs.len() - k,
{
    if k < xs.len() {
        assert(variant_names_from(xs, k) + rx =~= variant_names_text(xs[k as int]) + (
        variant_names_from(xs, k + 1) + rx));
        assert(variant_names_from(ys, k) + ry =~= variant_names_text(ys[k as int]) + (
        variant_names_from(ys, k + 1) + ry));
        lemma_variant_names(
            xs[k as int],
            variant_names_from(xs, k + 1) + rx,
            ys[k as int],
            variant_names_from(ys, k + 1) + ry,
        );
        lemma_variant_names_from(xs, ys, k + 1, rx, ry);
    } else {
        assert(variant_names_from(xs, k) + rx =~= rx);
        assert(variant_names_from(ys, k) + ry =~= ry);
    }
}

/// The number before the names of the parts of a type.
spec fn child_names_tag(names: Option<ChildNamesView>) -> nat {
    match names {
        None => 0,
        Some(ChildNamesView::NamedFields(_)) => 1,
        Some(ChildNamesView::EnumVariants(_)) => 2,
    }
}

/// What follows the number before the names of the parts of a type.
spec fn child_names_rest(names: Option<ChildNamesView>, rest: Seq<char>) -> Seq<char> {
    match names {
        None => rest,
        Some(ChildNamesView::NamedFields(names)) => texts_text(names) + rest,
        Some(ChildNamesView::EnumVariants(variants)) => number_text(variants.len()) + (
        variant_names_from(variants, 0) + rest),
    }
}

proof fn lemma_child_names(
    x: Option<ChildNamesView>,
    rx: Seq<char>,
    y: Option<ChildNamesView>,
    ry: Seq<char>,
)
    requires
        child_names_text(x) + rx == child_names_text(y) + ry,
    ensures
        x == y,
        rx == ry,
{
    assert(child_names_text(x) + rx =~= number_text(child_names_tag(x)) + child_names_rest(x, rx));
    assert(child_names_text(y) + ry =~= number_text(child_names_tag(y)) + child_names_rest(y, ry));
    lemma_number(
        child_names_tag(x),
        child_names_rest(x, rx),
        child_names_tag(y),
        child_names_rest(y, ry),
    );
    match (x, y) {
        (Some(ChildNamesView::NamedFields(a)), Some(ChildNamesView::NamedFields(b))) => {
            lemma_texts(a, rx, b, ry);
        },
        (Some(ChildNamesView::EnumVariants(a)), Some(ChildNamesView::EnumVariants(b))) => {
            lemma_number(
                a.len(),
                variant_names_from(a, 0) + rx,
                b.len(),
                variant_names_from(b, 0) + ry,
            );
            lemma_variant_names_from(a, b, 0, rx, ry);
            assert(a =~= b);
        },
        _ => {},
    }
}

proof fn lemma_metadata(x: TypeMetadataView, rx: Seq<char>, y: TypeMetadataView, ry: Seq<char>)
    requires
        metadata_text(x) + rx == metadata_text(y) + ry,
    ensures
        x == y,
        rx == ry,
{
    let children_x = child_names_text(x.child_names) + rx;
    let children_y = child_names_text(y.child_names) + ry;
    assert(metadata_text(x) + rx =~= optional_text(x.name) + children_x);
    assert(metadata_text(y) + ry =~= optional_text(y.name) + children_y);
    lemma_optional(x.name, children_x, y.name, children_y);
    lemma_child_names(x.child_names, rx, y.child_names, ry);
}

proof fn lemma_type_id(x: LocalTypeId, rx: Seq<char>, y: LocalTypeId, ry: Seq<char>)
    requires
        type_id_text(x) + rx == type_id_text(y) + ry,
    ensures
        x == y,
        rx == ry,
{
    let tag_x: nat = if x is WellKnown { 0 } else { 1 };
    let tag_y: nat = if y is WellKnown { 0 } else { 1 };
    let index_x: nat = match x {
        LocalTypeId::WellKnown(index) => index as nat,
        LocalTypeId::SchemaLocalIndex(index) => index as nat,
    };
    let index_y: nat = match y {
        LocalTypeId::WellKnown(index) => index as nat,
        LocalTypeId::SchemaLocalIndex(index) => index as nat,
    };
    assert(type_id_text(x) + rx =~= number_text(tag_x) + (number_text(index_x) + rx));
    assert(type_id_text(y) + ry =~= number_text(tag_y) + (number_text(index_y) + ry));
    lemma_number(tag_x, number_text(index_x) + rx, tag_y, number_text(index_y) + ry);
    lemma_number(index_x, rx, index_y, ry);
}

proof fn lemma_type_ids_from(
    xs: Seq<LocalTypeId>,
    ys: Seq<LocalTypeId>,
    k: nat,
    rx: Seq<char>,
    ry: Seq<char>,
)
    requires
        xs.len() == ys.len(),
        type_ids_from(xs, k) + rx == type_ids_from(ys, k) + ry,
    ensures
        forall|j: int| k <= j < xs.len() ==> xs[j] == ys[j],
        rx == ry,
    decreases xs.len() - k,
{
    if k < xs.len() {
        assert(type_ids_from(xs, k) + rx =~= type_id_text(xs[k as int]) + (type_ids_from(
            xs,
            k + 1,
        ) + rx));
        assert(type_ids_from(ys, k) + ry =~= type_id_text(ys[k as int]) + (type_ids_from(
            ys,
            k + 1,
        ) + ry));
        lemma_type_id(
            xs[k as int],
            type_ids_from(xs, k + 1) + rx,
            ys[k as int],
            type_ids_from(ys, k + 1) + ry,
        );
        lemma_type_ids_from(xs, ys, k + 1, rx, ry);
    } else {
        assert(type_ids_from(xs, k) + rx =~= rx);
        assert(type_ids_from(ys, k) + ry =~= ry);
    }
}

proof fn lemma_type_ids(xs: Seq<LocalTypeId>, rx: Seq<char>, ys: Seq<LocalTypeId>, ry: Seq<char>)
    requires
        type_ids_text(xs) + rx == type_ids_text(ys) + ry,
    ensures
        xs == ys,
        rx == ry,
{
    assert(type_ids_text(xs) + rx =~= number_text(xs.len()) + (type_ids_from(xs, 0) + rx));
    assert(type_ids_text(ys) + ry =~= number_text(ys.len()) + (type_ids_from(ys, 0) + ry));
    lemma_number(xs.len(), type_ids_from(xs, 0) + rx, ys.len(), type_ids_from(ys, 0) + ry);
    lemma_type_ids_from(xs, ys, 0, rx, ry);
    assert(xs =~= ys);
}

proof fn lemma_variant_fields(
    x: (u8, Seq<LocalTypeId>),
    rx: Seq<char>,
    y: (u8, Seq<LocalTypeId>),
    ry: Seq<char>,
)
    requires
        variant_fields_text(x) + rx == variant_fields_text(y) + ry,
    ensures
        x == y,
        rx == ry,
{
    assert(variant_fields_text(x) + rx =~= number_text(x.0 as nat) + (type_ids_text(x.1) + rx));
    assert(variant_fields_text(y) + ry =~= number_text(y.0 as nat) + (type_ids_text(y.1) + ry));
    lemma_number(x.0 as nat, type_ids_text(x.1) + rx, y.0 as nat, type_ids_text(y.1) + ry);
    lemma_type_ids(x.1, rx, y.1, ry);
}

proof fn lemma_variant_fields_from(
    xs: Seq<(u8, Seq<LocalTypeId>)>,
    ys: Seq<(u8, Seq<LocalTypeId>)>,
    k: nat,
    rx: Seq<char>,
    ry: Seq<char>,
)
    requires
        xs.len() == ys.len(),
        variant_fields_from(xs, k) + rx == variant_fields_from(ys, k) + ry,
    ensures
        forall|j: int| k <= j < xs.len() ==> xs[j] == ys[j],
        rx == ry,
    decreases xs.len() - k,
{
    if k < xs.len() {
        assert(variant_fields_from(xs, k) + rx =~= variant_fields_text(xs[k as int]) + (
        variant_fields_from(xs, k + 1) + rx));
        assert(variant_fields_from(ys, k) + ry =~= variant_fields_text(ys[k as int]) + (
        variant_fields_from(ys, k + 1) + ry));
        lemma_variant_fields(
            xs[k as int],
            variant_fields_from(xs, k + 1) + rx,
            ys[k as int],
            variant_fields_from(ys, k + 1) + ry,
        );
        lemma_variant_fields_from(xs, ys, k + 1, rx, ry);
    } else {
        assert(variant_fields_from(xs, k) + rx =~= rx);
        assert(variant_fields_from(ys, k) + ry =~= ry);
    }
}

/// Kinds with the same number and the same parts are the same.
proof fn lemma_kind(x: TypeKindView, y: TypeKindView)
    requires
        kind_text(x) == kind_text(y),
    ensures
        x == y,
{
    lemma_number(kind_tag(x), kind_parts_text(x), kind_tag(y), kind_parts_text(y));
    let none = Seq::<char>::empty();
    match (x, y) {
        (TypeKindView::Array { element_type: a }, TypeKindView::Array { element_type: b }) => {
            assert(type_id_text(a) + none =~= type_id_text(a));
            assert(type_id_text(b) + none =~= type_id_text(b));
            lemma_type_id(a, none, b, none);
        },
        (TypeKindView::Tuple { field_types: a }, TypeKindView::Tuple { field_types: b }) => {
            assert(type_ids_text(a) + none =~= type_ids_text(a));
            assert(type_ids_text(b) + none =~= type_ids_text(b));
            lemma_type_ids(a, none, b, none);
        },
        (TypeKindView::Enum { variants: a }, TypeKindView::Enum { variants: b }) => {
            lemma_number(a.len(), variant_fields_from(a, 0), b.len(), variant_fields_from(b, 0));
            assert(variant_fields_from(a, 0) + none =~= variant_fields_from(a, 0));
            assert(variant_fields_from(b, 0) + none =~= variant_fields_from(b, 0));
            lemma_variant_fields_from(a, b, 0, none, none);
            assert(a =~= b);
        },
        (
            TypeKindView::Mapping { key_type: ka, value_type: va },
            TypeKindView::Mapping { key_type: kb, value_type: vb },
        ) => {
            lemma_type_id(ka, type_id_text(va), kb, type_id_text(vb));
            assert(type_id_text(va) + none =~= type_id_text(va));
            assert(type_id_text(vb) + none =~= type_id_text(vb));
            lemma_type_id(va, none, vb, none);
        },
        _ => {},
    }
}

/// Fingerprints identify types: two types have the same fingerprint exactly
/// where they have the same metadata and the same kind.
pub proof fn law_fingerprints_identify_types(
    first_metadata: TypeMetadataView,
    first_kind: TypeKindView,
    second_metadata: TypeMetadataView,
    second_kind: TypeKindView,
)
    ensures
        fingerprint(first_metadata, first_kind) == fingerprint(second_metadata, second_kind) <==> (
        first_metadata == second_metadata && first_kind == second_kind),
{
    if fingerprint(first_metadata, first_kind) == fingerprint(second_metadata, second_kind) {
        lemma_metadata(first_metadata, kind_text(first_kind), second_metadata, kind_text(second_kind));
        lemma_kind(first_kind, second_kind);
    }
}

} // verus!
