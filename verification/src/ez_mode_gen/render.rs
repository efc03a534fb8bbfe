//! Rendering: the entries of a registry as TypeScript declarations of
//! `sbor-ez-mode` schemas.

use crate::ez_mode_gen::error::SchemaError;
use crate::ez_mode_gen::order::{
    deps_in_range, is_dependency_order, is_first_invalid_dependency, keeps_insertion_order,
};
use crate::ez_mode_gen::registry::{
    display_name, has_key, is_inline, spec_is_inline, EntryView, KindView, RegistryEntry,
    SborEzModeSchemaKind, SchemaRegistry,
};
use crate::ez_mode_gen::soundness::{is_sound, law_sound_registry_renders};
use vstd::prelude::*;

verus! {

/// How `child` is written where it is used: as its expression where it is
/// inline, else by its name. Nothing where `child` is the index of no entry,
/// or where inline entries are nested more than `fuel` deep.
pub open spec fn child_text(reg: Seq<EntryView>, child: u32, fuel: nat) -> Option<Seq<char>>
    decreases fuel, 0nat, 0nat,
{
    if child >= reg.len() {
        None
    } else if spec_is_inline(reg[child as int]) {
        if fuel == 0 {
            None
        } else {
            expression_text(reg, reg[child as int].schema_kind, (fuel - 1) as nat)
        }
    } else {
        Some(display_name(reg, reg[child as int]))
    }
}

/// `acc`, followed by the texts of `children[k..]`, with `, ` between the
/// texts.
pub open spec fn joined_children(
    reg: Seq<EntryView>,
    children: Seq<u32>,
    k: nat,
    acc: Seq<char>,
    fuel: nat,
) -> Option<Seq<char>>
    decreases fuel, 1nat, children.len() - k,
{
    if k >= children.len() {
        Some(acc)
    } else {
        match child_text(reg, children[k as int], fuel) {
            None => None,
            Some(text) => joined_children(
                reg,
                children,
                k + 1,
                if k == 0 {
                    acc + text
                } else {
                    acc + ", "@ + text
                },
                fuel,
            ),
        }
    }
}

/// `acc`, followed by the fields `fields[k..]`, each as its name, a colon
/// and its text, each on a line of its own.
pub open spec fn joined_fields(
    reg: Seq<EntryView>,
    fields: Seq<(Seq<char>, u32)>,
    k: nat,
    acc: Seq<char>,
    fuel: nat,
) -> Option<Seq<char>>
    decreases fuel, 1nat, fields.len() - k,
{
    if k >= fields.len() {
        Some(acc)
    } else {
        match child_text(reg, fields[k as int].1, fuel) {
            None => None,
            Some(text) => joined_fields(
                reg,
                fields,
                k + 1,
                if k == 0 {
                    acc + fields[k as int].0 + ": "@ + text
                } else {
                    acc + ",\n  "@ + fields[k as int].0 + ": "@ + text
                },
                fuel,
            ),
        }
    }
}

/// `acc`, followed by the variants `variants[k..]`, each as an object with
/// its name and the text of its schema, each on a line of its own.
pub open spec fn joined_variants(
    reg: Seq<EntryView>,
    variants: Seq<(Seq<char>, u32)>,
    k: nat,
    acc: Seq<char>,
    fuel: nat,
) -> Option<Seq<char>>
    decreases fuel, 1nat, variants.len() - k,
{
    if k >= variants.len() {
        Some(acc)
    } else {
        match child_text(reg, variants[k as int].1, fuel) {
            None => None,
            Some(text) => joined_variants(
                reg,
                variants,
                k + 1,
                if k == 0 {
                    acc + "  { variant: \""@ + variants[k as int].0 + "\", schema: "@ + text
                        + " }"@
                } else {
                    acc + ",\n"@ + "  { variant: \""@ + variants[k as int].0 + "\", schema: "@
                        + text + " }"@
                },
                fuel,
            ),
        }
    }
}

/// The TypeScript expression of a schema of the given kind. Nothing where
/// the kind refers to an index of no entry, or where inline entries are
/// nested more than `fuel` deep.
pub open spec fn expression_text(reg: Seq<EntryView>, kind: KindView, fuel: nat) -> Option<
    Seq<char>,
>
    decreases fuel, 2nat, 0nat,
{
    match kind {
        KindView::Address => Some("s.address()"@),
        KindView::String => Some("s.string()"@),
        KindView::Decimal => Some("s.decimal()"@),
        KindView::InternalAddress => Some("s.internalAddress()"@),
        KindView::Number => Some("s.number()"@),
        KindView::Bool => Some("s.bool()"@),
        KindView::Instant => Some("s.instant()"@),
        KindView::NonFungibleLocalId => Some("s.nonFungibleLocalId()"@),
        KindView::Value => Some("s.value()"@),
        KindView::Mapping { key_type, value_type } => match (
            child_text(reg, key_type, fuel),
            child_text(reg, value_type, fuel),
        ) {
            (Some(key), Some(value)) => Some(
                "s.map({ key: "@ + key + ", value: "@ + value + " })"@,
            ),
            _ => None,
        },
        KindView::Array { element_type } => match child_text(reg, element_type, fuel) {
            Some(element) => Some("s.array("@ + element + ")"@),
            None => None,
        },
        KindView::Tuple { fields } => match joined_children(reg, fields, 0, "s.tuple(["@, fuel) {
            Some(text) => Some(text + "])"@),
            None => None,
        },
        KindView::Struct { fields } => match joined_fields(
            reg,
            fields,
            0,
            "s.struct({\n  "@,
            fuel,
        ) {
            Some(text) => Some(text + "\n})"@),
            None => None,
        },
        KindView::Enum { variants } => match joined_variants(
            reg,
            variants,
            0,
            "s.enum([\n"@,
            fuel,
        ) {
            Some(text) => Some(text + "\n])"@),
            None => None,
        },
        KindView::Option { inner_types } => if inner_types.len() == 1 {
            match child_text(reg, inner_types[0], fuel) {
                Some(inner) => Some("s.option("@ + inner + ")"@),
                None => None,
            }
        } else {
            match joined_children(reg, inner_types, 0, "s.option(s.tuple(["@, fuel) {
                Some(text) => Some(text + "]))"@),
                None => None,
            }
        },
    }
}

/// The expression of `entry` in the registry `reg`. Inline entries may be
/// nested as deep as the registry has entries, which is as deep as they can
/// be without one of them containing itself.
pub open spec fn entry_text(reg: Seq<EntryView>, entry: EntryView) -> Option<Seq<char>> {
    expression_text(reg, entry.schema_kind, reg.len())
}

/// The declaration of the entry `i`: a constant with the name and the
/// expression of the entry, exported where `module` is set, followed by an
/// empty line.
pub open spec fn declaration_text(reg: Seq<EntryView>, i: int, module: bool) -> Option<Seq<char>> {
    match entry_text(reg, reg[i]) {
        Some(expression) => Some(
            (if module {
                "export "@
            } else {
                Seq::empty()
            }) + "const "@ + display_name(reg, reg[i]) + " = "@ + expression + ";\n\n"@,
        ),
        None => None,
    }
}

/// `acc`, followed by the declarations of the entries `order[k..]` that are
/// not inline, in this order. Nothing where one of them has no expression.
pub open spec fn declarations_text(
    reg: Seq<EntryView>,
    order: Seq<u32>,
    k: nat,
    acc: Seq<char>,
    module: bool,
) -> Option<Seq<char>>
    decreases order.len() - k,
{
    if k >= order.len() {
        Some(acc)
    } else if order[k as int] >= reg.len() || spec_is_inline(reg[order[k as int] as int]) {
        declarations_text(reg, order, k + 1, acc, module)
    } else {
        match declaration_text(reg, order[k as int] as int, module) {
            None => None,
            Some(text) => declarations_text(reg, order, k + 1, acc + text, module),
        }
    }
}

/// The lines before the declarations: the import of `sbor-ez-mode` where
/// `module` is set, and the comment that names the package.
pub open spec fn header_text(package_address: Seq<char>, module: bool) -> Seq<char> {
    (if module {
        "import s from '@calamari-radix/sbor-ez-mode';\n"@
    } else {
        Seq::empty()
    }) + "// Generated TypeScript schema for Scrypto SBOR types of package address: "@
        + package_address
        + "\n//Generated by: https://www.8arms1goal.com/sbor-ez-mode-ez-mode\n\n"@
}

/// The rendering of the registry with its entries declared in `order`.
pub open spec fn document_text(
    reg: Seq<EntryView>,
    order: Seq<u32>,
    package_address: Seq<char>,
    module: bool,
) -> Option<Seq<char>> {
    declarations_text(reg, order, 0, header_text(package_address, module), module)
}

/// Whether `text` is the rendering of the registry: the document of its
/// entries, declared in its dependency order that keeps insertion order.
pub open spec fn is_rendering(
    reg: Seq<EntryView>,
    package_address: Seq<char>,
    module: bool,
    text: Seq<char>,
) -> bool {
    exists|order: Seq<u32>|
        #![trigger is_dependency_order(reg, order)]
        {
            &&& is_dependency_order(reg, order)
            &&& keeps_insertion_order(reg, order)
            &&& document_text(reg, order, package_address, module) == Some(text)
        }
}

/// Whether the registry has a dependency order that keeps insertion order,
/// and an entry to declare that has no expression.
pub open spec fn has_broken_reference(
    reg: Seq<EntryView>,
    package_address: Seq<char>,
    module: bool,
) -> bool {
    exists|order: Seq<u32>|
        #![trigger is_dependency_order(reg, order)]
        {
            &&& is_dependency_order(reg, order)
            &&& keeps_insertion_order(reg, order)
            &&& document_text(reg, order, package_address, module) is None
        }
}

/// Whether every entry that is declared has an expression.
pub open spec fn is_renderable(reg: Seq<EntryView>) -> bool {
    forall|i: int|
        0 <= i < reg.len() && !spec_is_inline(reg[i]) ==> (#[trigger] entry_text(reg, reg[i]))
            is Some
}

/// How `child` is written where it is used.
fn render_child(registry: &SchemaRegistry, child: u32, fuel: usize) -> (text: Option<String>)
    ensures
        text.deep_view() == child_text(registry@, child, fuel as nat),
    decreases fuel, 0nat, 0nat,
{
    if child as usize >= registry.entries.len() {
        return None;
    }
    let entry = &registry.entries[child as usize];
    if is_inline(entry) {
        if fuel == 0 {
            None
        } else {
            render_kind(&entry.schema_kind, registry, fuel - 1)
        }
    } else {
        assert(registry@[child as int].type_hash == entry@.type_hash);
        Some(entry.unique_var_name(registry))
    }
}

/// `opening`, followed by the texts of `children` with `, ` between them.
fn render_children(
    children: &Vec<u32>,
    registry: &SchemaRegistry,
    opening: &str,
    fuel: usize,
) -> (text: Option<String>)
    ensures
        text.deep_view() == joined_children(registry@, children@, 0, opening@, fuel as nat),
    decreases fuel, 1nat, children.len(),
{
    let mut out = String::from_str(opening);
    let mut k: usize = 0;
    while k < children.len()
        invariant
            k <= children.len(),
            joined_children(registry@, children@, 0, opening@, fuel as nat) == joined_children(
                registry@,
                children@,
                k as nat,
                out@,
                fuel as nat,
            ),
        decreases children.len() - k,
    {
        match render_child(registry, children[k], fuel) {
            None => {
                return None;
            },
            Some(text) => {
                if k > 0 {
                    out.append(", ");
                }
                out.append(text.as_str());
            },
        }
        k += 1;
    }
    Some(out)
}

/// `opening`, followed by the fields, each on a line of its own.
fn render_fields(
    fields: &Vec<(String, u32)>,
    registry: &SchemaRegistry,
    opening: &str,
    fuel: usize,
) -> (text: Option<String>)
    ensures
        text.deep_view() == joined_fields(registry@, fields.deep_view(), 0, opening@, fuel as nat),
    decreases fuel, 1nat, fields.len(),
{
    let mut out = String::from_str(opening);
    let mut k: usize = 0;
    while k < fields.len()
        invariant
            k <= fields.len(),
            joined_fields(registry@, fields.deep_view(), 0, opening@, fuel as nat) == joined_fields(
                registry@,
                fields.deep_view(),
                k as nat,
                out@,
                fuel as nat,
            ),
        decreases fields.len() - k,
    {
        assert(fields.deep_view()[k as int] == (fields@[k as int].0@, fields@[k as int].1));
        assert(fields.deep_view().len() == fields@.len());
        match render_child(registry, fields[k].1, fuel) {
            None => {
                return None;
            },
            Some(text) => {
                if k > 0 {
                    out.append(",\n  ");
                }
                out.append(fields[k].0.as_str());
                out.append(": ");
                out.append(text.as_str());
            },
        }
        k += 1;
    }
    Some(out)
}

/// `opening`, followed by the variants, each on a line of its own.
fn render_variants(
    variants: &Vec<(String, u32)>,
    registry: &SchemaRegistry,
    opening: &str,
    fuel: usize,
) -> (text: Option<String>)
    ensures
        text.deep_view() == joined_variants(
            registry@,
            variants.deep_view(),
            0,
            opening@,
            fuel as nat,
        ),
    decreases fuel, 1nat, variants.len(),
{
    let mut out = String::from_str(opening);
    let mut k: usize = 0;
    while k < variants.len()
        invariant
            k <= variants.len(),
            joined_variants(registry@, variants.deep_view(), 0, opening@, fuel as nat)
                == joined_variants(
                registry@,
                variants.deep_view(),
                k as nat,
                out@,
                fuel as nat,
            ),
        decreases variants.len() - k,
    {
        assert(variants.deep_view()[k as int] == (variants@[k as int].0@, variants@[k as int].1));
        assert(variants.deep_view().len() == variants@.len());
        match render_child(registry, variants[k].1, fuel) {
            None => {
                return None;
            },
            Some(text) => {
                if k > 0 {
                    out.append(",\n");
                }
                out.append("  { variant: \"");
                out.append(variants[k].0.as_str());
                out.append("\", schema: ");
                out.append(text.as_str());
                out.append(" }");
            },
        }
        k += 1;
    }
    Some(out)
}

/// The text as an expression.
fn literal(text: &str) -> (copy: Option<String>)
    ensures
        copy.deep_view() == Some(text@),
{
    Some(String::from_str(text))
}

/// The TypeScript expression of a schema of the given kind.
fn render_kind(kind: &SborEzModeSchemaKind, registry: &SchemaRegistry, fuel: usize) -> (text:
    Option<String>)
    ensures
        text.deep_view() == expression_text(registry@, kind@, fuel as nat),
    decreases fuel, 2nat, 0nat,
{
    match kind {
        SborEzModeSchemaKind::Address => literal("s.address()"),
        SborEzModeSchemaKind::String => literal("s.string()"),
        SborEzModeSchemaKind::Decimal => literal("s.decimal()"),
        SborEzModeSchemaKind::InternalAddress => literal("s.internalAddress()"),
        SborEzModeSchemaKind::Number => literal("s.number()"),
        SborEzModeSchemaKind::Bool => literal("s.bool()"),
        SborEzModeSchemaKind::Instant => literal("s.instant()"),
        SborEzModeSchemaKind::NonFungibleLocalId => literal("s.nonFungibleLocalId()"),
        SborEzModeSchemaKind::Value => literal("s.value()"),
        SborEzModeSchemaKind::Mapping { key_type, value_type } => {
            let key = render_child(registry, *key_type, fuel);
            let value = render_child(registry, *value_type, fuel);
            match (key, value) {
                (Some(key), Some(value)) => {
                    let mut out = String::from_str("s.map({ key: ");
                    out.append(key.as_str());
                    out.append(", value: ");
                    out.append(value.as_str());
                    out.append(" })");
                    Some(out)
                },
                _ => None,
            }
        },
        SborEzModeSchemaKind::Array { element_type } => {
            match render_child(registry, *element_type, fuel) {
                Some(element) => {
                    let mut out = String::from_str("s.array(");
                    out.append(element.as_str());
                    out.append(")");
                    Some(out)
                },
                None => None,
            }
        },
        SborEzModeSchemaKind::Tuple { fields } => {
            match render_children(fields, registry, "s.tuple([", fuel) {
                Some(mut out) => {
                    out.append("])");
                    Some(out)
                },
                None => None,
            }
        },
        SborEzModeSchemaKind::Struct { fields } => {
            match render_fields(fields, registry, "s.struct({\n  ", fuel) {
                Some(mut out) => {
                    out.append("\n})");
                    Some(out)
                },
                None => None,
            }
        },
        SborEzModeSchemaKind::Enum { variants } => {
            match render_variants(variants, registry, "s.enum([\n", fuel) {
                Some(mut out) => {
                    out.append("\n])");
                    Some(out)
                },
                None => None,
            }
        },
        SborEzModeSchemaKind::Option { inner_types } => {
            if inner_types.len() == 1 {
                match render_child(registry, inner_types[0], fuel) {
                    Some(inner) => {
                        let mut out = String::from_str("s.option(");
                        out.append(inner.as_str());
                        out.append(")");
                        Some(out)
                    },
                    None => None,
                }
            } else {
                match render_children(inner_types, registry, "s.option(s.tuple([", fuel) {
                    Some(mut out) => {
                        out.append("]))");
                        Some(out)
                    },
                    None => None,
                }
            }
        },
    }
}

/// Where a registry has a rendering, its declarations have a text in its
/// dependency order that keeps insertion order.
proof fn lemma_rendering_has_no_broken_reference(
    reg: Seq<EntryView>,
    package_address: Seq<char>,
    module: bool,
    text: Seq<char>,
    order: Seq<u32>,
)
    requires
        is_rendering(reg, package_address, module, text),
        is_dependency_order(reg, order),
        keeps_insertion_order(reg, order),
    ensures
        document_text(reg, order, package_address, module) == Some(text),
{
    let other = choose|other: Seq<u32>|
        #![trigger is_dependency_order(reg, other)]
        is_dependency_order(reg, other) && keeps_insertion_order(reg, other) && document_text(
            reg,
            other,
            package_address,
            module,
        ) == Some(text);
    crate::ez_mode_gen::order::lemma_insertion_order_is_unique(reg, order, other);
}

impl RegistryEntry {
    /// The TypeScript expression of this entry in `registry`, where it has
    /// one: an entry that is used and is inline is written out in its place,
    /// any other is referred to by its name. Nothing where the entry, or an
    /// inline entry that it is made of, refers to an index of no entry or
    /// contains itself.
    pub fn try_render(&self, registry: &SchemaRegistry) -> (text: Option<String>)
        ensures
            text.deep_view() == entry_text(registry@, self@),
    {
        render_kind(&self.schema_kind, registry, registry.entries.len())
    }

    /// The TypeScript expression of this entry in `registry`.
    pub fn render(&self, registry: &SchemaRegistry) -> (text: String)
        requires
            entry_text(registry@, self@) is Some,
        ensures
            Some(text@) == entry_text(registry@, self@),
    {
        match self.try_render(registry) {
            Some(text) => text,
            None => String::new(),
        }
    }
}

impl SchemaRegistry {
    /// The TypeScript source of the schemas of the registry: a header that
    /// names `package_address`, then a declaration for each entry that is
    /// not inline, in dependency order. With `module` set the source imports
    /// `sbor-ez-mode` and exports the declarations.
    ///
    /// Fails as `topologically_sorted_indices` does where the registry has no
    /// dependency order, and with `BrokenReference` where an entry to declare
    /// has no expression. A sound registry is always rendered.
    pub fn render(&self, package_address: &str, module: bool) -> (result: Result<
        String,
        SchemaError,
    >)
        ensures
            match result {
                Ok(text) => is_rendering(self@, package_address@, module, text@),
                Err(SchemaError::RegistryFull) => self@.len() > u32::MAX + 1,
                Err(SchemaError::InvalidDependency { dependency, entry }) => {
                    &&& self@.len() <= u32::MAX + 1
                    &&& is_first_invalid_dependency(self@, dependency, entry)
                },
                Err(SchemaError::CycleDetected) => {
                    &&& self@.len() <= u32::MAX + 1
                    &&& deps_in_range(self@)
                    &&& forall|order: Seq<u32>| !is_dependency_order(self@, order)
                },
                Err(SchemaError::BrokenReference) => has_broken_reference(
                    self@,
                    package_address@,
                    module,
                ),
                Err(_) => false,
            },
            result is Ok <==> exists|text: Seq<char>|
                is_rendering(self@, package_address@, module, text),
            is_sound(self@) ==> result is Ok,
    {
        proof {
            if is_sound(self@) {
                law_sound_registry_renders(self@, package_address@, module);
            }
        }
        let order = match self.topologically_sorted_indices() {
            Ok(order) => order,
            Err(e) => {
                return Err(e);
            },
        };
        let mut out = String::new();
        if module {
            out.append("import s from '@calamari-radix/sbor-ez-mode';\n");
        }
        out.append("// Generated TypeScript schema for Scrypto SBOR types of package address: ");
        out.append(package_address);
        out.append("\n//Generated by: https://www.8arms1goal.com/sbor-ez-mode-ez-mode\n\n");
        assert(out@ =~= header_text(package_address@, module));
        let mut k: usize = 0;
        while k < order.len()
            invariant
                k <= order.len(),
                is_dependency_order(self@, order@),
                keeps_insertion_order(self@, order@),
                is_sound(self@) ==> exists|text: Seq<char>|
                    is_rendering(self@, package_address@, module, text),
                document_text(self@, order@, package_address@, module) == declarations_text(
                    self@,
                    order@,
                    k as nat,
                    out@,
                    module,
                ),
            decreases order.len() - k,
        {
            let i = order[k] as usize;
            let entry = &self.entries[i];
            assert(self@[i as int].type_hash == entry@.type_hash);
            assert(has_key(self@, entry@.type_hash));
            if !is_inline(entry) {
                match entry.try_render(self) {
                    None => {
                        proof {
                            assert forall|text: Seq<char>| !is_rendering(
                                self@,
                                package_address@,
                                module,
                                text,
                            ) by {
                                if is_rendering(self@, package_address@, module, text) {
                                    lemma_rendering_has_no_broken_reference(
                                        self@,
                                        package_address@,
                                        module,
                                        text,
                                        order@,
                                    );
                                }
                            }
                        }
                        return Err(SchemaError::BrokenReference);
                    },
                    Some(expression) => {
                        let ghost before = out@;
                        if module {
                            out.append("export ");
                        }
                        out.append("const ");
                        out.append(entry.unique_var_name(self).as_str());
                        out.append(" = ");
                        out.append(expression.as_str());
                        out.append(";\n\n");
                        assert(out@ =~= before + declaration_text(self@, i as int, module)->0);
                    },
                }
            }
            k += 1;
        }
        assert(is_dependency_order(self@, order@) && keeps_insertion_order(self@, order@)
            && document_text(self@, order@, package_address@, module) == Some(out@));
        assert(is_rendering(self@, package_address@, module, out@));
        Ok(out)
    }
}

} // verus!
