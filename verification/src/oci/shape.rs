//! What a component imports and exports: of what kind each of it is, and how its types are made up.

use vstd::prelude::*;
use wasmparser::collections::IndexMap;
use wasmparser::component_types::ComponentAnyTypeId;
use wasmparser::component_types::ComponentDefinedType;
use wasmparser::component_types::ComponentDefinedTypeId;
use wasmparser::component_types::ComponentEntityType;
use wasmparser::component_types::ComponentItem;
use wasmparser::component_types::ComponentValType;
use wasmparser::names::ComponentName;
use wasmparser::names::ComponentNameKind;
use wasmparser::types::Types;
use wasmparser::Parser;
use wasmparser::Payload;
use wasmparser::ValidPayload;
use wasmparser::Validator;
use wasmparser::WasmFeatures;

use crate::text::opt_text;

verus! {

// ---------------------------------------------------------------------------
// Types of values
// ---------------------------------------------------------------------------

/// How a type is made up.
#[derive(Clone, Copy, Debug, PartialEq, Eq, Structural)]
pub enum TypeTag {
    Primitive,
    Record,
    Variant,
    List,
    MapOf,
    FixedLengthList(u32),
    Tuple,
    /// Flags or an enumeration.
    Labels,
    Option,
    Result,
    /// An owned or a borrowed resource.
    Handle,
    Future,
    Stream,
    Resource,
}

/// A type of values, or a resource.
#[derive(Debug, PartialEq)]
pub struct TypeShape {
    /// Types are numbered in the order in which they first occur.
    pub id: usize,
    pub tag: TypeTag,
    /// The resource of a handle.
    pub handle: Option<usize>,
    pub parts: Vec<PartShape>,
}

/// A part of a type: a field, a case or an element.
#[derive(Debug, PartialEq)]
pub struct PartShape {
    /// The name of a field or of a case.
    pub name: String,
    pub value: ValueShape,
}

/// The type of a part.
#[derive(Debug, PartialEq)]
pub enum ValueShape {
    /// There is none, as for a case without a value.
    Absent,
    Primitive,
    Defined(TypeShape),
}

/// The contents of a type, whose types are identified by `I`.
pub struct TypeView<I> {
    pub id: I,
    pub tag: TypeTag,
    pub handle: Option<I>,
    pub parts: Seq<PartView<I>>,
}

/// The contents of a part.
pub struct PartView<I> {
    pub name: Seq<char>,
    pub value: ValueView<I>,
}

/// The contents of the type of a part.
pub enum ValueView<I> {
    Absent,
    Primitive,
    Defined(TypeView<I>),
}

/// The contents of a type.
pub open spec fn type_of(ty: TypeShape) -> TypeView<usize>
    decreases ty,
{
    TypeView { id: ty.id, tag: ty.tag, handle: ty.handle, parts: parts_of(ty.parts@) }
}

/// The contents of parts.
pub open spec fn parts_of(parts: Seq<PartShape>) -> Seq<PartView<usize>>
    decreases parts,
{
    if parts.len() == 0 {
        Seq::empty()
    } else {
        parts_of(parts.drop_last()).push(
            PartView {
                name: parts.last().name@,
                value: match parts.last().value {
                    ValueShape::Absent => ValueView::Absent,
                    ValueShape::Primitive => ValueView::Primitive,
                    ValueShape::Defined(ty) => ValueView::Defined(type_of(ty)),
                },
            },
        )
    }
}

/// The contents of the type of a part.
pub open spec fn value_of(value: ValueShape) -> ValueView<usize> {
    match value {
        ValueShape::Absent => ValueView::Absent,
        ValueShape::Primitive => ValueView::Primitive,
        ValueShape::Defined(ty) => ValueView::Defined(type_of(ty)),
    }
}

/// The contents of a part.
pub open spec fn part_of(part: PartShape) -> PartView<usize> {
    PartView { name: part.name@, value: value_of(part.value) }
}

/// Whether the contents are those of the parts, one by one.
pub open spec fn are_parts(views: Seq<PartView<usize>>, parts: Seq<PartShape>) -> bool {
    views.len() == parts.len() && forall|i: int|
        0 <= i < parts.len() ==> (#[trigger] views[i]) == part_of(parts[i])
}

/// One by one, the contents of parts are those of the parts.
pub proof fn lemma_parts(parts: Seq<PartShape>)
    ensures
        are_parts(parts_of(parts), parts),
    decreases parts.len(),
{
    if parts.len() > 0 {
        lemma_parts(parts.drop_last());
    }
}

// ---------------------------------------------------------------------------
// Names
// ---------------------------------------------------------------------------

/// What the name of an import or an export stands for.
#[derive(Debug, PartialEq)]
pub enum NameKind {
    /// It is no name at all.
    Invalid,
    /// A plain name.
    Label,
    /// An interface: its package with the version, unless this is none, and its own name.
    Interface(Option<String>, String),
    /// A function of a resource.
    Member(String),
    /// A binary to be found elsewhere.
    Other,
}

/// The contents of what a name stands for.
pub enum NameView {
    Invalid,
    Label,
    Interface(Option<Seq<char>>, Seq<char>),
    Member(Seq<char>),
    Other,
}

impl View for NameKind {
    type V = NameView;

    open spec fn view(&self) -> NameView {
        match self {
            NameKind::Invalid => NameView::Invalid,
            NameKind::Label => NameView::Label,
            NameKind::Interface(package, label) => NameView::Interface(opt_text(*package), label@),
            NameKind::Member(resource) => NameView::Member(resource@),
            NameKind::Other => NameView::Other,
        }
    }
}

/// What a name stands for, whose version may have a suffix.
pub uninterp spec fn name_kind(name: Seq<char>, suffix: Option<Seq<char>>) -> NameView;

/// `wasmparser::names::ComponentName::new` says what a name stands for. `InterfaceName::version` adds the
/// suffix to the version, and fails where this gives none. What comes out is named, not spelt out.
#[verifier::external_body]
fn read_name(name: &str, suffix: &Option<String>) -> (res: NameKind)
    ensures
        res@ == name_kind(name@, opt_text(*suffix)),
{
    match ComponentName::new(name, 0).as_ref().map(|name| name.kind()) {
        Err(_) => NameKind::Invalid,
        Ok(ComponentNameKind::Label(_)) => NameKind::Label,
        Ok(ComponentNameKind::Interface(i)) => NameKind::Interface(
            i.version(suffix.as_deref()).ok().map(|v| {
                let version = v.map(|v| format!("@{v}")).unwrap_or_default();
                format!("{}:{}{version}", i.namespace(), i.package())
            }),
            i.interface().to_string(),
        ),
        Ok(ComponentNameKind::Constructor(r)) => NameKind::Member(r.to_string()),
        Ok(ComponentNameKind::Method(f) | ComponentNameKind::Static(f)) => NameKind::Member(f.resource().to_string()),
        Ok(_) => NameKind::Other,
    }
}

// ---------------------------------------------------------------------------
// Shapes
// ---------------------------------------------------------------------------

/// Of what kind something is that a component imports or exports.
#[derive(Clone, Copy, Debug, PartialEq, Eq, Structural)]
pub enum ShapeKind {
    /// A function.
    Function,
    /// A type of values, or a resource.
    DataType,
    /// A type of components.
    ComponentType,
    /// A type of functions or of instances.
    OtherType,
    /// An instance, with what it exports.
    Instance,
    /// A component, with what it imports and exports.
    Component,
    /// A core module or a value.
    Other,
}

/// A type that is imported or exported.
#[derive(Debug, PartialEq)]
pub struct DataShape {
    /// The type that is made known.
    pub created: usize,
    /// What the type stands for in turn, which is the same.
    pub aliases: Vec<usize>,
    /// What it stands for.
    pub ty: TypeShape,
}

/// Something that a component imports or exports.
#[derive(Debug, PartialEq)]
pub struct Shape {
    pub kind: ShapeKind,
    pub data: Option<DataShape>,
    /// What a function takes, and then what it returns.
    pub signature: Vec<PartShape>,
    pub imports: Vec<Extern>,
    pub exports: Vec<Extern>,
}

/// Something that a component imports or exports under a name.
#[derive(Debug, PartialEq)]
pub struct Extern {
    pub name: String,
    pub kind: NameKind,
    /// The interface that an instance says it implements.
    pub implements: Option<(String, NameKind)>,
    pub shape: Shape,
}

/// The contents of a type that is imported or exported.
pub struct DataView<I> {
    pub created: I,
    pub aliases: Seq<I>,
    pub ty: TypeView<I>,
}

/// The contents of a shape.
pub struct ShapeView<I> {
    pub kind: ShapeKind,
    pub data: Option<DataView<I>>,
    pub signature: Seq<PartView<I>>,
    pub imports: Seq<ExternView<I>>,
    pub exports: Seq<ExternView<I>>,
}

/// The contents of a named shape.
pub struct ExternView<I> {
    pub name: Seq<char>,
    pub kind: NameView,
    pub implements: Option<(Seq<char>, NameView)>,
    pub shape: ShapeView<I>,
}

/// The contents of a type that is imported or exported.
pub open spec fn data_of(data: Option<DataShape>) -> Option<DataView<usize>> {
    match data {
        Some(data) => Some(
            DataView { created: data.created, aliases: data.aliases@, ty: type_of(data.ty) },
        ),
        None => None,
    }
}

/// The interface that an instance implements.
pub open spec fn implements_of(implements: Option<(String, NameKind)>) -> Option<
    (Seq<char>, NameView),
> {
    match implements {
        Some((name, kind)) => Some((name@, kind@)),
        None => None,
    }
}

/// The contents of a shape.
pub open spec fn shape_of(shape: Shape) -> ShapeView<usize>
    decreases shape,
{
    ShapeView {
        kind: shape.kind,
        data: data_of(shape.data),
        signature: parts_of(shape.signature@),
        imports: externs_of(shape.imports@),
        exports: externs_of(shape.exports@),
    }
}

/// The contents of named shapes.
pub open spec fn externs_of(list: Seq<Extern>) -> Seq<ExternView<usize>>
    decreases list,
{
    if list.len() == 0 {
        Seq::empty()
    } else {
        externs_of(list.drop_last()).push(
            ExternView {
                name: list.last().name@,
                kind: list.last().kind@,
                implements: implements_of(list.last().implements),
                shape: shape_of(list.last().shape),
            },
        )
    }
}

/// The contents of a named shape.
pub open spec fn extern_of(item: Extern) -> ExternView<usize> {
    ExternView {
        name: item.name@,
        kind: item.kind@,
        implements: implements_of(item.implements),
        shape: shape_of(item.shape),
    }
}

/// The contents of what a component imports and exports.
pub open spec fn items_of(items: Seq<(bool, Extern)>) -> Seq<(bool, ExternView<usize>)> {
    items.map_values(|item: (bool, Extern)| (item.0, extern_of(item.1)))
}

/// Whether the contents are those of the named shapes, one by one.
pub open spec fn are_externs(views: Seq<ExternView<usize>>, list: Seq<Extern>) -> bool {
    views.len() == list.len() && forall|i: int|
        0 <= i < list.len() ==> (#[trigger] views[i]) == extern_of(list[i])
}

/// One by one, the contents of named shapes are those of the shapes.
pub proof fn lemma_externs(list: Seq<Extern>)
    ensures
        are_externs(externs_of(list), list),
    decreases list.len(),
{
    if list.len() > 0 {
        lemma_externs(list.drop_last());
    }
}

// ---------------------------------------------------------------------------
// What a validated binary holds
// ---------------------------------------------------------------------------

/// `wasmparser::types::Types`, the types of a binary that was validated.
#[verifier::external_type_specification]
#[verifier::external_body]
pub struct ExTypes(Types);

/// `wasmparser::component_types::ComponentEntityType`, something that a component imports or exports.
#[verifier::external_type_specification]
#[verifier::external_body]
pub struct ExComponentEntityType(ComponentEntityType);

/// `wasmparser::component_types::ComponentAnyTypeId`, a type of a component.
#[verifier::external_type_specification]
#[verifier::external_body]
pub struct ExComponentAnyTypeId(ComponentAnyTypeId);

/// `wasmparser::component_types::ComponentDefinedTypeId`, a type of values.
#[verifier::external_type_specification]
#[verifier::external_body]
pub struct ExComponentDefinedTypeId(ComponentDefinedTypeId);

/// `wasmparser::component_types::ComponentValType`, a primitive type or a type of values.
#[verifier::external_type_specification]
#[verifier::external_body]
pub struct ExComponentValType(ComponentValType);

/// The type of values that is not a primitive one.
pub uninterp spec fn value_id(value: ComponentValType) -> Option<ComponentDefinedTypeId>;

/// The type of values among all types.
pub uninterp spec fn defined_id(id: ComponentAnyTypeId) -> Option<ComponentDefinedTypeId>;

/// How a type of values is made up; there is nothing where it does not belong to the types.
pub uninterp spec fn type_view(types: Types, id: ComponentDefinedTypeId) -> Option<
    TypeView<ComponentAnyTypeId>,
>;

/// What a type stands for, what that stands for, and so on.
pub uninterp spec fn alias_view(types: Types, id: ComponentAnyTypeId) -> Seq<ComponentAnyTypeId>;

/// What an entity is; there is nothing where it does not belong to the types.
pub uninterp spec fn entity_view(types: Types, entity: ComponentEntityType) -> Option<
    ShapeView<ComponentAnyTypeId>,
>;

/// Whether the type belongs to the types, where there is one.
pub open spec fn value_belongs(types: Types, value: Option<ComponentValType>) -> bool {
    value matches Some(v) ==> (value_id(v) matches Some(id) ==> type_view(types, id) is Some)
}

/// What the type of a part is.
pub open spec fn value_view(types: Types, value: Option<ComponentValType>) -> ValueView<
    ComponentAnyTypeId,
> {
    match value {
        None => ValueView::Absent,
        Some(v) => match value_id(v) {
            None => ValueView::Primitive,
            Some(id) => ValueView::Defined(type_view(types, id)->0),
        },
    }
}

/// Whether the types of all the parts belong to the types.
pub open spec fn parts_belong(
    types: Types,
    parts: Seq<(String, Option<ComponentValType>)>,
) -> bool {
    forall|i: int| 0 <= i < parts.len() ==> value_belongs(types, (#[trigger] parts[i]).1)
}

/// What parts are.
pub open spec fn part_views(types: Types, parts: Seq<(String, Option<ComponentValType>)>) -> Seq<
    PartView<ComponentAnyTypeId>,
> {
    Seq::new(
        parts.len(),
        |i: int| PartView { name: parts[i].0@, value: value_view(types, parts[i].1) },
    )
}

/// What a type is that is imported or exported, where it is a type of values or a resource.
pub open spec fn data_view(
    types: Types,
    created: ComponentAnyTypeId,
    referenced: ComponentAnyTypeId,
) -> DataView<ComponentAnyTypeId> {
    DataView {
        created,
        aliases: alias_view(types, referenced),
        ty: match defined_id(referenced) {
            Some(id) => type_view(types, id)->0,
            None => TypeView {
                id: referenced,
                tag: TypeTag::Resource,
                handle: None,
                parts: Seq::empty(),
            },
        },
    }
}

/// A named entity: its name, the interface that it implements, the suffix of its version, and what it is.
pub struct NamedEntity {
    pub name: String,
    pub implements: Option<String>,
    pub suffix: Option<String>,
    pub entity: ComponentEntityType,
}

/// Whether all the named entities belong to the types.
pub open spec fn entities_belong(types: Types, list: Seq<NamedEntity>) -> bool {
    forall|i: int| 0 <= i < list.len() ==> entity_view(types, (#[trigger] list[i]).entity) is Some
}

/// The interface that a named entity implements.
pub open spec fn implements_view(entity: NamedEntity) -> Option<(Seq<char>, NameView)> {
    match entity.implements {
        Some(name) => Some((name@, name_kind(name@, opt_text(entity.suffix)))),
        None => None,
    }
}

/// What a named entity is.
pub open spec fn named_view(types: Types, entity: NamedEntity) -> ExternView<ComponentAnyTypeId> {
    ExternView {
        name: entity.name@,
        kind: name_kind(entity.name@, opt_text(entity.suffix)),
        implements: implements_view(entity),
        shape: entity_view(types, entity.entity)->0,
    }
}

/// What named entities are.
pub open spec fn entity_views(types: Types, list: Seq<NamedEntity>) -> Seq<
    ExternView<ComponentAnyTypeId>,
> {
    Seq::new(list.len(), |i: int| named_view(types, list[i]))
}

/// What a component imports under the name.
pub uninterp spec fn import_view(types: Types, name: Seq<char>) -> Option<
    ExternView<ComponentAnyTypeId>,
>;

/// What a component exports under the name.
pub uninterp spec fn export_view(types: Types, name: Seq<char>) -> Option<
    ExternView<ComponentAnyTypeId>,
>;

/// An import or an export as it stands in a section: its name, whether it is an import, and whether it belongs
/// to the component itself and not to one inside.
pub type Port = (String, bool, bool);

/// What an import or an export of a component is.
pub open spec fn port_view(types: Types, port: Port) -> Option<ExternView<ComponentAnyTypeId>> {
    let (name, imported, outer) = port;
    if !outer {
        None
    } else if imported {
        import_view(types, name@)
    } else {
        export_view(types, name@)
    }
}

// ---------------------------------------------------------------------------
// Numbering the types
// ---------------------------------------------------------------------------

/// The number of a type, where the types were numbered that occurred before, and all of them with it.
pub open spec fn numbered_id(id: ComponentAnyTypeId, seen: Seq<ComponentAnyTypeId>) -> (
    usize,
    Seq<ComponentAnyTypeId>,
) {
    if seen.contains(id) {
        (seen.index_of_first(id)->0 as usize, seen)
    } else {
        (seen.len() as usize, seen.push(id))
    }
}

/// The numbers of types, from the given one on.
pub open spec fn numbered_ids(
    ids: Seq<ComponentAnyTypeId>,
    seen: Seq<ComponentAnyTypeId>,
) -> (Seq<usize>, Seq<ComponentAnyTypeId>)
    decreases ids.len(),
{
    if ids.len() == 0 {
        (Seq::empty(), seen)
    } else {
        let (before, seen) = numbered_ids(ids.drop_last(), seen);
        let (n, seen) = numbered_id(ids.last(), seen);
        (before.push(n), seen)
    }
}

/// A type with its types numbered, and all the types that occurred.
pub open spec fn numbered_type(
    ty: TypeView<ComponentAnyTypeId>,
    seen: Seq<ComponentAnyTypeId>,
) -> (TypeView<usize>, Seq<ComponentAnyTypeId>)
    decreases ty,
{
    let (id, seen) = numbered_id(ty.id, seen);
    let (handle, seen) = match ty.handle {
        Some(h) => {
            let (n, seen) = numbered_id(h, seen);
            (Some(n), seen)
        },
        None => (None, seen),
    };
    let (parts, seen) = numbered_parts(ty.parts, seen);
    (TypeView { id, tag: ty.tag, handle, parts }, seen)
}

/// Parts with their types numbered, and all the types that occurred.
pub open spec fn numbered_parts(
    parts: Seq<PartView<ComponentAnyTypeId>>,
    seen: Seq<ComponentAnyTypeId>,
) -> (Seq<PartView<usize>>, Seq<ComponentAnyTypeId>)
    decreases parts,
{
    if parts.len() == 0 {
        (Seq::empty(), seen)
    } else {
        let (before, seen) = numbered_parts(parts.drop_last(), seen);
        let (value, seen) = match parts.last().value {
            ValueView::Absent => (ValueView::Absent, seen),
            ValueView::Primitive => (ValueView::Primitive, seen),
            ValueView::Defined(ty) => {
                let (ty, seen) = numbered_type(ty, seen);
                (ValueView::Defined(ty), seen)
            },
        };
        (before.push(PartView { name: parts.last().name, value }), seen)
    }
}

/// A type that is imported or exported with its types numbered, and all the types that occurred.
pub open spec fn numbered_data(
    data: Option<DataView<ComponentAnyTypeId>>,
    seen: Seq<ComponentAnyTypeId>,
) -> (Option<DataView<usize>>, Seq<ComponentAnyTypeId>) {
    match data {
        Some(data) => {
            let (created, seen) = numbered_id(data.created, seen);
            let (aliases, seen) = numbered_ids(data.aliases, seen);
            let (ty, seen) = numbered_type(data.ty, seen);
            (Some(DataView { created, aliases, ty }), seen)
        },
        None => (None, seen),
    }
}

/// A shape with its types numbered, and all the types that occurred.
pub open spec fn numbered(
    shape: ShapeView<ComponentAnyTypeId>,
    seen: Seq<ComponentAnyTypeId>,
) -> (ShapeView<usize>, Seq<ComponentAnyTypeId>)
    decreases shape,
{
    let (data, seen) = numbered_data(shape.data, seen);
    let (signature, seen) = numbered_parts(shape.signature, seen);
    let (imports, seen) = numbered_all(shape.imports, seen);
    let (exports, seen) = numbered_all(shape.exports, seen);
    (ShapeView { kind: shape.kind, data, signature, imports, exports }, seen)
}

/// Named shapes with their types numbered, and all the types that occurred.
pub open spec fn numbered_all(
    list: Seq<ExternView<ComponentAnyTypeId>>,
    seen: Seq<ComponentAnyTypeId>,
) -> (Seq<ExternView<usize>>, Seq<ComponentAnyTypeId>)
    decreases list,
{
    if list.len() == 0 {
        (Seq::empty(), seen)
    } else {
        let (before, seen) = numbered_all(list.drop_last(), seen);
        let (shape, seen) = numbered(list.last().shape, seen);
        let item = ExternView {
            name: list.last().name,
            kind: list.last().kind,
            implements: list.last().implements,
            shape,
        };
        (before.push(item), seen)
    }
}

/// A named shape with its types numbered, and all the types that occurred.
pub open spec fn numbered_extern(
    item: ExternView<ComponentAnyTypeId>,
    seen: Seq<ComponentAnyTypeId>,
) -> (ExternView<usize>, Seq<ComponentAnyTypeId>) {
    let (shape, seen) = numbered(item.shape, seen);
    (ExternView { name: item.name, kind: item.kind, implements: item.implements, shape }, seen)
}

/// What a component imports and exports with its types numbered, and all the types that occurred.
pub open spec fn numbered_ports(types: Types, ports: Seq<Port>) -> (
    Seq<(bool, ExternView<usize>)>,
    Seq<ComponentAnyTypeId>,
)
    decreases ports.len(),
{
    if ports.len() == 0 {
        (Seq::empty(), Seq::empty())
    } else {
        let (before, seen) = numbered_ports(types, ports.drop_last());
        match port_view(types, ports.last()) {
            Some(view) => {
                let (item, seen) = numbered_extern(view, seen);
                (before.push((ports.last().1, item)), seen)
            },
            None => (before, seen),
        }
    }
}

// ---------------------------------------------------------------------------
// Reading what a validated binary holds
// ---------------------------------------------------------------------------

/// What a binary imports and exports as a component, in the order of its sections: whether it is imported, and
/// what it is. There is nothing where the bytes are no valid binary.
pub uninterp spec fn binary_items(data: Seq<u8>) -> Option<Seq<(bool, ExternView<usize>)>>;

/// `wasmparser::Validator` with all features, fed with each payload that `wasmparser::Parser` finds, checks
/// all of a binary but the bodies of its functions, and ends with its types. The payloads that are sections of
/// imports and exports have their names; `Validator::types` tells whether a component stands around the one
/// that they belong to. What comes out is named, not spelt out. The types themselves are made anew with each
/// call: only which of them are the same rests on the bytes.
#[verifier::external_body]
fn validate(data: &[u8]) -> (res: Option<(Types, Vec<Port>)>)
    ensures
        match res {
            Some(r) => binary_items(data@) == Some(numbered_ports(r.0, r.1@).0),
            None => binary_items(data@) is None,
        },
{
    let mut validator = Validator::new_with_features(WasmFeatures::all());
    let (mut types, mut ports) = (None, vec![]);
    for payload in Parser::new(0).parse_all(data) {
        let payload = payload.ok()?;
        if let ValidPayload::End(end) = validator.payload(&payload).ok()? {
            types = Some(end);
        }
        let outer = validator.types(1).is_none();
        match payload {
            Payload::ComponentImportSection(s) => for i in s { ports.push((i.ok()?.name.name.to_string(), true, outer)) },
            Payload::ComponentExportSection(s) => for e in s { ports.push((e.ok()?.name.name.to_string(), false, outer)) },
            _ => {},
        }
    }
    Some((types?, ports))
}

/// `Types::component_item_for_import` gives what a component imports under the name.
#[verifier::external_body]
fn import_item(types: &Types, name: &str) -> (res: Option<NamedEntity>)
    ensures
        match res {
            Some(item) => entity_view(*types, item.entity) is Some && import_view(*types, name@)
                == Some(named_view(*types, item)),
            None => import_view(*types, name@) is None,
        },
{
    types.component_item_for_import(name).map(|i| NamedEntity {
        name: name.to_string(),
        implements: i.implements.clone(),
        suffix: i.version_suffix.clone(),
        entity: i.ty,
    })
}

/// `Types::component_item_for_export` gives what a component exports under the name.
#[verifier::external_body]
fn export_item(types: &Types, name: &str) -> (res: Option<NamedEntity>)
    ensures
        match res {
            Some(item) => entity_view(*types, item.entity) is Some && export_view(*types, name@)
                == Some(named_view(*types, item)),
            None => export_view(*types, name@) is None,
        },
{
    types.component_item_for_export(name).map(|i| NamedEntity {
        name: name.to_string(),
        implements: i.implements.clone(),
        suffix: i.version_suffix.clone(),
        entity: i.ty,
    })
}

/// The variants of `wasmparser::component_types::ComponentEntityType`, and those of the type that a
/// `Type` refers to, say of what kind the entity is.
#[verifier::external_body]
fn entity_kind(entity: &ComponentEntityType) -> (res: ShapeKind)
    ensures
        forall|types: Types|
            (#[trigger] entity_view(types, *entity)) matches Some(view) ==> res == view.kind,
{
    match entity {
        ComponentEntityType::Func(_) => ShapeKind::Function,
        ComponentEntityType::Instance(_) => ShapeKind::Instance,
        ComponentEntityType::Component(_) => ShapeKind::Component,
        ComponentEntityType::Module(_) | ComponentEntityType::Value(_) => ShapeKind::Other,
        ComponentEntityType::Type { referenced, .. } => match referenced {
            ComponentAnyTypeId::Defined(_) | ComponentAnyTypeId::Resource(_) => ShapeKind::DataType,
            ComponentAnyTypeId::Func(_) | ComponentAnyTypeId::Instance(_) => ShapeKind::OtherType,
            ComponentAnyTypeId::Component(_) => ShapeKind::ComponentType,
        },
    }
}

/// The variant `Type` of `wasmparser::component_types::ComponentEntityType` has the type that it makes known
/// and the one that this stands for. No other entity has types.
#[verifier::external_body]
fn entity_types(entity: &ComponentEntityType) -> (res: Option<
    (ComponentAnyTypeId, ComponentAnyTypeId),
>)
    ensures
        forall|types: Types|
            (#[trigger] entity_view(types, *entity)) matches Some(view) ==> if view.kind
                == ShapeKind::DataType {
                &&& res matches Some(r)
                &&& view.data == Some(data_view(types, r.0, r.1))
                &&& defined_id(r.1) matches Some(id) ==> type_view(types, id) is Some
            } else {
                view.data is None
            },
{
    match entity {
        ComponentEntityType::Type { referenced, created } => Some((*created, *referenced)),
        _ => None,
    }
}

/// Indexing `wasmparser::types::Types` with the type of an instance or of a component gives what it imports
/// and exports, in order. Every other entity has neither. The index has to be one of these types.
#[verifier::external_body]
fn entity_parts(types: &Types, entity: &ComponentEntityType) -> (res: (
    Vec<NamedEntity>,
    Vec<NamedEntity>,
))
    requires
        entity_view(*types, *entity) is Some,
    ensures
        entity_view(*types, *entity)->0.imports == entity_views(*types, res.0@),
        entity_view(*types, *entity)->0.exports == entity_views(*types, res.1@),
        entities_belong(*types, res.0@),
        entities_belong(*types, res.1@),
{
    let list = |items: &IndexMap<String, ComponentItem>| {
        let each = |(name, i): (&String, &ComponentItem)| NamedEntity {
            name: name.clone(), implements: i.implements.clone(), suffix: i.version_suffix.clone(), entity: i.ty,
        };
        items.iter().map(each).collect()
    };
    match entity {
        ComponentEntityType::Instance(id) => (vec![], list(&types[*id].exports)),
        ComponentEntityType::Component(id)
        | ComponentEntityType::Type { referenced: ComponentAnyTypeId::Component(id), .. } => (
            list(&types[*id].imports),
            list(&types[*id].exports),
        ),
        _ => (vec![], vec![]),
    }
}

/// Indexing `wasmparser::types::Types` with the type of a function gives what it takes and returns. Every
/// other entity has neither. The index has to be one of these types.
#[verifier::external_body]
fn entity_signature(types: &Types, entity: &ComponentEntityType) -> (res: Vec<
    (String, Option<ComponentValType>),
>)
    requires
        entity_view(*types, *entity) is Some,
    ensures
        entity_view(*types, *entity)->0.signature == part_views(*types, res@),
        parts_belong(*types, res@),
{
    match entity {
        ComponentEntityType::Func(id) => {
            let params = types[*id].params.iter().map(|(name, ty)| (name.to_string(), Some(*ty)));
            params.chain([(String::new(), types[*id].result)]).collect()
        },
        _ => vec![],
    }
}

/// The variant `Type` of `wasmparser::component_types::ComponentValType` has a type of values; every other
/// one is a primitive type.
#[verifier::external_body]
fn read_value_id(value: &ComponentValType) -> (res: Option<ComponentDefinedTypeId>)
    ensures
        res == value_id(*value),
{
    match value {
        ComponentValType::Type(id) => Some(*id),
        ComponentValType::Primitive(_) => None,
    }
}

/// The variant `Defined` of `wasmparser::component_types::ComponentAnyTypeId` has a type of values.
#[verifier::external_body]
fn read_defined_id(id: &ComponentAnyTypeId) -> (res: Option<ComponentDefinedTypeId>)
    ensures
        res == defined_id(*id),
{
    match id {
        ComponentAnyTypeId::Defined(id) => Some(*id),
        _ => None,
    }
}

/// `Types::peel_alias` gives the type that a type stands for. This comes to an end.
#[verifier::external_body]
fn read_alias(types: &Types, id: &ComponentAnyTypeId) -> (res: Option<ComponentAnyTypeId>)
    ensures
        match res {
            Some(next) => alias_view(*types, *id) == seq![next] + alias_view(*types, next),
            None => alias_view(*types, *id) == Seq::<ComponentAnyTypeId>::empty(),
        },
{
    types.peel_alias(*id)
}

/// The conversion from `wasmparser::component_types::ComponentDefinedTypeId` to `ComponentAnyTypeId` gives the
/// type of values as one among all types.
#[verifier::external_body]
fn any_id(id: &ComponentDefinedTypeId) -> (res: ComponentAnyTypeId)
    ensures
        forall|types: Types| (#[trigger] type_view(types, *id)) matches Some(ty) ==> res == ty.id,
{
    (*id).into()
}

/// The variants of `wasmparser::component_types::ComponentDefinedType`, which indexing `Types` gives, say how a
/// type is made up. The index has to be one of these types.
#[verifier::external_body]
fn type_tag(types: &Types, id: &ComponentDefinedTypeId) -> (res: TypeTag)
    requires
        type_view(*types, *id) is Some,
    ensures
        res == type_view(*types, *id)->0.tag,
{
    match &types[*id] {
        ComponentDefinedType::Primitive(_) => TypeTag::Primitive,
        ComponentDefinedType::Record(_) => TypeTag::Record,
        ComponentDefinedType::Variant(_) => TypeTag::Variant,
        ComponentDefinedType::List(_) => TypeTag::List,
        ComponentDefinedType::Map(_, _) => TypeTag::MapOf,
        ComponentDefinedType::FixedLengthList(_, n) => TypeTag::FixedLengthList(*n),
        ComponentDefinedType::Tuple(_) => TypeTag::Tuple,
        ComponentDefinedType::Flags(_) | ComponentDefinedType::Enum(_) => TypeTag::Labels,
        ComponentDefinedType::Option(_) => TypeTag::Option,
        ComponentDefinedType::Result { .. } => TypeTag::Result,
        ComponentDefinedType::Own(_) | ComponentDefinedType::Borrow(_) => TypeTag::Handle,
        ComponentDefinedType::Future(_) => TypeTag::Future,
        ComponentDefinedType::Stream(_) => TypeTag::Stream,
    }
}

/// The variants `Own` and `Borrow` of `wasmparser::component_types::ComponentDefinedType` have a resource. No
/// other type has one. The index has to be one of these types.
#[verifier::external_body]
fn type_handle(types: &Types, id: &ComponentDefinedTypeId) -> (res: Option<ComponentAnyTypeId>)
    requires
        type_view(*types, *id) is Some,
    ensures
        res == type_view(*types, *id)->0.handle,
{
    match &types[*id] {
        ComponentDefinedType::Own(id) | ComponentDefinedType::Borrow(id) => Some((*id).into()),
        _ => None,
    }
}

/// The variants `Record` and `Variant` of `wasmparser::component_types::ComponentDefinedType` have fields and
/// cases with names, in order. The index has to be one of these types.
#[verifier::external_body]
fn named_parts(types: &Types, id: &ComponentDefinedTypeId) -> (res: Vec<
    (String, Option<ComponentValType>),
>)
    requires
        type_view(*types, *id) is Some,
    ensures
        if has_names(type_view(*types, *id)->0.tag) {
            type_view(*types, *id)->0.parts == part_views(*types, res@)
        } else {
            res@.len() == 0
        },
        parts_belong(*types, res@),
{
    match &types[*id] {
        ComponentDefinedType::Record(r) => {
            r.fields.iter().map(|(name, ty)| (name.to_string(), Some(*ty))).collect()
        },
        ComponentDefinedType::Variant(v) => {
            v.cases.iter().map(|(name, case)| (name.to_string(), case.ty)).collect()
        },
        _ => vec![],
    }
}

/// The other variants of `wasmparser::component_types::ComponentDefinedType` have elements without names, in
/// order, or none at all. The index has to be one of these types.
#[verifier::external_body]
fn plain_parts(types: &Types, id: &ComponentDefinedTypeId) -> (res: Vec<
    (String, Option<ComponentValType>),
>)
    requires
        type_view(*types, *id) is Some,
    ensures
        if has_names(type_view(*types, *id)->0.tag) {
            res@.len() == 0
        } else {
            type_view(*types, *id)->0.parts == part_views(*types, res@)
        },
        parts_belong(*types, res@),
{
    let parts = match &types[*id] {
        ComponentDefinedType::Tuple(t) => t.types.iter().map(|ty| Some(*ty)).collect(),
        ComponentDefinedType::List(t)
        | ComponentDefinedType::Option(t)
        | ComponentDefinedType::FixedLengthList(t, _) => vec![Some(*t)],
        ComponentDefinedType::Map(k, v) => vec![Some(*k), Some(*v)],
        ComponentDefinedType::Result { ok, err } => vec![*ok, *err],
        ComponentDefinedType::Future(t) | ComponentDefinedType::Stream(t) => vec![*t],
        _ => vec![],
    };
    parts.into_iter().map(|ty| (String::new(), ty)).collect()
}

/// Whether the parts of such a type have names.
pub open spec fn has_names(tag: TypeTag) -> bool {
    tag == TypeTag::Record || tag == TypeTag::Variant
}

/// `==` on `wasmparser::component_types::ComponentAnyTypeId`, which is derived, says whether two types are
/// the same.
#[verifier::external_body]
fn same_type(a: &ComponentAnyTypeId, b: &ComponentAnyTypeId) -> (res: bool)
    ensures
        res == (*a == *b),
{
    *a == *b
}

/// Numbers a type.
fn number_id(id: ComponentAnyTypeId, seen: &mut Vec<ComponentAnyTypeId>) -> (res: usize)
    ensures
        numbered_id(id, old(seen)@) == (res, final(seen)@),
{
    let mut i: usize = 0;
    while i < seen.len()
        invariant
            i <= seen.len(),
            seen@ == old(seen)@,
            forall|j: int| 0 <= j < i ==> seen@[j] != id,
        decreases seen.len() - i,
    {
        if same_type(&seen[i], &id) {
            proof {
                assert(seen@[i as int] == id);
                seen@.index_of_first_ensures(id);
                assert(seen@.index_of_first(id) == Some(i as int));
            }
            return i;
        }
        i += 1;
    }
    assert(!seen@.contains(id));
    seen.push(id);
    i
}

/// Numbers what a type stands for, what that stands for, and so on.
fn number_aliases(types: &Types, id: ComponentAnyTypeId, seen: &mut Vec<ComponentAnyTypeId>) -> (res:
    Vec<usize>)
    ensures
        (res@, final(seen)@) == numbered_ids(alias_view(*types, id), old(seen)@),
{
    let ghost all = alias_view(*types, id);
    let ghost start = seen@;
    let mut out: Vec<usize> = Vec::new();
    let mut next = read_alias(types, &id);
    let ghost mut done: int = 0;
    assert(all.take(0) =~= Seq::<ComponentAnyTypeId>::empty());
    while next.is_some()
        invariant
            0 <= done <= all.len(),
            all.skip(done) == (match next {
                Some(n) => seq![n] + alias_view(*types, n),
                None => Seq::<ComponentAnyTypeId>::empty(),
            }),
            (out@, seen@) == numbered_ids(all.take(done), start),
        decreases all.len() - done,
    {
        let current = match next {
            Some(current) => current,
            None => {
                return out;
            },
        };
        proof {
            assert((seq![current] + alias_view(*types, current)).len() > 0);
            assert(all.skip(done).len() == all.len() - done);
            assert(all.skip(done)[0] == current);
            assert(all.take(done + 1).drop_last() =~= all.take(done));
            assert(all.take(done + 1).last() == current);
            assert(all.skip(done + 1) =~= all.skip(done).skip(1));
            assert(all.skip(done + 1) =~= alias_view(*types, current));
        }
        let n: usize = number_id(current, seen);
        out.push(n);
        next = read_alias(types, &current);
        proof {
            done = done + 1;
        }
    }
    assert(all.skip(done).len() == 0);
    assert(all.take(done) =~= all);
    out
}

/// Reads a type of values.
fn read_type(
    types: &Types,
    id: &ComponentDefinedTypeId,
    seen: &mut Vec<ComponentAnyTypeId>,
) -> (res: TypeShape)
    requires
        type_view(*types, *id) is Some,
    ensures
        (type_of(res), final(seen)@) == numbered_type(type_view(*types, *id)->0, old(seen)@),
    decreases type_view(*types, *id)->0, 1nat,
{
    let ghost view = type_view(*types, *id)->0;
    let tag = type_tag(types, id);
    let number: usize = number_id(any_id(id), seen);
    let handle = match type_handle(types, id) {
        Some(resource) => Some(number_id(resource, seen)),
        None => None,
    };
    let parts = match tag {
        TypeTag::Record | TypeTag::Variant => named_parts(types, id),
        _ => plain_parts(types, id),
    };
    assert(view.parts == part_views(*types, parts@));
    assert(decreases_to!(view => view.parts));
    let parts = read_parts(types, &parts, seen, Ghost(view.parts));
    TypeShape { id: number, tag, handle, parts }
}

/// Reads parts.
fn read_parts(
    types: &Types,
    list: &Vec<(String, Option<ComponentValType>)>,
    seen: &mut Vec<ComponentAnyTypeId>,
    Ghost(views): Ghost<Seq<PartView<ComponentAnyTypeId>>>,
) -> (res: Vec<PartShape>)
    requires
        parts_belong(*types, list@),
        views == part_views(*types, list@),
    ensures
        (parts_of(res@), final(seen)@) == numbered_parts(views, old(seen)@),
    decreases views, 0nat,
{
    let ghost start = seen@;
    let mut out: Vec<PartShape> = Vec::new();
    let mut i: usize = 0;
    while i < list.len()
        invariant
            i <= list.len(),
            parts_belong(*types, list@),
            views == part_views(*types, list@),
            (parts_of(out@), seen@) == numbered_parts(views.take(i as int), start),
        decreases list.len() - i,
    {
        let (name, ty) = &list[i];
        proof {
            assert(value_belongs(*types, list@[i as int].1));
            assert(views[i as int].value == value_view(*types, *ty));
            assert(decreases_to!(views => views[i as int].value));
        }
        let value = match ty {
            None => ValueShape::Absent,
            Some(v) => match read_value_id(v) {
                None => ValueShape::Primitive,
                Some(id) => {
                    assert(views[i as int].value == ValueView::Defined(type_view(*types, id)->0));
                    assert(decreases_to!(views => views[i as int].value->Defined_0));
                    ValueShape::Defined(read_type(types, &id, seen))
                },
            },
        };
        let ghost before = out@;
        out.push(PartShape { name: name.clone(), value });
        assert(out@.drop_last() =~= before);
        assert(views.take(i + 1).drop_last() =~= views.take(i as int));
        i += 1;
    }
    assert(views.take(i as int) =~= views);
    out
}

/// Reads a type that is imported or exported.
fn read_data(
    types: &Types,
    created: ComponentAnyTypeId,
    referenced: ComponentAnyTypeId,
    seen: &mut Vec<ComponentAnyTypeId>,
) -> (res: DataShape)
    requires
        defined_id(referenced) matches Some(id) ==> type_view(*types, id) is Some,
    ensures
        (data_of(Some(res)), final(seen)@) == numbered_data(
            Some(data_view(*types, created, referenced)),
            old(seen)@,
        ),
{
    let created: usize = number_id(created, seen);
    let aliases = number_aliases(types, referenced, seen);
    let ty = match read_defined_id(&referenced) {
        Some(id) => read_type(types, &id, seen),
        None => {
            let id: usize = number_id(referenced, seen);
            let ty = TypeShape { id, tag: TypeTag::Resource, handle: None, parts: Vec::new() };
            assert(type_of(ty).parts =~= Seq::empty());
            ty
        },
    };
    DataShape { created, aliases, ty }
}

/// Reads the shape of an entity.
fn read_entity(
    types: &Types,
    entity: &ComponentEntityType,
    seen: &mut Vec<ComponentAnyTypeId>,
) -> (res: Shape)
    requires
        entity_view(*types, *entity) is Some,
    ensures
        (shape_of(res), final(seen)@) == numbered(entity_view(*types, *entity)->0, old(seen)@),
    decreases entity_view(*types, *entity)->0, 1nat,
{
    let ghost view = entity_view(*types, *entity)->0;
    let kind = entity_kind(entity);
    let (imports, exports) = entity_parts(types, entity);
    let signature = entity_signature(types, entity);
    let known = entity_types(entity);
    let data = match (kind, known) {
        (ShapeKind::DataType, Some((created, referenced))) => Some(
            read_data(types, created, referenced, seen),
        ),
        _ => None,
    };
    let signature = read_parts(types, &signature, seen, Ghost(view.signature));
    let imports = read_entities(types, &imports, seen, Ghost(view.imports));
    let exports = read_entities(types, &exports, seen, Ghost(view.exports));
    Shape { kind, data, signature, imports, exports }
}

/// Reads a named entity.
fn read_extern(
    types: &Types,
    item: &NamedEntity,
    seen: &mut Vec<ComponentAnyTypeId>,
) -> (res: Extern)
    requires
        entity_view(*types, item.entity) is Some,
    ensures
        (extern_of(res), final(seen)@) == numbered_extern(named_view(*types, *item), old(seen)@),
    decreases entity_view(*types, item.entity)->0, 2nat,
{
    let shape = read_entity(types, &item.entity, seen);
    let kind = read_name(item.name.as_str(), &item.suffix);
    let implements = match &item.implements {
        Some(name) => Some((name.clone(), read_name(name.as_str(), &item.suffix))),
        None => None,
    };
    Extern { name: item.name.clone(), kind, implements, shape }
}

/// Reads named entities.
fn read_entities(
    types: &Types,
    list: &Vec<NamedEntity>,
    seen: &mut Vec<ComponentAnyTypeId>,
    Ghost(views): Ghost<Seq<ExternView<ComponentAnyTypeId>>>,
) -> (res: Vec<Extern>)
    requires
        entities_belong(*types, list@),
        views == entity_views(*types, list@),
    ensures
        (externs_of(res@), final(seen)@) == numbered_all(views, old(seen)@),
    decreases views, 0nat,
{
    let ghost start = seen@;
    let mut out: Vec<Extern> = Vec::new();
    let mut i: usize = 0;
    while i < list.len()
        invariant
            i <= list.len(),
            entities_belong(*types, list@),
            views == entity_views(*types, list@),
            (externs_of(out@), seen@) == numbered_all(views.take(i as int), start),
        decreases list.len() - i,
    {
        proof {
            assert(views[i as int] == named_view(*types, list@[i as int]));
            assert(entity_view(*types, list@[i as int].entity) == Some(views[i as int].shape));
            assert(decreases_to!(views => views[i as int].shape));
        }
        let item = read_extern(types, &list[i], seen);
        let ghost before = out@;
        out.push(item);
        assert(out@.drop_last() =~= before);
        assert(views.take(i + 1).drop_last() =~= views.take(i as int));
        i += 1;
    }
    assert(views.take(i as int) =~= views);
    out
}

/// Reads what a component imports and exports, in the order of its sections: whether it is imported, and what
/// it is. A core module has nothing of the kind. There is nothing where the bytes are no valid binary.
pub fn read_items(data: &[u8]) -> (res: Option<Vec<(bool, Extern)>>)
    ensures
        match res {
            Some(items) => binary_items(data@) == Some(items_of(items@)),
            None => binary_items(data@) is None,
        },
{
    let (types, ports) = match validate(data) {
        Some(r) => r,
        None => {
            return None;
        },
    };
    let mut seen: Vec<ComponentAnyTypeId> = Vec::new();
    let mut out: Vec<(bool, Extern)> = Vec::new();
    let mut i: usize = 0;
    assert(items_of(out@) =~= Seq::empty());
    assert(ports@.take(0) =~= Seq::empty());
    while i < ports.len()
        invariant
            i <= ports.len(),
            (items_of(out@), seen@) == numbered_ports(types, ports@.take(i as int)),
        decreases ports.len() - i,
    {
        let (name, imported, outer) = &ports[i];
        assert(ports@.take(i + 1).drop_last() =~= ports@.take(i as int));
        if *outer {
            let known = if *imported {
                import_item(&types, name.as_str())
            } else {
                export_item(&types, name.as_str())
            };
            if let Some(entity) = known {
                let item = read_extern(&types, &entity, &mut seen);
                let ghost before = out@;
                out.push((*imported, item));
                assert(items_of(out@) =~= items_of(before).push((*imported, extern_of(item))));
            }
        }
        i += 1;
    }
    assert(ports@.take(i as int) =~= ports@);
    Some(out)
}

// ---------------------------------------------------------------------------
// Laws
// ---------------------------------------------------------------------------

/// A type keeps its number, and different types have different ones: the number of a type is its place among the types
/// that occurred, which stay where they are.
pub proof fn law_numbers_tell_types_apart(id: ComponentAnyTypeId, seen: Seq<ComponentAnyTypeId>)
    requires
        seen.no_duplicates(),
        seen.len() < usize::MAX,
    ensures
        ({
            let (n, after) = numbered_id(id, seen);
            &&& n < after.len()
            &&& after[n as int] == id
            &&& after.no_duplicates()
            &&& seen.is_prefix_of(after)
            &&& after.len() <= seen.len() + 1
            &&& numbered_id(id, after) == (n, after)
        }),
{
    let (n, after) = numbered_id(id, seen);
    if seen.contains(id) {
        seen.index_of_first_ensures(id);
    } else {
        assert(after[seen.len() as int] == id);
        assert(after.contains(id));
        after.index_of_first_ensures(id);
        let k = after.index_of_first(id)->0;
        if k < seen.len() {
            assert(seen[k] == id);
        }
        assert(seen =~= after.take(seen.len() as int));
    }
}

} // verus!
