//! What becomes of a component whose interface is decoded: it is described by a WIT, it is refused, or there is
//! no telling, because the types do not fit together in a way that a decoder takes for granted.
//!
//! A component is decoded into a world. A component that imports nothing and exports types of components is
//! the encoding of a package, and these types are its parts. Where the first part is named after the package
//! and `wit`, it is the package as a whole. Where it has a plain name, each part is a component type that
//! exports one interface or one world of the package. What is met on the way is written down on a desk.

use vstd::prelude::*;

use crate::oci::shape::ExternView;
use crate::oci::shape::NameView;
use crate::oci::shape::PartView;
use crate::oci::shape::ShapeKind;
use crate::oci::shape::ShapeView;
use crate::oci::shape::TypeTag;
use crate::oci::shape::TypeView;
use crate::oci::shape::ValueView;
use crate::text::same_text;

verus! {

/// Why a component is not decoded.
#[derive(Clone, Copy, Debug, PartialEq, Eq, Structural)]
pub enum Trouble {
    /// It is refused.
    Refused,
    /// The decoder does not get over it.
    Stuck,
}

// ---------------------------------------------------------------------------
// Entries
// ---------------------------------------------------------------------------

/// An entry: where it belongs, its name, and what it stands for.
pub type Entry = (usize, Seq<char>, usize);

/// What the last entry of the name stands for.
pub open spec fn lookup(log: Seq<Entry>, place: usize, name: Seq<char>) -> Option<usize>
    decreases log.len(),
{
    if log.len() == 0 {
        None
    } else if log.last().0 == place && log.last().1 == name {
        Some(log.last().2)
    } else {
        lookup(log.drop_last(), place, name)
    }
}

/// Entries in the order in which they were made.
pub struct Log {
    pub entries: Vec<(usize, String, usize)>,
}

impl View for Log {
    type V = Seq<Entry>;

    open spec fn view(&self) -> Seq<Entry> {
        self.entries@.map_values(|e: (usize, String, usize)| (e.0, e.1@, e.2))
    }
}

impl Log {
    /// There is no entry yet.
    pub fn new() -> (res: Self)
        ensures
            res@ == Seq::<Entry>::empty(),
    {
        let res = Log { entries: Vec::new() };
        assert(res@ =~= Seq::<Entry>::empty());
        res
    }

    /// Makes an entry.
    pub fn add(&mut self, place: usize, name: &str, meaning: usize)
        ensures
            final(self)@ == old(self)@.push((place, name@, meaning)),
    {
        self.entries.push((place, name.to_string(), meaning));
        assert(self@ =~= old(self)@.push((place, name@, meaning)));
    }

    /// What the last entry of the name stands for.
    pub fn find(&self, place: usize, name: &str) -> (res: Option<usize>)
        ensures
            res == lookup(self@, place, name@),
    {
        let mut i: usize = self.entries.len();
        assert(self@.take(i as int) =~= self@);
        while i > 0
            invariant
                i <= self.entries.len(),
                lookup(self@.take(i as int), place, name@) == lookup(self@, place, name@),
            decreases i,
        {
            i -= 1;
            let entry = &self.entries[i];
            assert(self@.take(i + 1).last() == (entry.0, entry.1@, entry.2));
            assert(self@.take(i + 1).drop_last() =~= self@.take(i as int));
            if entry.0 == place && same_text(entry.1.as_str(), name) {
                return Some(entry.2);
            }
        }
        None
    }
}

// ---------------------------------------------------------------------------
// The desk
// ---------------------------------------------------------------------------

/// What a part of a decoded type is.
#[derive(Clone, Copy, Debug, PartialEq, Eq, Structural)]
pub enum Child {
    Absent,
    Primitive,
    /// The decoded type at an index.
    Decoded(usize),
}

/// A decoded type.
pub struct WitType {
    /// The decoded type that it is another name for.
    pub alias: Option<usize>,
    /// The scope that it has its name in.
    pub owner: Option<usize>,
    pub tag: TypeTag,
    pub parts: Vec<(String, Child)>,
}

/// The contents of a decoded type.
pub struct WitTypeView {
    pub alias: Option<usize>,
    pub owner: Option<usize>,
    pub tag: TypeTag,
    pub parts: Seq<(Seq<char>, Child)>,
}

/// The contents of the parts of a decoded type.
pub open spec fn children_of(parts: Seq<(String, Child)>) -> Seq<(Seq<char>, Child)> {
    parts.map_values(|p: (String, Child)| (p.0@, p.1))
}

impl View for WitType {
    type V = WitTypeView;

    open spec fn view(&self) -> WitTypeView {
        WitTypeView {
            alias: self.alias,
            owner: self.owner,
            tag: self.tag,
            parts: children_of(self.parts@),
        }
    }
}

/// The contents of decoded types.
pub open spec fn wit_types(types: Seq<WitType>) -> Seq<WitTypeView> {
    types.map_values(|t: WitType| t@)
}

/// What was met so far.
pub struct DeskView {
    /// The decoded types.
    pub types: Seq<WitTypeView>,
    /// The decoded type of each type that was met.
    pub known: Seq<Entry>,
    /// The scopes, which are interfaces and worlds, each with the index of its package where it is an
    /// interface of another package.
    pub homes: Seq<Option<usize>>,
    /// The types of each interface.
    pub members: Seq<Entry>,
    /// The functions of each interface.
    pub functions: Seq<Entry>,
    /// The resources of each scope.
    pub resources: Seq<Entry>,
    /// The indices of the other packages.
    pub packages: Seq<Entry>,
    /// The interfaces of the other packages.
    pub foreign: Seq<Entry>,
    /// The interfaces of the package by their full names.
    pub named: Seq<Entry>,
    /// The interfaces of the package.
    pub interfaces: Seq<Entry>,
    /// The worlds of the package.
    pub worlds: Seq<Entry>,
    /// Whether an interface belongs to the package as a whole and has no full name.
    pub loose: bool,
}

/// What was met so far.
pub struct Desk {
    pub types: Vec<WitType>,
    pub known: Log,
    pub homes: Vec<Option<usize>>,
    pub members: Log,
    pub functions: Log,
    pub resources: Log,
    pub packages: Log,
    pub foreign: Log,
    pub named: Log,
    pub interfaces: Log,
    pub worlds: Log,
    pub loose: bool,
}

impl View for Desk {
    type V = DeskView;

    open spec fn view(&self) -> DeskView {
        DeskView {
            types: wit_types(self.types@),
            known: self.known@,
            homes: self.homes@,
            members: self.members@,
            functions: self.functions@,
            resources: self.resources@,
            packages: self.packages@,
            foreign: self.foreign@,
            named: self.named@,
            interfaces: self.interfaces@,
            worlds: self.worlds@,
            loose: self.loose,
        }
    }
}

/// The desk on which nothing was written down yet.
pub open spec fn empty_desk() -> DeskView {
    DeskView {
        types: Seq::empty(),
        known: Seq::empty(),
        homes: Seq::empty(),
        members: Seq::empty(),
        functions: Seq::empty(),
        resources: Seq::empty(),
        packages: Seq::empty(),
        foreign: Seq::empty(),
        named: Seq::empty(),
        interfaces: Seq::empty(),
        worlds: Seq::empty(),
        loose: false,
    }
}

/// The desk with one more decoded type.
pub open spec fn with_type(
    desk: DeskView,
    alias: Option<usize>,
    owner: Option<usize>,
    tag: TypeTag,
    parts: Seq<(Seq<char>, Child)>,
) -> DeskView {
    DeskView { types: desk.types.push(WitTypeView { alias, owner, tag, parts }), ..desk }
}

/// The desk on which the type is known by its last decoded type.
pub open spec fn with_known(desk: DeskView, id: usize, decoded: usize) -> DeskView {
    DeskView { known: desk.known.push((id, ""@, decoded)), ..desk }
}

/// The decoded type of a type.
pub open spec fn known_as(desk: DeskView, id: usize) -> Option<usize> {
    lookup(desk.known, id, ""@)
}

// ---------------------------------------------------------------------------
// Types
// ---------------------------------------------------------------------------

/// Decodes the parts of a type, from the given one on.
pub open spec fn convert_parts(
    desk: DeskView,
    parts: Seq<PartView<usize>>,
    i: int,
    done: Seq<(Seq<char>, Child)>,
) -> Result<(DeskView, Seq<(Seq<char>, Child)>), Trouble>
    decreases parts, parts.len() - i,
{
    if i < 0 || i >= parts.len() {
        Ok((desk, done))
    } else {
        match parts[i].value {
            ValueView::Absent => convert_parts(
                desk,
                parts,
                i + 1,
                done.push((parts[i].name, Child::Absent)),
            ),
            ValueView::Primitive => convert_parts(
                desk,
                parts,
                i + 1,
                done.push((parts[i].name, Child::Primitive)),
            ),
            ValueView::Defined(ty) => match convert_type(desk, ty) {
                Ok((desk, decoded)) => convert_parts(
                    desk,
                    parts,
                    i + 1,
                    done.push((parts[i].name, Child::Decoded(decoded))),
                ),
                Err(t) => Err(t),
            },
        }
    }
}

/// Decodes a type that is used without a name. A record, a variant and labels need one.
pub open spec fn convert_type(desk: DeskView, ty: TypeView<usize>) -> Result<
    (DeskView, usize),
    Trouble,
>
    decreases ty, 1int,
{
    match known_as(desk, ty.id) {
        Some(decoded) => Ok((desk, decoded)),
        None => match convert_defined(desk, ty) {
            Ok((desk, parts)) => match ty.tag {
                TypeTag::Record | TypeTag::Variant | TypeTag::Labels => Err(Trouble::Refused),
                _ => {
                    let decoded = desk.types.len() as usize;
                    Ok((with_known(with_type(desk, None, None, ty.tag, parts), ty.id, decoded), decoded))
                },
            },
            Err(t) => Err(t),
        },
    }
}

/// Decodes how a type is made up. The resource of a handle has to be known.
pub open spec fn convert_defined(desk: DeskView, ty: TypeView<usize>) -> Result<
    (DeskView, Seq<(Seq<char>, Child)>),
    Trouble,
>
    decreases ty, 0int,
{
    match ty.tag {
        TypeTag::Handle => match ty.handle {
            Some(resource) if known_as(desk, resource) is Some => Ok((desk, Seq::empty())),
            _ => Err(Trouble::Stuck),
        },
        _ => convert_parts(desk, ty.parts, 0, Seq::empty()),
    }
}

/// The decoded type of the first of the types, from the given one on, that is known.
pub open spec fn first_known(desk: DeskView, ids: Seq<usize>, i: int) -> Option<usize>
    decreases ids.len() - i,
{
    if i < 0 || i >= ids.len() {
        None
    } else {
        match known_as(desk, ids[i]) {
            Some(decoded) => Some(decoded),
            None => first_known(desk, ids, i + 1),
        }
    }
}

/// Decodes a type that has a name in a scope, and makes it known. It is another name for a type where it stands
/// for one that is known. A type of functions, instances or components is none.
pub open spec fn register_type(desk: DeskView, item: ExternView<usize>, scope: usize) -> Result<
    (DeskView, usize),
    Trouble,
> {
    match item.shape.data {
        None => Err(Trouble::Stuck),
        Some(data) => {
            let alias = first_known(desk, seq![data.ty.id] + data.aliases, 0);
            let made = if alias is Some || data.ty.tag == TypeTag::Resource {
                Ok((desk, Seq::empty()))
            } else {
                convert_defined(desk, data.ty)
            };
            match made {
                Err(t) => Err(t),
                Ok((desk, parts)) => {
                    let decoded = desk.types.len() as usize;
                    let desk = with_type(desk, alias, Some(scope), data.ty.tag, parts);
                    let desk = if alias is None && data.ty.tag == TypeTag::Resource {
                        DeskView { resources: desk.resources.push((scope, item.name, 0)), ..desk }
                    } else {
                        desk
                    };
                    if known_as(desk, data.created) is Some {
                        Err(Trouble::Refused)
                    } else {
                        Ok((with_known(desk, data.created, decoded), decoded))
                    }
                },
            }
        },
    }
}

/// Holds the parts of a type, from the given one on, against those of a decoded type, and makes the types
/// among them known.
pub open spec fn match_parts(
    types: Seq<WitTypeView>,
    known: Seq<Entry>,
    decoded: Seq<(Seq<char>, Child)>,
    parts: Seq<PartView<usize>>,
    i: int,
) -> Result<Seq<Entry>, Trouble>
    decreases parts, parts.len() - i,
{
    if i < 0 || i >= parts.len() {
        Ok(known)
    } else if decoded[i].0 != parts[i].name {
        Err(Trouble::Refused)
    } else {
        match (parts[i].value, decoded[i].1) {
            (ValueView::Absent, Child::Absent) => match_parts(types, known, decoded, parts, i + 1),
            (ValueView::Primitive, Child::Primitive) => match_parts(
                types,
                known,
                decoded,
                parts,
                i + 1,
            ),
            (ValueView::Primitive, Child::Decoded(_)) => Err(Trouble::Stuck),
            (ValueView::Defined(ty), Child::Decoded(d)) => {
                let before = lookup(known, ty.id, ""@);
                let known = known.push((ty.id, ""@, d));
                match before {
                    Some(_) => match_parts(types, known, decoded, parts, i + 1),
                    None => match match_type(types, known, d, ty) {
                        Ok(known) => match_parts(types, known, decoded, parts, i + 1),
                        Err(t) => Err(t),
                    },
                }
            },
            _ => Err(Trouble::Refused),
        }
    }
}

/// Holds a type against a decoded type, and makes the types in it known.
pub open spec fn match_type(
    types: Seq<WitTypeView>,
    known: Seq<Entry>,
    decoded: usize,
    ty: TypeView<usize>,
) -> Result<Seq<Entry>, Trouble>
    decreases ty, 0int,
{
    match ty.tag {
        TypeTag::Primitive | TypeTag::Labels | TypeTag::Handle | TypeTag::Resource => Ok(known),
        _ => if decoded >= types.len() {
            Err(Trouble::Refused)
        } else if types[decoded as int].alias is Some {
            Ok(known)
        } else if types[decoded as int].tag != ty.tag || types[decoded as int].parts.len()
            != ty.parts.len() {
            Err(Trouble::Refused)
        } else {
            match_parts(types, known, types[decoded as int].parts, ty.parts, 0)
        },
    }
}

// ---------------------------------------------------------------------------
// Interfaces
// ---------------------------------------------------------------------------

/// Decodes a function. Where its name is that of a member, the scope has the resource.
pub open spec fn convert_function(desk: DeskView, item: ExternView<usize>, scope: usize) -> Result<
    DeskView,
    Trouble,
> {
    if item.kind is Invalid {
        Err(Trouble::Stuck)
    } else {
        match convert_parts(desk, item.shape.signature, 0, Seq::empty()) {
            Err(t) => Err(t),
            Ok((desk, _)) => match item.kind {
                NameView::Label => Ok(desk),
                NameView::Member(resource) => if lookup(desk.resources, scope, resource) is Some {
                    Ok(desk)
                } else {
                    Err(Trouble::Stuck)
                },
                _ => Err(Trouble::Stuck),
            },
        }
    }
}

/// Finds the interface of another package, or makes one.
pub open spec fn foreign_interface(desk: DeskView, kind: NameView) -> Result<
    (DeskView, usize),
    Trouble,
> {
    match kind {
        NameView::Invalid => Err(Trouble::Stuck),
        NameView::Interface(Some(package), label) => {
            let (desk, home) = match lookup(desk.packages, 0, package) {
                Some(home) => (desk, home),
                None => {
                    let home = desk.packages.len() as usize;
                    (DeskView { packages: desk.packages.push((0, package, home)), ..desk }, home)
                },
            };
            match lookup(desk.foreign, home, label) {
                Some(scope) => Ok((desk, scope)),
                None => {
                    let scope = desk.homes.len() as usize;
                    Ok(
                        (
                            DeskView {
                                homes: desk.homes.push(Some(home)),
                                foreign: desk.foreign.push((home, label, scope)),
                                ..desk
                            },
                            scope,
                        ),
                    )
                },
            }
        },
        _ => Err(Trouble::Refused),
    }
}

/// Decodes what an instance exports whose interface may have it already. An interface of the package itself
/// has all that it has.
pub open spec fn import_member(
    desk: DeskView,
    item: ExternView<usize>,
    scope: usize,
    local: bool,
) -> Result<DeskView, Trouble> {
    match item.shape.kind {
        ShapeKind::DataType | ShapeKind::OtherType | ShapeKind::ComponentType => match lookup(
            desk.members,
            scope,
            item.name,
        ) {
            Some(decoded) => match item.shape.data {
                None => Err(Trouble::Stuck),
                Some(data) => match match_type(desk.types, desk.known, decoded, data.ty) {
                    Err(t) => Err(t),
                    Ok(known) => if lookup(known, data.created, ""@) is Some {
                        Err(Trouble::Stuck)
                    } else {
                        Ok(with_known(DeskView { known, ..desk }, data.created, decoded))
                    },
                },
            },
            None => if local {
                Err(Trouble::Refused)
            } else {
                define_type(desk, item, scope)
            },
        },
        ShapeKind::Function => if lookup(desk.functions, scope, item.name) is Some {
            Ok(desk)
        } else if local {
            Err(Trouble::Refused)
        } else {
            define_function(desk, item, scope)
        },
        _ => Err(Trouble::Refused),
    }
}

/// Decodes a type of an interface.
pub open spec fn define_type(desk: DeskView, item: ExternView<usize>, scope: usize) -> Result<
    DeskView,
    Trouble,
> {
    match register_type(desk, item, scope) {
        Ok((desk, decoded)) => Ok(
            DeskView { members: desk.members.push((scope, item.name, decoded)), ..desk },
        ),
        Err(t) => Err(t),
    }
}

/// Decodes a function of an interface.
pub open spec fn define_function(desk: DeskView, item: ExternView<usize>, scope: usize) -> Result<
    DeskView,
    Trouble,
> {
    match convert_function(desk, item, scope) {
        Ok(desk) => Ok(DeskView { functions: desk.functions.push((scope, item.name, 0)), ..desk }),
        Err(t) => Err(t),
    }
}

/// Decodes what an instance exports, from the given one on, whose interface may have it already.
pub open spec fn import_members(
    desk: DeskView,
    list: Seq<ExternView<usize>>,
    i: int,
    scope: usize,
    local: bool,
) -> Result<DeskView, Trouble>
    decreases list.len() - i,
{
    if i < 0 || i >= list.len() {
        Ok(desk)
    } else {
        match import_member(desk, list[i], scope, local) {
            Ok(desk) => import_members(desk, list, i + 1, scope, local),
            Err(t) => Err(t),
        }
    }
}

/// Decodes an instance whose interface has a full name.
pub open spec fn register_import(
    desk: DeskView,
    name: Seq<char>,
    kind: NameView,
    shape: ShapeView<usize>,
) -> Result<DeskView, Trouble> {
    if shape.kind != ShapeKind::Instance {
        Err(Trouble::Refused)
    } else {
        match lookup(desk.named, 0, name) {
            Some(scope) => import_members(desk, shape.exports, 0, scope, true),
            None => match foreign_interface(desk, kind) {
                Ok((desk, scope)) => import_members(desk, shape.exports, 0, scope, false),
                Err(t) => Err(t),
            },
        }
    }
}

/// Decodes what an instance exports whose interface is new.
pub open spec fn define_member(desk: DeskView, item: ExternView<usize>, scope: usize) -> Result<
    DeskView,
    Trouble,
> {
    match item.shape.kind {
        ShapeKind::DataType | ShapeKind::OtherType | ShapeKind::ComponentType => define_type(
            desk,
            item,
            scope,
        ),
        ShapeKind::Function => define_function(desk, item, scope),
        _ => Err(Trouble::Refused),
    }
}

/// Decodes what an instance exports, from the given one on, whose interface is new.
pub open spec fn define_members(
    desk: DeskView,
    list: Seq<ExternView<usize>>,
    i: int,
    scope: usize,
) -> Result<DeskView, Trouble>
    decreases list.len() - i,
{
    if i < 0 || i >= list.len() {
        Ok(desk)
    } else {
        match define_member(desk, list[i], scope) {
            Ok(desk) => define_members(desk, list, i + 1, scope),
            Err(t) => Err(t),
        }
    }
}

/// The desk with one more scope, which is no interface of another package.
pub open spec fn with_scope(desk: DeskView) -> DeskView {
    DeskView { homes: desk.homes.push(None), ..desk }
}

/// Decodes an instance with an interface of its own, or one of the package. `top` says whether it belongs to
/// the package, and not to a world.
pub open spec fn register_interface(desk: DeskView, item: ExternView<usize>, top: bool) -> Result<
    DeskView,
    Trouble,
> {
    if lookup(desk.named, 0, item.name) is Some {
        register_import(desk, item.name, item.kind, item.shape)
    } else {
        let scope = desk.homes.len() as usize;
        match item.kind {
            NameView::Interface(_, label) => match define_members(
                with_scope(desk),
                item.shape.exports,
                0,
                scope,
            ) {
                Err(t) => Err(t),
                Ok(desk) => if lookup(desk.interfaces, 0, label) is Some {
                    Err(Trouble::Stuck)
                } else {
                    Ok(
                        DeskView {
                            interfaces: desk.interfaces.push((0, label, scope)),
                            named: desk.named.push((0, item.name, scope)),
                            ..desk
                        },
                    )
                },
            },
            NameView::Label => match define_members(
                with_scope(desk),
                item.shape.exports,
                0,
                scope,
            ) {
                Err(t) => Err(t),
                Ok(desk) => Ok(DeskView { loose: desk.loose || top, ..desk }),
            },
            _ => Err(Trouble::Refused),
        }
    }
}

// ---------------------------------------------------------------------------
// Worlds
// ---------------------------------------------------------------------------

/// Decodes an instance in a world.
pub open spec fn world_instance(desk: DeskView, item: ExternView<usize>) -> Result<
    DeskView,
    Trouble,
> {
    match item.implements {
        Some((name, kind)) => register_import(desk, name, kind, item.shape),
        None => match item.kind {
            NameView::Invalid => Err(Trouble::Refused),
            NameView::Interface(_, _) => register_import(desk, item.name, item.kind, item.shape),
            _ => register_interface(desk, item, false),
        },
    }
}

/// Decodes what a world imports or exports. A component may import what no world has, unless the world is one
/// of a package.
pub open spec fn world_item(
    desk: DeskView,
    item: ExternView<usize>,
    scope: usize,
    imported: bool,
    strict: bool,
) -> Result<DeskView, Trouble> {
    match item.shape.kind {
        ShapeKind::Instance => world_instance(desk, item),
        ShapeKind::Function => convert_function(desk, item, scope),
        ShapeKind::DataType | ShapeKind::OtherType | ShapeKind::ComponentType => if imported {
            match register_type(desk, item, scope) {
                Ok((desk, _)) => Ok(desk),
                Err(t) => Err(t),
            }
        } else {
            Err(Trouble::Refused)
        },
        _ => if imported && !strict {
            Ok(desk)
        } else {
            Err(Trouble::Refused)
        },
    }
}

/// Decodes what a world of a package imports or exports, from the given one on.
pub open spec fn world_items(
    desk: DeskView,
    list: Seq<ExternView<usize>>,
    i: int,
    scope: usize,
    imported: bool,
) -> Result<DeskView, Trouble>
    decreases list.len() - i,
{
    if i < 0 || i >= list.len() {
        Ok(desk)
    } else {
        match world_item(desk, list[i], scope, imported, true) {
            Ok(desk) => world_items(desk, list, i + 1, scope, imported),
            Err(t) => Err(t),
        }
    }
}

/// Decodes a world of a package.
pub open spec fn register_world(desk: DeskView, item: ExternView<usize>) -> Result<
    DeskView,
    Trouble,
> {
    match item.kind {
        NameView::Interface(_, label) => {
            let scope = desk.homes.len() as usize;
            match world_items(with_scope(desk), item.shape.imports, 0, scope, true) {
                Err(t) => Err(t),
                Ok(desk) => match world_items(desk, item.shape.exports, 0, scope, false) {
                    Err(t) => Err(t),
                    Ok(desk) => if lookup(desk.worlds, 0, label) is Some {
                        Err(Trouble::Stuck)
                    } else {
                        Ok(DeskView { worlds: desk.worlds.push((0, label, scope)), ..desk })
                    },
                },
            }
        },
        _ => Err(Trouble::Refused),
    }
}

/// Decodes what a component imports and exports, from the given one on. Its scope is the first.
pub open spec fn component_items(
    desk: DeskView,
    items: Seq<(bool, ExternView<usize>)>,
    i: int,
) -> Result<DeskView, Trouble>
    decreases items.len() - i,
{
    if i < 0 || i >= items.len() {
        Ok(desk)
    } else {
        match world_item(desk, items[i].1, 0, items[i].0, false) {
            Ok(desk) => component_items(desk, items, i + 1),
            Err(t) => Err(t),
        }
    }
}

// ---------------------------------------------------------------------------
// Packages
// ---------------------------------------------------------------------------

/// Decodes what a part of a package imports, from the given one on.
pub open spec fn package_imports(
    desk: DeskView,
    list: Seq<ExternView<usize>>,
    i: int,
) -> Result<DeskView, Trouble>
    decreases list.len() - i,
{
    if i < 0 || i >= list.len() {
        Ok(desk)
    } else {
        match register_import(desk, list[i].name, list[i].kind, list[i].shape) {
            Ok(desk) => package_imports(desk, list, i + 1),
            Err(t) => Err(t),
        }
    }
}

/// Decodes what a package as a whole exports, from the given one on.
pub open spec fn package_exports(
    desk: DeskView,
    list: Seq<ExternView<usize>>,
    i: int,
) -> Result<DeskView, Trouble>
    decreases list.len() - i,
{
    if i < 0 || i >= list.len() {
        Ok(desk)
    } else {
        let step = match list[i].shape.kind {
            ShapeKind::Instance => register_interface(desk, list[i], true),
            ShapeKind::Component => register_world(desk, list[i]),
            _ => Err(Trouble::Refused),
        };
        match step {
            Ok(desk) => package_exports(desk, list, i + 1),
            Err(t) => Err(t),
        }
    }
}

/// Decodes a part of a package that is one interface or one world, and gives the package that this belongs to.
pub open spec fn package_part(desk: DeskView, shape: ShapeView<usize>) -> Result<
    (DeskView, Seq<char>),
    Trouble,
> {
    if shape.exports.len() != 1 {
        Err(Trouble::Refused)
    } else {
        let item = shape.exports[0];
        match (item.shape.kind, item.kind) {
            (ShapeKind::Instance, NameView::Interface(Some(package), _)) => match package_imports(
                desk,
                shape.imports,
                0,
            ) {
                Err(t) => Err(t),
                Ok(desk) => match register_interface(desk, item, true) {
                    Ok(desk) => Ok((desk, package)),
                    Err(t) => Err(t),
                },
            },
            (ShapeKind::Component, NameView::Interface(Some(package), _)) => match register_world(
                desk,
                item,
            ) {
                Ok(desk) => Ok((desk, package)),
                Err(t) => Err(t),
            },
            (ShapeKind::Instance, _) | (ShapeKind::Component, _) => Err(Trouble::Refused),
            _ => Err(Trouble::Stuck),
        }
    }
}

/// Decodes the parts of a package, from the given one on, all of which belong to one package.
pub open spec fn package_parts(
    desk: DeskView,
    items: Seq<(bool, ExternView<usize>)>,
    i: int,
    package: Option<Seq<char>>,
) -> Result<(DeskView, Option<Seq<char>>), Trouble>
    decreases items.len() - i,
{
    if i < 0 || i >= items.len() {
        Ok((desk, package))
    } else {
        match package_part(desk, items[i].1.shape) {
            Err(t) => Err(t),
            Ok((desk, name)) => if package is Some && package != Some(name) {
                Err(Trouble::Refused)
            } else {
                package_parts(desk, items, i + 1, Some(name))
            },
        }
    }
}

// ---------------------------------------------------------------------------
// What belongs together
// ---------------------------------------------------------------------------

/// What a type of an interface of another package leads to.
#[derive(Clone, Copy, Debug, PartialEq, Eq, Structural)]
pub enum Lead {
    Nowhere,
    /// To what belongs to no other package.
    Astray,
    /// From the package with the first index to the package with the second.
    Package(usize, usize),
}

/// What an entry for a type of an interface leads to.
pub open spec fn lead_of(desk: DeskView, member: Entry) -> Lead {
    if member.0 >= desk.homes.len() || member.2 >= desk.types.len() {
        Lead::Nowhere
    } else {
        let ty = desk.types[member.2 as int];
        match (desk.homes[member.0 as int], ty.alias) {
            (Some(home), Some(alias)) => if alias >= desk.types.len() || desk.types[alias as int].owner
                == ty.owner {
                Lead::Nowhere
            } else {
                match desk.types[alias as int].owner {
                    Some(scope) if scope < desk.homes.len() => match desk.homes[scope as int] {
                        Some(other) if home < desk.packages.len() && other < desk.packages.len() => {
                            Lead::Package(home, other)
                        },
                        _ => Lead::Astray,
                    },
                    _ => Lead::Astray,
                }
            },
            _ => Lead::Nowhere,
        }
    }
}

/// Whether all ways from a package are shorter than the given number of steps.
pub open spec fn comes_to_an_end(leads: Seq<Lead>, package: usize, steps: nat) -> bool
    decreases steps,
{
    steps > 0 && forall|i: int|
        0 <= i < leads.len() ==> ((#[trigger] leads[i]) matches Lead::Package(from, to) ==> from
            == package && to != package ==> comes_to_an_end(leads, to, (steps - 1) as nat))
}

/// What the types of the interfaces lead to.
pub open spec fn leads_of(desk: DeskView) -> Seq<Lead> {
    desk.members.map_values(|m: Entry| lead_of(desk, m))
}

/// Whether the package has an interface that it shares the name with one that was taken for that of another
/// package.
pub open spec fn has_twin(desk: DeskView, root: Seq<char>) -> bool {
    lookup(desk.packages, 0, root) matches Some(home) && exists|i: int|
        0 <= i < desk.foreign.len() && (#[trigger] desk.foreign[i]).0 == home && lookup(
            desk.interfaces,
            0,
            desk.foreign[i].1,
        ) is Some
}

/// Whether all that was met belongs to packages that do not use one another in a circle.
pub open spec fn holds_together(desk: DeskView, root: Seq<char>) -> bool {
    &&& !desk.loose
    &&& !has_twin(desk, root)
    &&& forall|i: int| 0 <= i < leads_of(desk).len() ==> (#[trigger] leads_of(desk)[i]) != Lead::Astray
    &&& forall|p: usize|
        p < desk.packages.len() ==> #[trigger] comes_to_an_end(leads_of(desk), p, desk.packages.len())
}

/// Ends the decoding of a package.
pub open spec fn finish(desk: DeskView, root: Seq<char>) -> Result<(), Trouble> {
    if holds_together(desk, root) {
        Ok(())
    } else {
        Err(Trouble::Stuck)
    }
}

/// Whether what a component exports is the encoding of a package.
pub open spec fn is_package(items: Seq<(bool, ExternView<usize>)>) -> bool {
    items.len() > 0 && forall|i: int|
        0 <= i < items.len() ==> !(#[trigger] items[i]).0 && items[i].1.shape.kind
            == ShapeKind::ComponentType
}

/// Decodes a package as a whole.
pub open spec fn decode_whole(
    items: Seq<(bool, ExternView<usize>)>,
    package: Option<Seq<char>>,
) -> Result<(), Trouble> {
    let part = items[0].1.shape;
    match package_imports(empty_desk(), part.imports, 0) {
        Err(t) => Err(t),
        Ok(desk) => match package {
            None => Err(Trouble::Refused),
            Some(root) => match package_exports(desk, part.exports, 0) {
                Err(t) => Err(t),
                Ok(desk) => if items.len() > 1 {
                    Err(Trouble::Refused)
                } else {
                    finish(desk, root)
                },
            },
        },
    }
}

/// Decodes a package whose parts are interfaces and worlds.
pub open spec fn decode_split(items: Seq<(bool, ExternView<usize>)>) -> Result<(), Trouble> {
    match package_parts(empty_desk(), items, 0, None) {
        Err(t) => Err(t),
        Ok((desk, package)) => match package {
            Some(root) => finish(desk, root),
            None => Err(Trouble::Refused),
        },
    }
}

/// Decodes a component as a world, which has the first scope.
pub open spec fn decode_world(items: Seq<(bool, ExternView<usize>)>) -> Result<(), Trouble> {
    match component_items(with_scope(empty_desk()), items, 0) {
        Ok(desk) => finish(desk, "root:component"@),
        Err(t) => Err(t),
    }
}

/// Decodes a component with the given imports and exports: whether each is imported, and what it is.
pub open spec fn decoding(items: Seq<(bool, ExternView<usize>)>) -> Result<(), Trouble> {
    if is_package(items) {
        match items[0].1.kind {
            NameView::Interface(package, label) if label == "wit"@ => decode_whole(items, package),
            NameView::Label => decode_split(items),
            _ => decode_world(items),
        }
    } else {
        decode_world(items)
    }
}

// ---------------------------------------------------------------------------
// Laws
// ---------------------------------------------------------------------------

/// Whether all that the function takes and returns is of primitive types.
pub open spec fn takes_primitives(item: ExternView<usize>) -> bool {
    item.shape.kind == ShapeKind::Function && forall|i: int|
        0 <= i < item.shape.signature.len() ==> (#[trigger] item.shape.signature[i]).value is Absent
            || item.shape.signature[i].value is Primitive
}

/// Whether it is a function with a plain name and primitive types, or an instance with nothing but such functions.
pub open spec fn is_plain(item: ExternView<usize>) -> bool {
    ||| takes_primitives(item) && item.kind is Label
    ||| {
        &&& item.shape.kind == ShapeKind::Instance
        &&& item.implements is None
        &&& item.kind is Label || (item.kind matches NameView::Interface(package, _) && package is Some)
        &&& forall|i: int|
            0 <= i < item.shape.exports.len() ==> takes_primitives(#[trigger] item.shape.exports[i])
                && item.shape.exports[i].kind is Label
    }
}

/// Whether all of it is plain.
pub open spec fn all_plain(items: Seq<(bool, ExternView<usize>)>) -> bool {
    forall|i: int| 0 <= i < items.len() ==> is_plain((#[trigger] items[i]).1)
}

/// Whether nothing was written down that could not hold together.
spec fn is_tidy(desk: DeskView) -> bool {
    &&& desk.members.len() == 0
    &&& desk.interfaces.len() == 0
    &&& desk.named.len() == 0
    &&& !desk.loose
}

/// A component whose functions take and return primitive types, by themselves or in instances, is always decoded.
pub proof fn law_plain_components_are_decoded(items: Seq<(bool, ExternView<usize>)>)
    requires
        all_plain(items),
    ensures
        decoding(items) == Ok::<(), Trouble>(()),
{
    if items.len() > 0 {
        assert(is_plain(items[0].1));
    }
    assert(!is_package(items)) by {
        if is_package(items) {
            assert(items[0].1.shape.kind == ShapeKind::ComponentType);
        }
    }
    let start = with_scope(empty_desk());
    lemma_plain_items(start, items, 0, items.len() as int);
    let desk = component_items(start, items, 0)->Ok_0;
    lemma_tidy_holds_together(desk, "root:component"@);
}

/// A function whose name is that of an interface has no place in a world: behind what is plain, the decoder does not get
/// over it, whatever follows.
pub proof fn law_function_named_as_interface_is_left_out(
    before: Seq<(bool, ExternView<usize>)>,
    item: (bool, ExternView<usize>),
    behind: Seq<(bool, ExternView<usize>)>,
)
    requires
        all_plain(before),
        takes_primitives(item.1),
        item.1.kind is Interface,
    ensures
        decoding(before.push(item) + behind) == Err::<(), Trouble>(Trouble::Stuck),
{
    let items = before.push(item) + behind;
    let n = before.len() as int;
    assert(items[n] == item);
    assert(!is_package(items)) by {
        if is_package(items) {
            assert(items[n].1.shape.kind == ShapeKind::ComponentType);
        }
    }
    assert forall|i: int| 0 <= i < n implies is_plain((#[trigger] items[i]).1) by {
        assert(items[i] == before[i]);
    }
    let start = with_scope(empty_desk());
    lemma_plain_items(start, items, 0, n);
    let desk = choose|desk: DeskView|
        is_tidy(desk) && component_items(start, items, 0) == #[trigger] component_items(desk, items, n);
    lemma_primitives(desk, item.1.shape.signature, 0, Seq::empty());
}

/// Plain items leave the desk tidy.
proof fn lemma_plain_items(
    desk: DeskView,
    items: Seq<(bool, ExternView<usize>)>,
    i: int,
    end: int,
)
    requires
        0 <= i <= end <= items.len(),
        is_tidy(desk),
        forall|j: int| i <= j < end ==> is_plain((#[trigger] items[j]).1),
    ensures
        exists|after: DeskView|
            is_tidy(after) && component_items(desk, items, i) == #[trigger] component_items(
                after,
                items,
                end,
            ),
        end == items.len() ==> (component_items(desk, items, i) matches Ok(after) && is_tidy(after)),
    decreases end - i,
{
    if i < end {
        let item = items[i].1;
        assert(is_plain(item));
        lemma_plain_item(desk, item, items[i].0);
        let next = world_item(desk, item, 0, items[i].0, false)->Ok_0;
        lemma_plain_items(next, items, i + 1, end);
    } else {
        assert(component_items(desk, items, i) == component_items(desk, items, end));
    }
}

/// A plain item is decoded and leaves the desk tidy.
proof fn lemma_plain_item(desk: DeskView, item: ExternView<usize>, imported: bool)
    requires
        is_tidy(desk),
        is_plain(item),
    ensures
        world_item(desk, item, 0, imported, false) matches Ok(after) && is_tidy(after),
{
    if item.shape.kind == ShapeKind::Function {
        lemma_primitives(desk, item.shape.signature, 0, Seq::empty());
    } else {
        match item.kind {
            NameView::Interface(package, label) => {
                let (made, scope) = foreign_interface(desk, item.kind)->Ok_0;
                lemma_plain_imports(made, item.shape.exports, 0, scope);
            },
            _ => {
                lemma_plain_members(
                    with_scope(desk),
                    item.shape.exports,
                    0,
                    desk.homes.len() as usize,
                );
            },
        }
    }
}

/// Primitive types leave the desk as it is.
proof fn lemma_primitives(
    desk: DeskView,
    parts: Seq<PartView<usize>>,
    i: int,
    done: Seq<(Seq<char>, Child)>,
)
    requires
        0 <= i <= parts.len(),
        forall|j: int|
            0 <= j < parts.len() ==> (#[trigger] parts[j]).value is Absent || parts[j].value is Primitive,
    ensures
        convert_parts(desk, parts, i, done) matches Ok(r) && r.0 == desk,
    decreases parts.len() - i,
{
    if i < parts.len() {
        let part = parts[i];
        let child = match part.value {
            ValueView::Absent => Child::Absent,
            _ => Child::Primitive,
        };
        lemma_primitives(desk, parts, i + 1, done.push((part.name, child)));
    }
}

/// Plain functions of an interface that may have them leave the desk tidy.
proof fn lemma_plain_imports(desk: DeskView, list: Seq<ExternView<usize>>, i: int, scope: usize)
    requires
        0 <= i <= list.len(),
        is_tidy(desk),
        forall|j: int|
            0 <= j < list.len() ==> takes_primitives(#[trigger] list[j]) && list[j].kind is Label,
    ensures
        import_members(desk, list, i, scope, false) matches Ok(after) && is_tidy(after),
    decreases list.len() - i,
{
    if i < list.len() {
        let item = list[i];
        assert(takes_primitives(item));
        lemma_primitives(desk, item.shape.signature, 0, Seq::empty());
        let next = import_member(desk, item, scope, false)->Ok_0;
        lemma_plain_imports(next, list, i + 1, scope);
    }
}

/// Plain functions of an interface that is new are written down, and nothing else is.
proof fn lemma_plain_members(desk: DeskView, list: Seq<ExternView<usize>>, i: int, scope: usize)
    requires
        0 <= i <= list.len(),
        forall|j: int|
            0 <= j < list.len() ==> takes_primitives(#[trigger] list[j]) && list[j].kind is Label,
    ensures
        define_members(desk, list, i, scope) matches Ok(after) && after == (DeskView {
            functions: after.functions,
            ..desk
        }),
    decreases list.len() - i,
{
    if i < list.len() {
        let item = list[i];
        assert(takes_primitives(item));
        lemma_primitives(desk, item.shape.signature, 0, Seq::empty());
        let next = define_member(desk, item, scope)->Ok_0;
        lemma_plain_members(next, list, i + 1, scope);
    }
}

/// What was met on a tidy desk holds together.
proof fn lemma_tidy_holds_together(desk: DeskView, root: Seq<char>)
    requires
        is_tidy(desk),
    ensures
        finish(desk, root) == Ok::<(), Trouble>(()),
{
    assert(leads_of(desk).len() == 0);
    assert forall|p: usize| p < desk.packages.len() implies #[trigger] comes_to_an_end(
        leads_of(desk),
        p,
        desk.packages.len(),
    ) by {
    }
    assert(!has_twin(desk, root)) by {
        if has_twin(desk, root) {
            let home = lookup(desk.packages, 0, root)->0;
            let i = choose|i: int|
                0 <= i < desk.foreign.len() && (#[trigger] desk.foreign[i]).0 == home && lookup(
                    desk.interfaces,
                    0,
                    desk.foreign[i].1,
                ) is Some;
            assert(lookup(desk.interfaces, 0, desk.foreign[i].1) is None);
        }
    }
}

/// The types among parts and within them.
pub open spec fn part_ids(parts: Seq<PartView<usize>>) -> Set<usize>
    decreases parts,
{
    if parts.len() == 0 {
        Set::empty()
    } else {
        let before = part_ids(parts.drop_last());
        match parts.last().value {
            ValueView::Defined(ty) => before + part_ids(ty.parts).insert(ty.id),
            _ => before,
        }
    }
}

/// Whether every handle among parts and within them is one to a resource that was made.
pub open spec fn handles_fit(parts: Seq<PartView<usize>>, made: Set<usize>) -> bool
    decreases parts,
{
    parts.len() == 0 || (handles_fit(parts.drop_last(), made) && match parts.last().value {
        ValueView::Defined(ty) => if ty.tag == TypeTag::Handle {
            ty.handle matches Some(resource) && made.contains(resource)
        } else {
            handles_fit(ty.parts, made)
        },
        _ => true,
    })
}

/// What was met of a component: the types that were made and those that occurred, and the interfaces with their packages.
pub struct Met {
    pub made: Set<usize>,
    pub types: Set<usize>,
    pub faces: Set<(Seq<char>, Seq<char>)>,
}

/// What was met of an interface: the names of its types and of its resources.
pub struct MetInside {
    pub names: Set<Seq<char>>,
    pub resources: Set<Seq<char>>,
}

/// Whether a type is new: neither it nor what it stands for occurred before, and its handles are those to resources that
/// were made.
pub open spec fn is_new_type(met: Met, item: ExternView<usize>) -> bool {
    &&& item.shape.kind == ShapeKind::DataType
    &&& item.shape.data matches Some(data) && {
        &&& !met.types.contains(data.ty.id)
        &&& forall|i: int| 0 <= i < data.aliases.len() ==> !met.types.contains(#[trigger] data.aliases[i])
        &&& !met.types.contains(data.created)
        &&& !part_ids(data.ty.parts).contains(data.created)
        &&& data.ty.tag != TypeTag::Handle
        &&& handles_fit(data.ty.parts, met.made)
    }
}

/// What was met with a new type.
pub open spec fn met_type(met: Met, item: ExternView<usize>) -> Met {
    let data = item.shape.data->0;
    Met {
        made: met.made.insert(data.created),
        types: met.types + part_ids(data.ty.parts).insert(data.created),
        ..met
    }
}

/// What was met with a function.
pub open spec fn met_function(met: Met, item: ExternView<usize>) -> Met {
    Met { types: met.types + part_ids(item.shape.signature), ..met }
}

/// Whether a function fits: its handles are those to resources that were made, and where it is the member of a resource,
/// the interface has that.
pub open spec fn function_fits(met: Met, inside: MetInside, item: ExternView<usize>) -> bool {
    &&& item.shape.kind == ShapeKind::Function
    &&& handles_fit(item.shape.signature, met.made)
    &&& item.kind is Label || (item.kind matches NameView::Member(resource)
        && inside.resources.contains(resource))
}

/// What an interface has, from the given one on, and what was met with it; there is nothing where it does not fit.
pub open spec fn inside_fits(
    met: Met,
    inside: MetInside,
    list: Seq<ExternView<usize>>,
    i: int,
) -> Option<Met>
    decreases list.len() - i,
{
    if i < 0 || i >= list.len() {
        Some(met)
    } else if is_new_type(met, list[i]) && !inside.names.contains(list[i].name) {
        let after = MetInside {
            names: inside.names.insert(list[i].name),
            resources: if list[i].shape.data->0.ty.tag == TypeTag::Resource {
                inside.resources.insert(list[i].name)
            } else {
                inside.resources
            },
        };
        inside_fits(met_type(met, list[i]), after, list, i + 1)
    } else if function_fits(met, inside, list[i]) {
        inside_fits(met_function(met, list[i]), inside, list, i + 1)
    } else {
        None
    }
}

/// An interface of which nothing was met.
pub open spec fn nothing_inside() -> MetInside {
    MetInside { names: Set::empty(), resources: Set::empty() }
}

/// Whether what a component imports and exports fits together, from the given one on: functions, new types that it
/// imports, and instances. The instances have interfaces without a full name, or with one that none before has.
pub open spec fn fits_together(met: Met, items: Seq<(bool, ExternView<usize>)>, i: int) -> bool
    decreases items.len() - i,
{
    if i < 0 || i >= items.len() {
        true
    } else {
        let (imported, item) = items[i];
        if imported && is_new_type(met, item) {
            fits_together(met_type(met, item), items, i + 1)
        } else if function_fits(met, nothing_inside(), item) {
            fits_together(met_function(met, item), items, i + 1)
        } else if item.shape.kind == ShapeKind::Instance && item.implements is None {
            match item.kind {
                NameView::Label => inside_fits(met, nothing_inside(), item.shape.exports, 0) matches Some(
                    after,
                ) && fits_together(after, items, i + 1),
                NameView::Interface(Some(package), label) => !met.faces.contains((package, label)) && (
                inside_fits(met, nothing_inside(), item.shape.exports, 0) matches Some(after)
                    && fits_together(
                    Met { faces: after.faces.insert((package, label)), ..after },
                    items,
                    i + 1,
                )),
                _ => false,
            }
        } else {
            false
        }
    }
}

/// A component whose imports and exports fit together is decoded or refused: the decoder gets over all of it. They fit
/// together where every type is new, every handle is one to a resource that was made before, every member belongs to a
/// resource of its interface, and no interface occurs twice.
pub proof fn law_decoder_gets_over_what_fits_together(items: Seq<(bool, ExternView<usize>)>)
    requires
        items.len() <= usize::MAX,
        fits_together(
            (Met { made: Set::empty(), types: Set::empty(), faces: Set::empty() }),
            items,
            0,
        ),
    ensures
        decoding(items) != Err::<(), Trouble>(Trouble::Stuck),
{
    let met = Met { made: Set::empty(), types: Set::empty(), faces: Set::empty() };
    assert(!is_package(items)) by {
        if is_package(items) {
            assert(!items[0].0 && items[0].1.shape.kind == ShapeKind::ComponentType);
        }
    }
    let start = with_scope(empty_desk());
    assert(accounts_for(start, met));
    lemma_all_fit(start, met, items, 0);
    if let Ok(desk) = component_items(start, items, 0) {
        lemma_accounts_hold_together(desk, "root:component"@);
    }
}

/// Whether the types on the desk are those that were met, none of them another name.
spec fn types_account(desk: DeskView, made: Set<usize>, types: Set<usize>) -> bool {
    &&& forall|id: usize| made.contains(id) ==> (#[trigger] known_as(desk, id)) is Some
    &&& forall|id: usize| (#[trigger] known_as(desk, id)) is Some ==> types.contains(id)
    &&& forall|i: int| 0 <= i < desk.types.len() ==> (#[trigger] desk.types[i]).alias is None
}

/// Whether one of the interfaces that were met is the one of the entry.
spec fn is_face(desk: DeskView, faces: Set<(Seq<char>, Seq<char>)>, entry: Entry) -> bool {
    exists|package: Seq<char>|
        #![trigger lookup(desk.packages, 0, package)]
        lookup(desk.packages, 0, package) == Some(entry.0) && faces.contains((package, entry.1))
}

/// Whether the interfaces on the desk are those that were met.
spec fn faces_account(desk: DeskView, faces: Set<(Seq<char>, Seq<char>)>) -> bool {
    &&& forall|i: int|
        0 <= i < desk.packages.len() ==> (#[trigger] desk.packages[i]).0 == 0 && desk.packages[i].2 == i
    &&& forall|i: int, j: int|
        0 <= i < j < desk.packages.len() ==> (#[trigger] desk.packages[i]).1 != (
        #[trigger] desk.packages[j]).1
    &&& forall|i: int|
        0 <= i < desk.foreign.len() ==> is_face(desk, faces, #[trigger] desk.foreign[i])
    &&& forall|i: int| 0 <= i < desk.members.len() ==> (#[trigger] desk.members[i]).0 < desk.homes.len()
    &&& desk.interfaces.len() == 0
    &&& desk.named.len() == 0
    &&& !desk.loose
    &&& desk.packages.len() <= desk.homes.len()
}

/// Whether what is on the desk is what was met.
spec fn accounts_for(desk: DeskView, met: Met) -> bool {
    types_account(desk, met.made, met.types) && faces_account(desk, met.faces)
}

/// Whether only the types differ.
spec fn same_but_types(a: DeskView, b: DeskView) -> bool {
    b == DeskView { types: b.types, known: b.known, ..a }
}

/// A new entry is found, and hides nothing but what has its name.
proof fn lemma_entry_made(log: Seq<Entry>, entry: Entry, place: usize, name: Seq<char>)
    ensures
        lookup(log.push(entry), place, name) == (if entry.0 == place && entry.1 == name {
            Some(entry.2)
        } else {
            lookup(log, place, name)
        }),
{
    assert(log.push(entry).drop_last() =~= log);
}

/// What is found is an entry.
proof fn lemma_entry_found(log: Seq<Entry>, place: usize, name: Seq<char>)
    ensures
        lookup(log, place, name) matches Some(meaning) ==> exists|i: int|
            0 <= i < log.len() && (#[trigger] log[i]) == (place, name, meaning),
        lookup(log, place, name) is None ==> forall|i: int|
            0 <= i < log.len() ==> (#[trigger] log[i]).0 != place || log[i].1 != name,
    decreases log.len(),
{
    if log.len() > 0 {
        let rest = log.drop_last();
        lemma_entry_found(rest, place, name);
        if log.last().0 == place && log.last().1 == name {
            assert(log[log.len() - 1] == (place, name, log.last().2));
        } else {
            if let Some(meaning) = lookup(rest, place, name) {
                let i = choose|i: int|
                    0 <= i < rest.len() && (#[trigger] rest[i]) == (place, name, meaning);
                assert(log[i] == rest[i]);
            } else {
                assert forall|i: int| 0 <= i < log.len() implies (#[trigger] log[i]).0 != place || log[i].1
                    != name by {
                    if i < rest.len() {
                        assert(rest[i] == log[i]);
                    }
                }
            }
        }
    }
}

/// A part is among the parts.
proof fn lemma_part_inside(parts: Seq<PartView<usize>>, i: int, made: Set<usize>)
    requires
        0 <= i < parts.len(),
        handles_fit(parts, made),
    ensures
        parts[i].value matches ValueView::Defined(ty) ==> {
            &&& if ty.tag == TypeTag::Handle {
                ty.handle matches Some(resource) && made.contains(resource)
            } else {
                handles_fit(ty.parts, made)
            }
            &&& part_ids(ty.parts).insert(ty.id).subset_of(part_ids(parts))
        },
        i == parts.len() - 1 || part_ids(parts.drop_last()).subset_of(part_ids(parts)),
    decreases parts.len(),
{
    if i < parts.len() - 1 {
        lemma_part_inside(parts.drop_last(), i, made);
        assert(parts.drop_last()[i] == parts[i]);
    }
}

/// Types whose handles fit are decoded or refused, and nothing but types is made.
proof fn lemma_parts_fit(
    desk: DeskView,
    parts: Seq<PartView<usize>>,
    i: int,
    done: Seq<(Seq<char>, Child)>,
    made: Set<usize>,
    types: Set<usize>,
)
    requires
        0 <= i <= parts.len(),
        handles_fit(parts, made),
        part_ids(parts).subset_of(types),
        types_account(desk, made, types),
    ensures
        match convert_parts(desk, parts, i, done) {
            Ok(r) => types_account(r.0, made, types) && same_but_types(desk, r.0),
            Err(t) => t == Trouble::Refused,
        },
    decreases parts, parts.len() - i,
{
    if i < parts.len() {
        lemma_part_inside(parts, i, made);
        match parts[i].value {
            ValueView::Absent => {
                lemma_parts_fit(
                    desk,
                    parts,
                    i + 1,
                    done.push((parts[i].name, Child::Absent)),
                    made,
                    types,
                );
            },
            ValueView::Primitive => {
                lemma_parts_fit(
                    desk,
                    parts,
                    i + 1,
                    done.push((parts[i].name, Child::Primitive)),
                    made,
                    types,
                );
            },
            ValueView::Defined(ty) => {
                assert(decreases_to!(parts => parts[i].value));
                lemma_type_fits(desk, ty, made, types);
                if let Ok((next, decoded)) = convert_type(desk, ty) {
                    lemma_parts_fit(
                        next,
                        parts,
                        i + 1,
                        done.push((parts[i].name, Child::Decoded(decoded))),
                        made,
                        types,
                    );
                }
            },
        }
    }
}

/// A type whose handles fit is decoded or refused.
proof fn lemma_type_fits(desk: DeskView, ty: TypeView<usize>, made: Set<usize>, types: Set<usize>)
    requires
        if ty.tag == TypeTag::Handle {
            ty.handle matches Some(resource) && made.contains(resource)
        } else {
            handles_fit(ty.parts, made)
        },
        part_ids(ty.parts).insert(ty.id).subset_of(types),
        types_account(desk, made, types),
    ensures
        match convert_type(desk, ty) {
            Ok(r) => types_account(r.0, made, types) && same_but_types(desk, r.0),
            Err(t) => t == Trouble::Refused,
        },
    decreases ty, 1int,
{
    assert(types.contains(ty.id));
    if known_as(desk, ty.id) is None {
        if ty.tag == TypeTag::Handle {
            assert(known_as(desk, ty.handle->0) is Some);
        } else {
            assert(decreases_to!(ty => ty.parts));
            lemma_parts_fit(desk, ty.parts, 0, Seq::empty(), made, types);
        }
        if let Ok((next, parts)) = convert_defined(desk, ty) {
            lemma_made(next, None, ty.tag, parts, ty.id, made, types);
        }
    }
}

/// One more type is accounted for.
proof fn lemma_made(
    desk: DeskView,
    owner: Option<usize>,
    tag: TypeTag,
    parts: Seq<(Seq<char>, Child)>,
    id: usize,
    made: Set<usize>,
    types: Set<usize>,
)
    requires
        types_account(desk, made, types),
        types.contains(id),
    ensures
        ({
            let after = with_known(
                with_type(desk, None, owner, tag, parts),
                id,
                desk.types.len() as usize,
            );
            types_account(after, made, types) && types_account(after, made.insert(id), types)
                && same_but_types(desk, after)
        }),
{
    let typed = with_type(desk, None, owner, tag, parts);
    let after = with_known(typed, id, desk.types.len() as usize);
    assert forall|other: usize| (#[trigger] known_as(after, other)) == (if other == id {
        Some(desk.types.len() as usize)
    } else {
        known_as(desk, other)
    }) by {
        lemma_entry_made(desk.known, (id, ""@, desk.types.len() as usize), other, ""@);
    }
    assert forall|i: int| 0 <= i < after.types.len() implies (#[trigger] after.types[i]).alias is None by {
        if i < desk.types.len() {
            assert(after.types[i] == desk.types[i]);
        }
    }
}

/// Where none of the types is known, none of them is found.
proof fn lemma_none_known(desk: DeskView, ids: Seq<usize>, i: int)
    requires
        0 <= i <= ids.len(),
        forall|j: int| 0 <= j < ids.len() ==> known_as(desk, #[trigger] ids[j]) is None,
    ensures
        first_known(desk, ids, i) is None,
    decreases ids.len() - i,
{
    if i < ids.len() {
        lemma_none_known(desk, ids, i + 1);
    }
}

/// A new type is decoded or refused. A resource belongs to its scope from then on.
proof fn lemma_new_type_fits(desk: DeskView, met: Met, item: ExternView<usize>, scope: usize)
    requires
        is_new_type(met, item),
        types_account(desk, met.made, met.types),
    ensures
        match register_type(desk, item, scope) {
            Ok((after, _)) => {
                &&& types_account(after, met_type(met, item).made, met_type(met, item).types)
                &&& after == DeskView {
                    types: after.types,
                    known: after.known,
                    resources: after.resources,
                    ..desk
                }
                &&& forall|s: usize, name: Seq<char>|
                    lookup(desk.resources, s, name) is Some ==> (#[trigger] lookup(
                        after.resources,
                        s,
                        name,
                    )) is Some
                &&& item.shape.data->0.ty.tag == TypeTag::Resource ==> lookup(
                    after.resources,
                    scope,
                    item.name,
                ) is Some
            },
            Err(t) => t == Trouble::Refused,
        },
{
    let data = item.shape.data->0;
    let ids = seq![data.ty.id] + data.aliases;
    let after_met = met_type(met, item);
    assert forall|j: int| 0 <= j < ids.len() implies known_as(desk, #[trigger] ids[j]) is None by {
        if j > 0 {
            assert(ids[j] == data.aliases[j - 1]);
        }
        assert(!met.types.contains(ids[j]));
    }
    lemma_none_known(desk, ids, 0);
    let wide = met.types + part_ids(data.ty.parts);
    assert(types_account(desk, met.made, wide));
    let made = if data.ty.tag == TypeTag::Resource {
        Ok((desk, Seq::<(Seq<char>, Child)>::empty()))
    } else {
        convert_defined(desk, data.ty)
    };
    if data.ty.tag != TypeTag::Resource {
        lemma_parts_fit(desk, data.ty.parts, 0, Seq::empty(), met.made, wide);
    }
    if let Ok((next, parts)) = made {
        let typed = with_type(next, None, Some(scope), data.ty.tag, parts);
        let held = if data.ty.tag == TypeTag::Resource {
            DeskView { resources: typed.resources.push((scope, item.name, 0)), ..typed }
        } else {
            typed
        };
        assert(known_as(held, data.created) == known_as(next, data.created));
        assert(known_as(next, data.created) is None) by {
            if known_as(next, data.created) is Some {
                assert(wide.contains(data.created));
            }
        }
        let with = DeskView { resources: held.resources, ..next };
        assert forall|id: usize| (#[trigger] known_as(with, id)) == known_as(next, id) by {
        }
        assert(types_account(with, met.made, after_met.types)) by {
            assert forall|id: usize| met.made.contains(id) implies (#[trigger] known_as(with, id)) is Some by {
                assert(known_as(next, id) is Some);
            }
            assert forall|id: usize| (#[trigger] known_as(with, id)) is Some implies after_met.types.contains(id) by {
                assert(known_as(next, id) is Some);
                assert(wide.contains(id));
            }
        }
        lemma_made(
            with,
            Some(scope),
            data.ty.tag,
            parts,
            data.created,
            met.made,
            after_met.types,
        );
        let after = with_known(held, data.created, next.types.len() as usize);
        assert(after == with_known(
            with_type(with, None, Some(scope), data.ty.tag, parts),
            data.created,
            with.types.len() as usize,
        ));
        assert forall|s: usize, name: Seq<char>| lookup(desk.resources, s, name) is Some implies (
        #[trigger] lookup(after.resources, s, name)) is Some by {
            lemma_entry_made(desk.resources, (scope, item.name, 0), s, name);
        }
        lemma_entry_made(desk.resources, (scope, item.name, 0), scope, item.name);
    }
}

/// A function that fits is decoded or refused.
proof fn lemma_function_fits(
    desk: DeskView,
    met: Met,
    inside: MetInside,
    item: ExternView<usize>,
    scope: usize,
)
    requires
        function_fits(met, inside, item),
        types_account(desk, met.made, met.types),
        forall|name: Seq<char>| inside.resources.contains(name) ==> (#[trigger] lookup(
            desk.resources,
            scope,
            name,
        )) is Some,
    ensures
        match convert_function(desk, item, scope) {
            Ok(after) => {
                &&& types_account(after, met.made, met_function(met, item).types)
                &&& same_but_types(desk, after)
            },
            Err(t) => t == Trouble::Refused,
        },
        types_account(desk, met.made, met_function(met, item).types),
{
    let wide = met_function(met, item).types;
    assert(types_account(desk, met.made, wide));
    lemma_parts_fit(desk, item.shape.signature, 0, Seq::empty(), met.made, wide);
}

/// Whether the interface with the scope has what was met of it.
spec fn inside_accounts(desk: DeskView, inside: MetInside, scope: usize) -> bool {
    &&& forall|name: Seq<char>| inside.resources.contains(name) ==> (#[trigger] lookup(
        desk.resources,
        scope,
        name,
    )) is Some
    &&& forall|i: int|
        0 <= i < desk.members.len() && (#[trigger] desk.members[i]).0 == scope ==> inside.names.contains(
            desk.members[i].1,
        )
}

/// What fits into an interface is decoded or refused. `fresh` says whether the interface is new to the decoder.
proof fn lemma_inside_fits(
    desk: DeskView,
    met: Met,
    inside: MetInside,
    list: Seq<ExternView<usize>>,
    i: int,
    scope: usize,
    fresh: bool,
)
    requires
        0 <= i <= list.len(),
        scope < desk.homes.len(),
        accounts_for(desk, met),
        inside_accounts(desk, inside, scope),
        inside_fits(met, inside, list, i) is Some,
    ensures
        match (if fresh {
            define_members(desk, list, i, scope)
        } else {
            import_members(desk, list, i, scope, false)
        }) {
            Ok(after) => accounts_for(after, inside_fits(met, inside, list, i)->0) && after.homes
                == desk.homes && after.packages == desk.packages && after.foreign == desk.foreign,
            Err(t) => t == Trouble::Refused,
        },
    decreases list.len() - i,
{
    if i < list.len() {
        let item = list[i];
        if is_new_type(met, item) && !inside.names.contains(item.name) {
            let next_met = met_type(met, item);
            let next_inside = MetInside {
                names: inside.names.insert(item.name),
                resources: if item.shape.data->0.ty.tag == TypeTag::Resource {
                    inside.resources.insert(item.name)
                } else {
                    inside.resources
                },
            };
            lemma_new_type_fits(desk, met, item, scope);
            lemma_entry_found(desk.members, scope, item.name);
            assert(lookup(desk.members, scope, item.name) is None) by {
                if let Some(meaning) = lookup(desk.members, scope, item.name) {
                    let k = choose|k: int|
                        0 <= k < desk.members.len() && (#[trigger] desk.members[k]) == (
                            scope,
                            item.name,
                            meaning,
                        );
                    assert(inside.names.contains(desk.members[k].1));
                }
            }
            if let Ok((made, decoded)) = register_type(desk, item, scope) {
                let after = DeskView { members: made.members.push((scope, item.name, decoded)), ..made };
                lemma_desk_goes_on(made, after, next_met);
                assert forall|k: int| 0 <= k < after.members.len() && (#[trigger] after.members[k]).0 == scope implies next_inside.names.contains(
                    after.members[k].1,
                ) by {
                    if k < desk.members.len() {
                        assert(after.members[k] == desk.members[k]);
                    }
                }
                assert forall|k: int| 0 <= k < after.members.len() implies (#[trigger] after.members[k]).0
                    < after.homes.len() by {
                    if k < desk.members.len() {
                        assert(after.members[k] == desk.members[k]);
                    }
                }
                assert forall|name: Seq<char>| next_inside.resources.contains(name) implies (#[trigger] lookup(
                    after.resources,
                    scope,
                    name,
                )) is Some by {
                    if inside.resources.contains(name) {
                        assert(lookup(desk.resources, scope, name) is Some);
                    }
                }
                lemma_faces_kept(desk, after, met.faces);
                lemma_inside_fits(after, next_met, next_inside, list, i + 1, scope, fresh);
            }
        } else {
            let next_met = met_function(met, item);
            lemma_function_fits(desk, met, inside, item, scope);
            if !fresh && lookup(desk.functions, scope, item.name) is Some {
                lemma_inside_fits(desk, next_met, inside, list, i + 1, scope, fresh);
            } else if let Ok(made) = convert_function(desk, item, scope) {
                let after = DeskView { functions: made.functions.push((scope, item.name, 0)), ..made };
                lemma_desk_goes_on(made, after, next_met);
                lemma_faces_kept(desk, after, met.faces);
                lemma_inside_fits(after, next_met, inside, list, i + 1, scope, fresh);
            }
        }
    }
}

/// What an interface has adds no interface.
proof fn lemma_no_face_inside(met: Met, inside: MetInside, list: Seq<ExternView<usize>>, i: int)
    ensures
        inside_fits(met, inside, list, i) matches Some(after) ==> after.faces == met.faces,
    decreases list.len() - i,
{
    if 0 <= i < list.len() {
        if is_new_type(met, list[i]) && !inside.names.contains(list[i].name) {
            let after = MetInside {
                names: inside.names.insert(list[i].name),
                resources: if list[i].shape.data->0.ty.tag == TypeTag::Resource {
                    inside.resources.insert(list[i].name)
                } else {
                    inside.resources
                },
            };
            lemma_no_face_inside(met_type(met, list[i]), after, list, i + 1);
        } else if function_fits(met, inside, list[i]) {
            lemma_no_face_inside(met_function(met, list[i]), inside, list, i + 1);
        }
    }
}

/// What is written down besides types changes nothing about these.
proof fn lemma_desk_goes_on(desk: DeskView, after: DeskView, met: Met)
    requires
        types_account(desk, met.made, met.types),
        after.types == desk.types,
        after.known == desk.known,
    ensures
        types_account(after, met.made, met.types),
{
    assert forall|id: usize| (#[trigger] known_as(after, id)) == known_as(desk, id) by {
    }
}

/// What is written down besides interfaces changes nothing about these.
proof fn lemma_faces_kept(desk: DeskView, after: DeskView, faces: Set<(Seq<char>, Seq<char>)>)
    requires
        faces_account(desk, faces),
        after.packages == desk.packages,
        after.foreign == desk.foreign,
        after.homes == desk.homes,
        after.interfaces == desk.interfaces,
        after.named == desk.named,
        after.loose == desk.loose,
        forall|i: int|
            0 <= i < after.members.len() ==> (#[trigger] after.members[i]).0 < after.homes.len(),
    ensures
        faces_account(after, faces),
{
    assert forall|i: int| 0 <= i < after.foreign.len() implies is_face(after, faces, #[trigger] after.foreign[i]) by {
        assert(is_face(desk, faces, desk.foreign[i]));
        let package = choose|package: Seq<char>|
            #![trigger lookup(desk.packages, 0, package)]
            lookup(desk.packages, 0, package) == Some(desk.foreign[i].0) && faces.contains(
                (package, desk.foreign[i].1),
            );
        assert(lookup(after.packages, 0, package) == Some(after.foreign[i].0));
    }
}

/// The interface of another package that was not met is new.
proof fn lemma_new_face(
    desk: DeskView,
    faces: Set<(Seq<char>, Seq<char>)>,
    package: Seq<char>,
    label: Seq<char>,
)
    requires
        faces_account(desk, faces),
        !faces.contains((package, label)),
        desk.homes.len() <= usize::MAX,
    ensures
        foreign_interface(desk, NameView::Interface(Some(package), label)) matches Ok((after, scope)) && {
            &&& scope == desk.homes.len()
            &&& after.homes.len() == desk.homes.len() + 1
            &&& after == DeskView {
                packages: after.packages,
                homes: after.homes,
                foreign: after.foreign,
                ..desk
            }
            &&& faces_account(after, faces.insert((package, label)))
        },
{
    lemma_entry_found(desk.packages, 0, package);
    let known = lookup(desk.packages, 0, package);
    let home = match known {
        Some(home) => home,
        None => desk.packages.len() as usize,
    };
    let packages = match known {
        Some(_) => desk.packages,
        None => desk.packages.push((0, package, home)),
    };
    if known is None {
        lemma_entry_made(desk.packages, (0, package, home), 0, package);
    }
    assert(lookup(packages, 0, package) == Some(home));
    lemma_entry_found(desk.foreign, home, label);
    if let Some(meaning) = lookup(desk.foreign, home, label) {
        let i = choose|i: int|
            0 <= i < desk.foreign.len() && (#[trigger] desk.foreign[i]) == (home, label, meaning);
        assert(is_face(desk, faces, desk.foreign[i]));
        let other = choose|other: Seq<char>|
            #![trigger lookup(desk.packages, 0, other)]
            lookup(desk.packages, 0, other) == Some(home) && faces.contains((other, label));
        lemma_entry_found(desk.packages, 0, other);
        let a = choose|a: int|
            0 <= a < desk.packages.len() && (#[trigger] desk.packages[a]) == (0usize, other, home);
        assert(desk.packages[a].2 == a);
        if let Some(h) = known {
            let b = choose|b: int|
                0 <= b < desk.packages.len() && (#[trigger] desk.packages[b]) == (0usize, package, h);
            assert(desk.packages[b].2 == b);
            assert(a == b);
        }
    }
    let (after, scope) = foreign_interface(desk, NameView::Interface(Some(package), label))->Ok_0;
    let more = faces.insert((package, label));
    assert forall|other: Seq<char>| lookup(desk.packages, 0, other) is Some implies (#[trigger] lookup(
        after.packages,
        0,
        other,
    )) == lookup(desk.packages, 0, other) by {
        if known is None {
            lemma_entry_made(desk.packages, (0, package, home), 0, other);
        }
    }
    assert forall|i: int| 0 <= i < after.foreign.len() implies is_face(after, more, #[trigger] after.foreign[i]) by {
        if i < desk.foreign.len() {
            assert(after.foreign[i] == desk.foreign[i]);
            assert(is_face(desk, faces, desk.foreign[i]));
            let other = choose|other: Seq<char>|
                #![trigger lookup(desk.packages, 0, other)]
                lookup(desk.packages, 0, other) == Some(desk.foreign[i].0) && faces.contains(
                    (other, desk.foreign[i].1),
                );
            assert(lookup(after.packages, 0, other) == Some(after.foreign[i].0));
        } else {
            assert(lookup(after.packages, 0, package) == Some(home));
        }
    }
    assert forall|i: int| 0 <= i < after.packages.len() implies (#[trigger] after.packages[i]).0 == 0
        && after.packages[i].2 == i by {
        if i < desk.packages.len() {
            assert(after.packages[i] == desk.packages[i]);
        }
    }
    assert forall|i: int, j: int| 0 <= i < j < after.packages.len() implies (#[trigger] after.packages[i]).1 != (
    #[trigger] after.packages[j]).1 by {
        assert(after.packages[i] == desk.packages[i]);
        if j < desk.packages.len() {
            assert(after.packages[j] == desk.packages[j]);
        }
    }
}

/// Whether what came out is accounted for, or is a refusal.
spec fn ends_well(outcome: Result<DeskView, Trouble>) -> bool {
    match outcome {
        Ok(after) => exists|last: Met| #[trigger] accounts_for(after, last),
        Err(t) => t == Trouble::Refused,
    }
}

/// What fits together is decoded or refused.
proof fn lemma_all_fit(desk: DeskView, met: Met, items: Seq<(bool, ExternView<usize>)>, i: int)
    requires
        0 <= i <= items.len() <= usize::MAX,
        accounts_for(desk, met),
        1 <= desk.homes.len() <= i + 1,
        fits_together(met, items, i),
    ensures
        ends_well(component_items(desk, items, i)),
    decreases items.len() - i,
{
    if i < items.len() {
        let (imported, item) = items[i];
        assert(ends_well(component_items(desk, items, i)) == (match world_item(
            desk,
            item,
            0,
            imported,
            false,
        ) {
            Ok(next) => ends_well(component_items(next, items, i + 1)),
            Err(t) => t == Trouble::Refused,
        }));
        if imported && is_new_type(met, item) {
            lemma_new_type_fits(desk, met, item, 0);
            if let Ok((after, _)) = register_type(desk, item, 0) {
                lemma_faces_kept(desk, after, met.faces);
                assert(world_item(desk, item, 0, imported, false) == Ok::<DeskView, Trouble>(after));
                lemma_all_fit(after, met_type(met, item), items, i + 1);
            }
        } else if function_fits(met, nothing_inside(), item) {
            lemma_function_fits(desk, met, nothing_inside(), item, 0);
            if let Ok(after) = convert_function(desk, item, 0) {
                lemma_faces_kept(desk, after, met.faces);
                lemma_all_fit(after, met_function(met, item), items, i + 1);
            }
        } else {
            lemma_entry_found(desk.named, 0, item.name);
            let exports = item.shape.exports;
            let after_met = inside_fits(met, nothing_inside(), exports, 0)->0;
            lemma_no_face_inside(met, nothing_inside(), exports, 0);
            match item.kind {
                NameView::Interface(Some(package), label) => {
                    lemma_new_face(desk, met.faces, package, label);
                    let (made, scope) = foreign_interface(desk, item.kind)->Ok_0;
                    let more = met.faces.insert((package, label));
                    let start_met = Met { faces: more, ..met };
                    lemma_desk_goes_on(desk, made, met);
                    lemma_faces_do_not_matter(met, more, nothing_inside(), exports, 0);
                    lemma_inside_fits(made, start_met, nothing_inside(), exports, 0, scope, false);
                    assert(world_item(desk, item, 0, imported, false) == import_members(
                        made,
                        exports,
                        0,
                        scope,
                        false,
                    ));
                    if let Ok(after) = import_members(made, exports, 0, scope, false) {
                        lemma_all_fit(after, Met { faces: more, ..after_met }, items, i + 1);
                    }
                },
                _ => {
                    let made = with_scope(desk);
                    let scope = desk.homes.len() as usize;
                    lemma_desk_goes_on(desk, made, met);
                    assert(faces_account(made, met.faces)) by {
                        assert forall|k: int| 0 <= k < made.foreign.len() implies is_face(
                            made,
                            met.faces,
                            #[trigger] made.foreign[k],
                        ) by {
                            assert(is_face(desk, met.faces, desk.foreign[k]));
                            let p = choose|p: Seq<char>|
                                #![trigger lookup(desk.packages, 0, p)]
                                lookup(desk.packages, 0, p) == Some(desk.foreign[k].0)
                                    && met.faces.contains((p, desk.foreign[k].1));
                            assert(lookup(made.packages, 0, p) == Some(made.foreign[k].0));
                        }
                    }
                    lemma_inside_fits(made, met, nothing_inside(), exports, 0, scope, true);
                    if let Ok(after) = define_members(made, exports, 0, scope) {
                        let last = DeskView { loose: after.loose || false, ..after };
                        assert(last == after);
                        assert(world_item(desk, item, 0, imported, false) == Ok::<DeskView, Trouble>(
                            after,
                        ));
                        lemma_all_fit(after, after_met, items, i + 1);
                    }
                },
            }
        }
    } else {
        let outcome = component_items(desk, items, i);
        assert(outcome is Ok);
        assert(outcome->Ok_0 == desk);
        assert(accounts_for(outcome->Ok_0, met));
    }
}

/// Which interfaces were met does not matter inside one.
proof fn lemma_faces_do_not_matter(
    met: Met,
    faces: Set<(Seq<char>, Seq<char>)>,
    inside: MetInside,
    list: Seq<ExternView<usize>>,
    i: int,
)
    ensures
        inside_fits(Met { faces, ..met }, inside, list, i) == (match inside_fits(
            met,
            inside,
            list,
            i,
        ) {
            Some(after) => Some(Met { faces, ..after }),
            None => None,
        }),
    decreases list.len() - i,
{
    if 0 <= i < list.len() {
        let other = Met { faces, ..met };
        if is_new_type(met, list[i]) && !inside.names.contains(list[i].name) {
            let after = MetInside {
                names: inside.names.insert(list[i].name),
                resources: if list[i].shape.data->0.ty.tag == TypeTag::Resource {
                    inside.resources.insert(list[i].name)
                } else {
                    inside.resources
                },
            };
            assert(met_type(other, list[i]) == (Met { faces, ..met_type(met, list[i]) }));
            lemma_faces_do_not_matter(met_type(met, list[i]), faces, after, list, i + 1);
        } else if function_fits(met, inside, list[i]) {
            assert(met_function(other, list[i]) == (Met { faces, ..met_function(met, list[i]) }));
            lemma_faces_do_not_matter(met_function(met, list[i]), faces, inside, list, i + 1);
        }
    }
}

/// What is accounted for holds together.
proof fn lemma_accounts_hold_together(desk: DeskView, root: Seq<char>)
    requires
        exists|met: Met| accounts_for(desk, met),
    ensures
        finish(desk, root) == Ok::<(), Trouble>(()),
{
    let met = choose|met: Met| accounts_for(desk, met);
    let leads = leads_of(desk);
    assert forall|i: int| 0 <= i < leads.len() implies (#[trigger] leads[i]) == Lead::Nowhere by {
        assert(leads[i] == lead_of(desk, desk.members[i]));
    }
    assert forall|p: usize| p < desk.packages.len() implies #[trigger] comes_to_an_end(
        leads,
        p,
        desk.packages.len(),
    ) by {
        assert forall|i: int| 0 <= i < leads.len() implies ((#[trigger] leads[i]) matches Lead::Package(
            from,
            to,
        ) ==> from == p && to != p ==> comes_to_an_end(
            leads,
            to,
            (desk.packages.len() - 1) as nat,
        )) by {
            assert(leads[i] == Lead::Nowhere);
        }
    }
    assert(!has_twin(desk, root)) by {
        if has_twin(desk, root) {
            let home = lookup(desk.packages, 0, root)->0;
            let i = choose|i: int|
                0 <= i < desk.foreign.len() && (#[trigger] desk.foreign[i]).0 == home && lookup(
                    desk.interfaces,
                    0,
                    desk.foreign[i].1,
                ) is Some;
            assert(lookup(desk.interfaces, 0, desk.foreign[i].1) is None);
        }
    }
}

/// Whether it is a part of the encoding of the package: one of its interfaces, with nothing but functions that take and
/// return primitive types.
pub open spec fn is_plain_part(part: (bool, ExternView<usize>), package: Seq<char>) -> bool {
    &&& !part.0
    &&& part.1.shape.kind == ShapeKind::ComponentType
    &&& part.1.shape.imports.len() == 0
    &&& part.1.shape.exports.len() == 1
    &&& part.1.shape.exports[0].shape.kind == ShapeKind::Instance
    &&& part.1.shape.exports[0].kind matches NameView::Interface(Some(p), _) && p == package
    &&& forall|i: int|
        0 <= i < part.1.shape.exports[0].shape.exports.len() ==> takes_primitives(
            #[trigger] part.1.shape.exports[0].shape.exports[i],
        ) && part.1.shape.exports[0].shape.exports[i].kind is Label
}

/// The full name of the interface of a part, and its own name.
pub open spec fn face_of(part: (bool, ExternView<usize>)) -> (Seq<char>, Seq<char>) {
    (part.1.shape.exports[0].name, part.1.shape.exports[0].kind->Interface_1)
}

/// The encoding of a package with interfaces that have different names, and whose functions take and return primitive
/// types, is always decoded.
pub proof fn law_plain_packages_are_decoded(
    items: Seq<(bool, ExternView<usize>)>,
    package: Seq<char>,
)
    requires
        items.len() > 0,
        items[0].1.kind is Label,
        forall|i: int| 0 <= i < items.len() ==> is_plain_part(#[trigger] items[i], package),
        forall|i: int, j: int|
            0 <= i < j < items.len() ==> face_of(#[trigger] items[i]).0 != face_of(
                #[trigger] items[j],
            ).0 && face_of(items[i]).1 != face_of(items[j]).1,
    ensures
        decoding(items) == Ok::<(), Trouble>(()),
{
    assert(is_package(items)) by {
        assert forall|i: int| 0 <= i < items.len() implies !(#[trigger] items[i]).0
            && items[i].1.shape.kind == ShapeKind::ComponentType by {
            assert(is_plain_part(items[i], package));
        }
    }
    lemma_plain_parts(empty_desk(), items, 0, package, None);
}

/// Whether nothing was written down but the interfaces of the first parts.
spec fn has_faces(desk: DeskView, items: Seq<(bool, ExternView<usize>)>, n: int) -> bool {
    &&& desk.members.len() == 0
    &&& desk.packages.len() == 0
    &&& desk.foreign.len() == 0
    &&& !desk.loose
    &&& forall|k: int|
        0 <= k < desk.named.len() ==> exists|j: int|
            0 <= j < n && (#[trigger] desk.named[k]).1 == face_of(#[trigger] items[j]).0
    &&& forall|k: int|
        0 <= k < desk.interfaces.len() ==> exists|j: int|
            0 <= j < n && (#[trigger] desk.interfaces[k]).1 == face_of(#[trigger] items[j]).1
}

/// Plain parts are decoded one after the other.
proof fn lemma_plain_parts(
    desk: DeskView,
    items: Seq<(bool, ExternView<usize>)>,
    i: int,
    package: Seq<char>,
    before: Option<Seq<char>>,
)
    requires
        0 <= i <= items.len(),
        i > 0 ==> before == Some(package),
        i == 0 ==> before is None,
        items.len() > 0,
        has_faces(desk, items, i),
        forall|j: int| 0 <= j < items.len() ==> is_plain_part(#[trigger] items[j], package),
        forall|j: int, k: int|
            0 <= j < k < items.len() ==> face_of(#[trigger] items[j]).0 != face_of(
                #[trigger] items[k],
            ).0 && face_of(items[j]).1 != face_of(items[k]).1,
    ensures
        package_parts(desk, items, i, before) matches Ok((after, Some(root))) && root == package && finish(
            after,
            root,
        ) == Ok::<(), Trouble>(()),
    decreases items.len() - i,
{
    if i < items.len() {
        let part = items[i];
        assert(is_plain_part(part, package));
        let item = part.1.shape.exports[0];
        let (name, label) = face_of(part);
        lemma_entry_found(desk.named, 0, name);
        assert(lookup(desk.named, 0, name) is None) by {
            if let Some(meaning) = lookup(desk.named, 0, name) {
                let k = choose|k: int|
                    0 <= k < desk.named.len() && (#[trigger] desk.named[k]) == (0usize, name, meaning);
                let j = choose|j: int|
                    0 <= j < i && desk.named[k].1 == face_of(#[trigger] items[j]).0;
                assert(face_of(items[j]).0 != face_of(items[i]).0);
            }
        }
        lemma_entry_found(desk.interfaces, 0, label);
        assert(lookup(desk.interfaces, 0, label) is None) by {
            if let Some(meaning) = lookup(desk.interfaces, 0, label) {
                let k = choose|k: int|
                    0 <= k < desk.interfaces.len() && (#[trigger] desk.interfaces[k]) == (
                        0usize,
                        label,
                        meaning,
                    );
                let j = choose|j: int|
                    0 <= j < i && desk.interfaces[k].1 == face_of(#[trigger] items[j]).1;
                assert(face_of(items[j]).1 != face_of(items[i]).1);
            }
        }
        let scope = desk.homes.len() as usize;
        lemma_plain_members(with_scope(desk), item.shape.exports, 0, scope);
        let after = register_interface(desk, item, true)->Ok_0;
        assert(register_interface(desk, item, true) is Ok);
        assert(package_part(desk, part.1.shape) == Ok::<(DeskView, Seq<char>), Trouble>((after, package)));
        assert(has_faces(after, items, i + 1)) by {
            assert forall|k: int| 0 <= k < after.named.len() implies exists|j: int|
                0 <= j < i + 1 && (#[trigger] after.named[k]).1 == face_of(#[trigger] items[j]).0 by {
                if k < desk.named.len() {
                    assert(after.named[k] == desk.named[k]);
                    let j = choose|j: int|
                        0 <= j < i && desk.named[k].1 == face_of(#[trigger] items[j]).0;
                    assert(after.named[k].1 == face_of(items[j]).0);
                } else {
                    assert(after.named[k].1 == face_of(items[i]).0);
                }
            }
            assert forall|k: int| 0 <= k < after.interfaces.len() implies exists|j: int|
                0 <= j < i + 1 && (#[trigger] after.interfaces[k]).1 == face_of(#[trigger] items[j]).1 by {
                if k < desk.interfaces.len() {
                    assert(after.interfaces[k] == desk.interfaces[k]);
                    let j = choose|j: int|
                        0 <= j < i && desk.interfaces[k].1 == face_of(#[trigger] items[j]).1;
                    assert(after.interfaces[k].1 == face_of(items[j]).1);
                } else {
                    assert(after.interfaces[k].1 == face_of(items[i]).1);
                }
            }
        }
        lemma_plain_parts(after, items, i + 1, package, Some(package));
    } else {
        assert(lookup(desk.packages, 0, package) is None);
        assert(leads_of(desk).len() == 0);
    }
}

} // verus!
