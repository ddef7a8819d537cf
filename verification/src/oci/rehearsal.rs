//! Rehearsing how a component is decoded.

use vstd::prelude::*;

use crate::oci::decoding::Child;
use crate::oci::decoding::Desk;
use crate::oci::decoding::Lead;
use crate::oci::decoding::Log;
use crate::oci::decoding::Trouble;
use crate::oci::decoding::WitType;
use crate::oci::decoding::WitTypeView;
use crate::oci::decoding::children_of;
use crate::oci::decoding::comes_to_an_end;
use crate::oci::decoding::component_items;
use crate::oci::decoding::convert_defined;
use crate::oci::decoding::convert_function;
use crate::oci::decoding::convert_parts;
use crate::oci::decoding::convert_type;
use crate::oci::decoding::decoding;
use crate::oci::decoding::define_function;
use crate::oci::decoding::define_members;
use crate::oci::decoding::define_type;
use crate::oci::decoding::empty_desk;
use crate::oci::decoding::finish;
use crate::oci::decoding::first_known;
use crate::oci::decoding::foreign_interface;
use crate::oci::decoding::has_twin;
use crate::oci::decoding::import_member;
use crate::oci::decoding::import_members;
use crate::oci::decoding::is_package;
use crate::oci::decoding::lead_of;
use crate::oci::decoding::leads_of;
use crate::oci::decoding::lookup;
use crate::oci::decoding::match_parts;
use crate::oci::decoding::match_type;
use crate::oci::decoding::package_exports;
use crate::oci::decoding::package_imports;
use crate::oci::decoding::package_part;
use crate::oci::decoding::package_parts;
use crate::oci::decoding::register_import;
use crate::oci::decoding::register_interface;
use crate::oci::decoding::register_type;
use crate::oci::decoding::register_world;
use crate::oci::decoding::wit_types;
use crate::oci::decoding::with_known;
use crate::oci::decoding::with_scope;
use crate::oci::decoding::with_type;
use crate::oci::decoding::world_instance;
use crate::oci::decoding::world_item;
use crate::oci::decoding::world_items;
use crate::oci::shape::Extern;
use crate::oci::shape::NameKind;
use crate::oci::shape::PartShape;
use crate::oci::shape::Shape;
use crate::oci::shape::ShapeKind;
use crate::oci::shape::TypeShape;
use crate::oci::shape::TypeTag;
use crate::oci::shape::ValueShape;
use crate::oci::shape::are_externs;
use crate::oci::shape::are_parts;
use crate::oci::shape::extern_of;
use crate::oci::shape::externs_of;
use crate::oci::shape::items_of;
use crate::oci::shape::lemma_externs;
use crate::oci::shape::lemma_parts;
use crate::oci::shape::part_of;
use crate::oci::shape::parts_of;
use crate::oci::shape::shape_of;
use crate::oci::shape::type_of;
use crate::text::same_text;

verus! {

// ---------------------------------------------------------------------------
// Types
// ---------------------------------------------------------------------------

impl Desk {
    /// Nothing was written down yet.
    fn new() -> (res: Self)
        ensures
            res@ == empty_desk(),
    {
        let res = Desk {
            types: Vec::new(),
            known: Log::new(),
            homes: Vec::new(),
            members: Log::new(),
            functions: Log::new(),
            resources: Log::new(),
            packages: Log::new(),
            foreign: Log::new(),
            named: Log::new(),
            interfaces: Log::new(),
            worlds: Log::new(),
            loose: false,
        };
        assert(res@.types =~= Seq::<WitTypeView>::empty());
        assert(res@.homes =~= Seq::<Option<usize>>::empty());
        res
    }

    /// Adds a decoded type.
    fn add_type(
        &mut self,
        alias: Option<usize>,
        owner: Option<usize>,
        tag: TypeTag,
        parts: Vec<(String, Child)>,
    ) -> (res: usize)
        ensures
            res == old(self)@.types.len() as usize,
            final(self)@ == with_type(old(self)@, alias, owner, tag, children_of(parts@)),
    {
        let index: usize = self.types.len();
        let ghost before = self.types@;
        let ty = WitType { alias, owner, tag, parts };
        let ghost view = ty@;
        self.types.push(ty);
        assert(wit_types(self.types@) =~= wit_types(before).push(view));
        index
    }

    /// Adds a scope, which is no interface of another package.
    fn add_scope(&mut self) -> (res: usize)
        ensures
            res == old(self)@.homes.len() as usize,
            final(self)@ == with_scope(old(self)@),
    {
        let scope: usize = self.homes.len();
        self.homes.push(None);
        scope
    }

    /// Makes a type known.
    fn make_known(&mut self, id: usize, decoded: usize)
        ensures
            final(self)@ == with_known(old(self)@, id, decoded),
    {
        self.known.add(id, "", decoded);
    }

    /// Decodes the parts of a type.
    fn convert_parts(&mut self, parts: &Vec<PartShape>) -> (res: Result<
        Vec<(String, Child)>,
        Trouble,
    >)
        ensures
            match (res, convert_parts(old(self)@, parts_of(parts@), 0, Seq::empty())) {
                (Ok(r), Ok((desk, done))) => final(self)@ == desk && children_of(r@) == done,
                (Err(t), Err(e)) => t == e,
                _ => false,
            },
        decreases parts, 0int,
    {
        let ghost views = parts_of(parts@);
        let ghost start = self@;
        proof {
            lemma_parts(parts@);
        }
        let mut out: Vec<(String, Child)> = Vec::new();
        let mut i: usize = 0;
        assert(children_of(out@) =~= Seq::<(Seq<char>, Child)>::empty());
        while i < parts.len()
            invariant
                i <= parts.len(),
                start == old(self)@,
                views == parts_of(parts@),
                are_parts(views, parts@),
                convert_parts(start, views, 0, Seq::empty()) == convert_parts(
                    self@,
                    views,
                    i as int,
                    children_of(out@),
                ),
            decreases parts.len() - i,
        {
            let part = &parts[i];
            assert(views[i as int] == part_of(*part));
            let child = match &part.value {
                ValueShape::Absent => Child::Absent,
                ValueShape::Primitive => Child::Primitive,
                ValueShape::Defined(ty) => {
                    assert(decreases_to!(parts => parts@[i as int].value->Defined_0));
                    match self.convert_type(ty) {
                        Ok(decoded) => Child::Decoded(decoded),
                        Err(t) => {
                            return Err(t);
                        },
                    }
                },
            };
            let ghost before = out@;
            out.push((part.name.clone(), child));
            assert(children_of(out@) =~= children_of(before).push((part.name@, child)));
            i += 1;
        }
        Ok(out)
    }

    /// Decodes a type that is used without a name.
    fn convert_type(&mut self, ty: &TypeShape) -> (res: Result<usize, Trouble>)
        ensures
            match (res, convert_type(old(self)@, type_of(*ty))) {
                (Ok(r), Ok((desk, decoded))) => final(self)@ == desk && r == decoded,
                (Err(t), Err(e)) => t == e,
                _ => false,
            },
        decreases ty, 1int,
    {
        if let Some(decoded) = self.known.find(ty.id, "") {
            return Ok(decoded);
        }
        match self.convert_defined(ty) {
            Ok(parts) => match ty.tag {
                TypeTag::Record | TypeTag::Variant | TypeTag::Labels => Err(Trouble::Refused),
                _ => {
                    let decoded: usize = self.add_type(None, None, ty.tag, parts);
                    self.make_known(ty.id, decoded);
                    Ok(decoded)
                },
            },
            Err(t) => Err(t),
        }
    }

    /// Decodes how a type is made up.
    fn convert_defined(&mut self, ty: &TypeShape) -> (res: Result<Vec<(String, Child)>, Trouble>)
        ensures
            match (res, convert_defined(old(self)@, type_of(*ty))) {
                (Ok(r), Ok((desk, parts))) => final(self)@ == desk && children_of(r@) == parts,
                (Err(t), Err(e)) => t == e,
                _ => false,
            },
        decreases ty, 0int,
    {
        match ty.tag {
            TypeTag::Handle => {
                let known = match ty.handle {
                    Some(resource) => self.known.find(resource, "").is_some(),
                    None => false,
                };
                if known {
                    let parts: Vec<(String, Child)> = Vec::new();
                    assert(children_of(parts@) =~= Seq::<(Seq<char>, Child)>::empty());
                    Ok(parts)
                } else {
                    Err(Trouble::Stuck)
                }
            },
            _ => self.convert_parts(&ty.parts),
        }
    }

    /// The decoded type of the first of the types that is known.
    fn first_known(&self, id: usize, aliases: &Vec<usize>) -> (res: Option<usize>)
        ensures
            res == first_known(self@, seq![id] + aliases@, 0),
    {
        let ghost ids = seq![id] + aliases@;
        if let Some(decoded) = self.known.find(id, "") {
            return Some(decoded);
        }
        let mut i: usize = 0;
        while i < aliases.len()
            invariant
                i <= aliases.len(),
                ids == seq![id] + aliases@,
                first_known(self@, ids, 0) == first_known(self@, ids, i + 1),
            decreases aliases.len() - i,
        {
            assert(ids[i + 1] == aliases@[i as int]);
            if let Some(decoded) = self.known.find(aliases[i], "") {
                return Some(decoded);
            }
            i += 1;
        }
        None
    }

    /// Decodes a type that has a name in a scope, and makes it known.
    fn register_type(&mut self, item: &Extern, scope: usize) -> (res: Result<usize, Trouble>)
        ensures
            match (res, register_type(old(self)@, extern_of(*item), scope)) {
                (Ok(r), Ok((desk, decoded))) => final(self)@ == desk && r == decoded,
                (Err(t), Err(e)) => t == e,
                _ => false,
            },
    {
        let data = match &item.shape.data {
            Some(data) => data,
            None => {
                return Err(Trouble::Stuck);
            },
        };
        let alias = self.first_known(data.ty.id, &data.aliases);
        let fresh = alias.is_none() && data.ty.tag == TypeTag::Resource;
        let parts = if alias.is_some() || fresh {
            let parts: Vec<(String, Child)> = Vec::new();
            assert(children_of(parts@) =~= Seq::<(Seq<char>, Child)>::empty());
            parts
        } else {
            match self.convert_defined(&data.ty) {
                Ok(parts) => parts,
                Err(t) => {
                    return Err(t);
                },
            }
        };
        let decoded: usize = self.add_type(alias, Some(scope), data.ty.tag, parts);
        if fresh {
            self.resources.add(scope, item.name.as_str(), 0);
        }
        if self.known.find(data.created, "").is_some() {
            return Err(Trouble::Refused);
        }
        self.make_known(data.created, decoded);
        Ok(decoded)
    }
}

/// Holds the parts of a type against those of a decoded type, and makes the types among them known.
fn hold_parts(
    types: &Vec<WitType>,
    known: &mut Log,
    decoded: &Vec<(String, Child)>,
    parts: &Vec<PartShape>,
) -> (res: Result<(), Trouble>)
    requires
        decoded@.len() == parts@.len(),
    ensures
        match (
            res,
            match_parts(
                wit_types(types@),
                old(known)@,
                children_of(decoded@),
                parts_of(parts@),
                0,
            ),
        ) {
            (Ok(_), Ok(k)) => final(known)@ == k,
            (Err(t), Err(e)) => t == e,
            _ => false,
        },
    decreases parts, 0int,
{
    let ghost views = parts_of(parts@);
    let ghost children = children_of(decoded@);
    let ghost all = wit_types(types@);
    let ghost start = known@;
    proof {
        lemma_parts(parts@);
    }
    let mut i: usize = 0;
    while i < parts.len()
        invariant
            i <= parts.len(),
            decoded@.len() == parts@.len(),
            start == old(known)@,
            views == parts_of(parts@),
            are_parts(views, parts@),
            children == children_of(decoded@),
            all == wit_types(types@),
            match_parts(all, start, children, views, 0) == match_parts(
                all,
                known@,
                children,
                views,
                i as int,
            ),
        decreases parts.len() - i,
    {
        let part = &parts[i];
        let (name, child) = &decoded[i];
        assert(views[i as int] == part_of(*part));
        assert(children[i as int] == (name@, *child));
        if !same_text(name.as_str(), part.name.as_str()) {
            return Err(Trouble::Refused);
        }
        match (&part.value, *child) {
            (ValueShape::Absent, Child::Absent) => {},
            (ValueShape::Primitive, Child::Primitive) => {},
            (ValueShape::Primitive, Child::Decoded(_)) => {
                return Err(Trouble::Stuck);
            },
            (ValueShape::Defined(ty), Child::Decoded(d)) => {
                let before = known.find(ty.id, "");
                known.add(ty.id, "", d);
                if before.is_none() {
                    assert(decreases_to!(parts => parts@[i as int].value->Defined_0));
                    match hold_type(types, known, d, ty) {
                        Ok(_) => {},
                        Err(t) => {
                            return Err(t);
                        },
                    }
                }
            },
            _ => {
                return Err(Trouble::Refused);
            },
        }
        i += 1;
    }
    Ok(())
}

/// Holds a type against a decoded type, and makes the types in it known.
fn hold_type(types: &Vec<WitType>, known: &mut Log, decoded: usize, ty: &TypeShape) -> (res: Result<
    (),
    Trouble,
>)
    ensures
        match (res, match_type(wit_types(types@), old(known)@, decoded, type_of(*ty))) {
            (Ok(_), Ok(k)) => final(known)@ == k,
            (Err(t), Err(e)) => t == e,
            _ => false,
        },
    decreases ty, 0int,
{
    match ty.tag {
        TypeTag::Primitive | TypeTag::Labels | TypeTag::Handle | TypeTag::Resource => {
            return Ok(());
        },
        _ => {},
    }
    if decoded >= types.len() {
        return Err(Trouble::Refused);
    }
    let found = &types[decoded];
    assert(wit_types(types@)[decoded as int] == found@);
    proof {
        lemma_parts(ty.parts@);
    }
    if found.alias.is_some() {
        return Ok(());
    }
    if found.tag != ty.tag || found.parts.len() != ty.parts.len() {
        return Err(Trouble::Refused);
    }
    hold_parts(types, known, &found.parts, &ty.parts)
}

// ---------------------------------------------------------------------------
// Interfaces, worlds and packages
// ---------------------------------------------------------------------------

impl Desk {
    /// Decodes a function.
    fn convert_function(&mut self, item: &Extern, scope: usize) -> (res: Result<(), Trouble>)
        ensures
            match (res, convert_function(old(self)@, extern_of(*item), scope)) {
                (Ok(_), Ok(desk)) => final(self)@ == desk,
                (Err(t), Err(e)) => t == e,
                _ => false,
            },
    {
        if let NameKind::Invalid = &item.kind {
            return Err(Trouble::Stuck);
        }
        match self.convert_parts(&item.shape.signature) {
            Ok(_) => {},
            Err(t) => {
                return Err(t);
            },
        }
        match &item.kind {
            NameKind::Label => Ok(()),
            NameKind::Member(resource) => if self.resources.find(
                scope,
                resource.as_str(),
            ).is_some() {
                Ok(())
            } else {
                Err(Trouble::Stuck)
            },
            _ => Err(Trouble::Stuck),
        }
    }

    /// Finds the interface of another package, or makes one.
    fn foreign_interface(&mut self, kind: &NameKind) -> (res: Result<usize, Trouble>)
        ensures
            match (res, foreign_interface(old(self)@, kind@)) {
                (Ok(r), Ok((desk, scope))) => final(self)@ == desk && r == scope,
                (Err(t), Err(e)) => t == e,
                _ => false,
            },
    {
        match kind {
            NameKind::Invalid => Err(Trouble::Stuck),
            NameKind::Interface(Some(package), label) => {
                let home: usize = match self.packages.find(0, package.as_str()) {
                    Some(home) => home,
                    None => {
                        let home: usize = self.packages.entries.len();
                        self.packages.add(0, package.as_str(), home);
                        home
                    },
                };
                match self.foreign.find(home, label.as_str()) {
                    Some(scope) => Ok(scope),
                    None => {
                        let scope: usize = self.homes.len();
                        self.homes.push(Some(home));
                        self.foreign.add(home, label.as_str(), scope);
                        Ok(scope)
                    },
                }
            },
            _ => Err(Trouble::Refused),
        }
    }

    /// Decodes a type of an interface.
    fn define_type(&mut self, item: &Extern, scope: usize) -> (res: Result<(), Trouble>)
        ensures
            match (res, define_type(old(self)@, extern_of(*item), scope)) {
                (Ok(_), Ok(desk)) => final(self)@ == desk,
                (Err(t), Err(e)) => t == e,
                _ => false,
            },
    {
        match self.register_type(item, scope) {
            Ok(decoded) => {
                self.members.add(scope, item.name.as_str(), decoded);
                Ok(())
            },
            Err(t) => Err(t),
        }
    }

    /// Decodes a function of an interface.
    fn define_function(&mut self, item: &Extern, scope: usize) -> (res: Result<(), Trouble>)
        ensures
            match (res, define_function(old(self)@, extern_of(*item), scope)) {
                (Ok(_), Ok(desk)) => final(self)@ == desk,
                (Err(t), Err(e)) => t == e,
                _ => false,
            },
    {
        match self.convert_function(item, scope) {
            Ok(_) => {
                self.functions.add(scope, item.name.as_str(), 0);
                Ok(())
            },
            Err(t) => Err(t),
        }
    }

    /// Decodes what an instance exports whose interface may have it already.
    fn import_member(&mut self, item: &Extern, scope: usize, local: bool) -> (res: Result<
        (),
        Trouble,
    >)
        ensures
            match (res, import_member(old(self)@, extern_of(*item), scope, local)) {
                (Ok(_), Ok(desk)) => final(self)@ == desk,
                (Err(t), Err(e)) => t == e,
                _ => false,
            },
    {
        match item.shape.kind {
            ShapeKind::DataType | ShapeKind::OtherType | ShapeKind::ComponentType => {
                let decoded: usize = match self.members.find(scope, item.name.as_str()) {
                    Some(decoded) => decoded,
                    None => {
                        if local {
                            return Err(Trouble::Refused);
                        }
                        return self.define_type(item, scope);
                    },
                };
                let data = match &item.shape.data {
                    Some(data) => data,
                    None => {
                        return Err(Trouble::Stuck);
                    },
                };
                match hold_type(&self.types, &mut self.known, decoded, &data.ty) {
                    Ok(_) => {},
                    Err(t) => {
                        return Err(t);
                    },
                }
                if self.known.find(data.created, "").is_some() {
                    return Err(Trouble::Stuck);
                }
                self.make_known(data.created, decoded);
                Ok(())
            },
            ShapeKind::Function => {
                if self.functions.find(scope, item.name.as_str()).is_some() {
                    return Ok(());
                }
                if local {
                    return Err(Trouble::Refused);
                }
                self.define_function(item, scope)
            },
            _ => Err(Trouble::Refused),
        }
    }

    /// Decodes an instance whose interface has a full name.
    fn register_import(&mut self, name: &str, kind: &NameKind, shape: &Shape) -> (res: Result<
        (),
        Trouble,
    >)
        ensures
            match (res, register_import(old(self)@, name@, kind@, shape_of(*shape))) {
                (Ok(_), Ok(desk)) => final(self)@ == desk,
                (Err(t), Err(e)) => t == e,
                _ => false,
            },
    {
        if shape.kind != ShapeKind::Instance {
            return Err(Trouble::Refused);
        }
        let (scope, local) = match self.named.find(0, name) {
            Some(scope) => (scope, true),
            None => match self.foreign_interface(kind) {
                Ok(scope) => (scope, false),
                Err(t) => {
                    return Err(t);
                },
            },
        };
        let list = &shape.exports;
        let ghost views = externs_of(list@);
        let ghost start = self@;
        proof {
            lemma_externs(list@);
        }
        let mut i: usize = 0;
        while i < list.len()
            invariant
                i <= list.len(),
                are_externs(views, list@),
                import_members(start, views, 0, scope, local) == import_members(
                    self@,
                    views,
                    i as int,
                    scope,
                    local,
                ),
                views == externs_of(list@),
                match (
                    import_members(start, views, 0, scope, local),
                    register_import(old(self)@, name@, kind@, shape_of(*shape)),
                ) {
                    (Ok(a), Ok(b)) => a == b,
                    (Err(a), Err(b)) => a == b,
                    _ => false,
                },
            decreases list.len() - i,
        {
            assert(views[i as int] == extern_of(list@[i as int]));
            match self.import_member(&list[i], scope, local) {
                Ok(_) => {},
                Err(t) => {
                    return Err(t);
                },
            }
            i += 1;
        }
        Ok(())
    }

    /// Decodes what an instance exports whose interface is new.
    fn define_members(&mut self, list: &Vec<Extern>, scope: usize) -> (res: Result<(), Trouble>)
        ensures
            match (res, define_members(old(self)@, externs_of(list@), 0, scope)) {
                (Ok(_), Ok(desk)) => final(self)@ == desk,
                (Err(t), Err(e)) => t == e,
                _ => false,
            },
    {
        let ghost views = externs_of(list@);
        let ghost start = self@;
        proof {
            lemma_externs(list@);
        }
        let mut i: usize = 0;
        while i < list.len()
            invariant
                i <= list.len(),
                start == old(self)@,
                views == externs_of(list@),
                are_externs(views, list@),
                define_members(start, views, 0, scope) == define_members(
                    self@,
                    views,
                    i as int,
                    scope,
                ),
            decreases list.len() - i,
        {
            let item = &list[i];
            assert(views[i as int] == extern_of(*item));
            let step = match item.shape.kind {
                ShapeKind::DataType | ShapeKind::OtherType | ShapeKind::ComponentType => {
                    self.define_type(item, scope)
                },
                ShapeKind::Function => self.define_function(item, scope),
                _ => Err(Trouble::Refused),
            };
            match step {
                Ok(_) => {},
                Err(t) => {
                    return Err(t);
                },
            }
            i += 1;
        }
        Ok(())
    }

    /// Decodes an instance with an interface of its own, or one of the package.
    fn register_interface(&mut self, item: &Extern, top: bool) -> (res: Result<(), Trouble>)
        ensures
            match (res, register_interface(old(self)@, extern_of(*item), top)) {
                (Ok(_), Ok(desk)) => final(self)@ == desk,
                (Err(t), Err(e)) => t == e,
                _ => false,
            },
    {
        if self.named.find(0, item.name.as_str()).is_some() {
            return self.register_import(item.name.as_str(), &item.kind, &item.shape);
        }
        match &item.kind {
            NameKind::Interface(_, label) => {
                let scope: usize = self.add_scope();
                match self.define_members(&item.shape.exports, scope) {
                    Ok(_) => {},
                    Err(t) => {
                        return Err(t);
                    },
                }
                if self.interfaces.find(0, label.as_str()).is_some() {
                    return Err(Trouble::Stuck);
                }
                self.interfaces.add(0, label.as_str(), scope);
                self.named.add(0, item.name.as_str(), scope);
                Ok(())
            },
            NameKind::Label => {
                let scope: usize = self.add_scope();
                match self.define_members(&item.shape.exports, scope) {
                    Ok(_) => {},
                    Err(t) => {
                        return Err(t);
                    },
                }
                self.loose = self.loose || top;
                Ok(())
            },
            _ => Err(Trouble::Refused),
        }
    }

    /// Decodes an instance in a world.
    fn world_instance(&mut self, item: &Extern) -> (res: Result<(), Trouble>)
        ensures
            match (res, world_instance(old(self)@, extern_of(*item))) {
                (Ok(_), Ok(desk)) => final(self)@ == desk,
                (Err(t), Err(e)) => t == e,
                _ => false,
            },
    {
        if let Some((name, kind)) = &item.implements {
            return self.register_import(name.as_str(), kind, &item.shape);
        }
        match &item.kind {
            NameKind::Invalid => Err(Trouble::Refused),
            NameKind::Interface(_, _) => self.register_import(
                item.name.as_str(),
                &item.kind,
                &item.shape,
            ),
            _ => self.register_interface(item, false),
        }
    }

    /// Decodes what a world imports or exports.
    fn world_item(&mut self, item: &Extern, scope: usize, imported: bool, strict: bool) -> (res: Result<
        (),
        Trouble,
    >)
        ensures
            match (res, world_item(old(self)@, extern_of(*item), scope, imported, strict)) {
                (Ok(_), Ok(desk)) => final(self)@ == desk,
                (Err(t), Err(e)) => t == e,
                _ => false,
            },
    {
        match item.shape.kind {
            ShapeKind::Instance => self.world_instance(item),
            ShapeKind::Function => self.convert_function(item, scope),
            ShapeKind::DataType | ShapeKind::OtherType | ShapeKind::ComponentType => {
                if !imported {
                    return Err(Trouble::Refused);
                }
                match self.register_type(item, scope) {
                    Ok(_) => Ok(()),
                    Err(t) => Err(t),
                }
            },
            _ => if imported && !strict {
                Ok(())
            } else {
                Err(Trouble::Refused)
            },
        }
    }

    /// Decodes what a world of a package imports or exports.
    fn world_items(&mut self, list: &Vec<Extern>, scope: usize, imported: bool) -> (res: Result<
        (),
        Trouble,
    >)
        ensures
            match (res, world_items(old(self)@, externs_of(list@), 0, scope, imported)) {
                (Ok(_), Ok(desk)) => final(self)@ == desk,
                (Err(t), Err(e)) => t == e,
                _ => false,
            },
    {
        let ghost views = externs_of(list@);
        let ghost start = self@;
        proof {
            lemma_externs(list@);
        }
        let mut i: usize = 0;
        while i < list.len()
            invariant
                i <= list.len(),
                start == old(self)@,
                views == externs_of(list@),
                are_externs(views, list@),
                world_items(start, views, 0, scope, imported) == world_items(
                    self@,
                    views,
                    i as int,
                    scope,
                    imported,
                ),
            decreases list.len() - i,
        {
            assert(views[i as int] == extern_of(list@[i as int]));
            match self.world_item(&list[i], scope, imported, true) {
                Ok(_) => {},
                Err(t) => {
                    return Err(t);
                },
            }
            i += 1;
        }
        Ok(())
    }

    /// Decodes a world of a package.
    fn register_world(&mut self, item: &Extern) -> (res: Result<(), Trouble>)
        ensures
            match (res, register_world(old(self)@, extern_of(*item))) {
                (Ok(_), Ok(desk)) => final(self)@ == desk,
                (Err(t), Err(e)) => t == e,
                _ => false,
            },
    {
        let label = match &item.kind {
            NameKind::Interface(_, label) => label,
            _ => {
                return Err(Trouble::Refused);
            },
        };
        let scope: usize = self.add_scope();
        match self.world_items(&item.shape.imports, scope, true) {
            Ok(_) => {},
            Err(t) => {
                return Err(t);
            },
        }
        match self.world_items(&item.shape.exports, scope, false) {
            Ok(_) => {},
            Err(t) => {
                return Err(t);
            },
        }
        if self.worlds.find(0, label.as_str()).is_some() {
            return Err(Trouble::Stuck);
        }
        self.worlds.add(0, label.as_str(), scope);
        Ok(())
    }

    /// Decodes what a component imports and exports.
    fn component_items(&mut self, items: &Vec<(bool, Extern)>) -> (res: Result<(), Trouble>)
        ensures
            match (res, component_items(old(self)@, items_of(items@), 0)) {
                (Ok(_), Ok(desk)) => final(self)@ == desk,
                (Err(t), Err(e)) => t == e,
                _ => false,
            },
    {
        let ghost views = items_of(items@);
        let ghost start = self@;
        let mut i: usize = 0;
        while i < items.len()
            invariant
                i <= items.len(),
                start == old(self)@,
                views == items_of(items@),
                component_items(start, views, 0) == component_items(self@, views, i as int),
            decreases items.len() - i,
        {
            let (imported, item) = &items[i];
            assert(views[i as int] == (*imported, extern_of(*item)));
            match self.world_item(item, 0, *imported, false) {
                Ok(_) => {},
                Err(t) => {
                    return Err(t);
                },
            }
            i += 1;
        }
        Ok(())
    }

    /// Decodes what a part of a package imports.
    fn package_imports(&mut self, list: &Vec<Extern>) -> (res: Result<(), Trouble>)
        ensures
            match (res, package_imports(old(self)@, externs_of(list@), 0)) {
                (Ok(_), Ok(desk)) => final(self)@ == desk,
                (Err(t), Err(e)) => t == e,
                _ => false,
            },
    {
        let ghost views = externs_of(list@);
        let ghost start = self@;
        proof {
            lemma_externs(list@);
        }
        let mut i: usize = 0;
        while i < list.len()
            invariant
                i <= list.len(),
                start == old(self)@,
                views == externs_of(list@),
                are_externs(views, list@),
                package_imports(start, views, 0) == package_imports(self@, views, i as int),
            decreases list.len() - i,
        {
            let item = &list[i];
            assert(views[i as int] == extern_of(*item));
            match self.register_import(item.name.as_str(), &item.kind, &item.shape) {
                Ok(_) => {},
                Err(t) => {
                    return Err(t);
                },
            }
            i += 1;
        }
        Ok(())
    }

    /// Decodes what a package as a whole exports.
    fn package_exports(&mut self, list: &Vec<Extern>) -> (res: Result<(), Trouble>)
        ensures
            match (res, package_exports(old(self)@, externs_of(list@), 0)) {
                (Ok(_), Ok(desk)) => final(self)@ == desk,
                (Err(t), Err(e)) => t == e,
                _ => false,
            },
    {
        let ghost views = externs_of(list@);
        let ghost start = self@;
        proof {
            lemma_externs(list@);
        }
        let mut i: usize = 0;
        while i < list.len()
            invariant
                i <= list.len(),
                start == old(self)@,
                views == externs_of(list@),
                are_externs(views, list@),
                package_exports(start, views, 0) == package_exports(self@, views, i as int),
            decreases list.len() - i,
        {
            let item = &list[i];
            assert(views[i as int] == extern_of(*item));
            let step = match item.shape.kind {
                ShapeKind::Instance => self.register_interface(item, true),
                ShapeKind::Component => self.register_world(item),
                _ => Err(Trouble::Refused),
            };
            match step {
                Ok(_) => {},
                Err(t) => {
                    return Err(t);
                },
            }
            i += 1;
        }
        Ok(())
    }

    /// Decodes a part of a package that is one interface or one world, and gives the package that this belongs
    /// to.
    fn package_part<'a>(&mut self, shape: &'a Shape) -> (res: Result<&'a String, Trouble>)
        ensures
            match (res, package_part(old(self)@, shape_of(*shape))) {
                (Ok(r), Ok((desk, package))) => final(self)@ == desk && r@ == package,
                (Err(t), Err(e)) => t == e,
                _ => false,
            },
    {
        proof {
            lemma_externs(shape.exports@);
        }
        if shape.exports.len() != 1 {
            return Err(Trouble::Refused);
        }
        let item = &shape.exports[0];
        assert(shape_of(*shape).exports[0] == extern_of(*item));
        match item.shape.kind {
            ShapeKind::Instance | ShapeKind::Component => {},
            _ => {
                return Err(Trouble::Stuck);
            },
        }
        let package = match &item.kind {
            NameKind::Interface(Some(package), _) => package,
            _ => {
                return Err(Trouble::Refused);
            },
        };
        if item.shape.kind == ShapeKind::Instance {
            match self.package_imports(&shape.imports) {
                Ok(_) => {},
                Err(t) => {
                    return Err(t);
                },
            }
            match self.register_interface(item, true) {
                Ok(_) => Ok(package),
                Err(t) => Err(t),
            }
        } else {
            match self.register_world(item) {
                Ok(_) => Ok(package),
                Err(t) => Err(t),
            }
        }
    }

    /// Decodes the parts of a package, all of which belong to one package.
    fn package_parts<'a>(&mut self, items: &'a Vec<(bool, Extern)>) -> (res: Result<
        Option<&'a String>,
        Trouble,
    >)
        ensures
            match (res, package_parts(old(self)@, items_of(items@), 0, None)) {
                (Ok(r), Ok((desk, package))) => final(self)@ == desk && package == (match r {
                    Some(p) => Some(p@),
                    None => None,
                }),
                (Err(t), Err(e)) => t == e,
                _ => false,
            },
    {
        let ghost views = items_of(items@);
        let ghost start = self@;
        let mut package: Option<&'a String> = None;
        let mut i: usize = 0;
        while i < items.len()
            invariant
                i <= items.len(),
                start == old(self)@,
                views == items_of(items@),
                package_parts(start, views, 0, None) == package_parts(
                    self@,
                    views,
                    i as int,
                    match package {
                        Some(p) => Some(p@),
                        None => None,
                    },
                ),
            decreases items.len() - i,
        {
            let (_, item) = &items[i];
            assert(views[i as int].1 == extern_of(*item));
            let name = match self.package_part(&item.shape) {
                Ok(name) => name,
                Err(t) => {
                    return Err(t);
                },
            };
            if let Some(before) = package {
                if !same_text(before.as_str(), name.as_str()) {
                    return Err(Trouble::Refused);
                }
            }
            package = Some(name);
            i += 1;
        }
        Ok(package)
    }

}

// ---------------------------------------------------------------------------
// What belongs together
// ---------------------------------------------------------------------------

impl Desk {
    /// What an entry for a type of an interface leads to.
    fn lead(&self, scope: usize, decoded: usize) -> (res: Lead)
        ensures
            forall|name: Seq<char>| res == #[trigger] lead_of(self@, (scope, name, decoded)),
    {
        if scope >= self.homes.len() || decoded >= self.types.len() {
            return Lead::Nowhere;
        }
        let ty = &self.types[decoded];
        assert(self@.types[decoded as int] == ty@);
        match (self.homes[scope], ty.alias) {
            (Some(home), Some(alias)) => {
                if alias >= self.types.len() {
                    return Lead::Nowhere;
                }
                let other = &self.types[alias];
                assert(self@.types[alias as int] == other@);
                match (other.owner, ty.owner) {
                    (Some(a), Some(b)) => {
                        if a == b {
                            return Lead::Nowhere;
                        }
                    },
                    (None, None) => {
                        return Lead::Nowhere;
                    },
                    _ => {},
                }
                match other.owner {
                    Some(owner) => if owner < self.homes.len() {
                        match self.homes[owner] {
                            Some(to) => {
                                let n: usize = self.packages.entries.len();
                                if home < n && to < n {
                                    Lead::Package(home, to)
                                } else {
                                    Lead::Astray
                                }
                            },
                            None => Lead::Astray,
                        }
                    } else {
                        Lead::Astray
                    },
                    None => Lead::Astray,
                }
            },
            _ => Lead::Nowhere,
        }
    }

    /// What the types of the interfaces lead to.
    fn leads(&self) -> (res: Vec<Lead>)
        ensures
            res@ == leads_of(self@),
    {
        let mut out: Vec<Lead> = Vec::new();
        let mut i: usize = 0;
        while i < self.members.entries.len()
            invariant
                i <= self.members.entries.len(),
                out@.len() == i,
                forall|j: int| 0 <= j < i ==> #[trigger] out@[j] == leads_of(self@)[j],
            decreases self.members.entries.len() - i,
        {
            let (scope, name, decoded) = &self.members.entries[i];
            assert(self@.members[i as int] == (*scope, name@, *decoded));
            let lead = self.lead(*scope, *decoded);
            assert(lead == lead_of(self@, (*scope, name@, *decoded)));
            out.push(lead);
            i += 1;
        }
        assert(out@ =~= leads_of(self@));
        out
    }

    /// Whether the package shares the name of an interface with what was taken for another package.
    fn finds_twin(&self, root: &str) -> (res: bool)
        ensures
            res == has_twin(self@, root@),
    {
        let home: usize = match self.packages.find(0, root) {
            Some(home) => home,
            None => {
                return false;
            },
        };
        let mut i: usize = 0;
        while i < self.foreign.entries.len()
            invariant
                i <= self.foreign.entries.len(),
                lookup(self@.packages, 0, root@) == Some(home),
                forall|j: int|
                    0 <= j < i ==> !((#[trigger] self@.foreign[j]).0 == home && lookup(
                        self@.interfaces,
                        0,
                        self@.foreign[j].1,
                    ) is Some),
            decreases self.foreign.entries.len() - i,
        {
            let (place, label, scope) = &self.foreign.entries[i];
            assert(self@.foreign[i as int] == (*place, label@, *scope));
            if *place == home && self.interfaces.find(0, label.as_str()).is_some() {
                return true;
            }
            i += 1;
        }
        false
    }

    /// Ends the decoding of a package.
    fn finish(&self, root: &str) -> (res: Result<(), Trouble>)
        ensures
            res == finish(self@, root@),
    {
        if self.loose || self.finds_twin(root) {
            return Err(Trouble::Stuck);
        }
        let leads = self.leads();
        let mut i: usize = 0;
        while i < leads.len()
            invariant
                i <= leads.len(),
                leads@ == leads_of(self@),
                forall|j: int| 0 <= j < i ==> (#[trigger] leads@[j]) != Lead::Astray,
            decreases leads.len() - i,
        {
            if leads[i] == Lead::Astray {
                assert(leads_of(self@)[i as int] == Lead::Astray);
                return Err(Trouble::Stuck);
            }
            i += 1;
        }
        if all_come_to_an_end(&leads, self.packages.entries.len()) {
            Ok(())
        } else {
            Err(Trouble::Stuck)
        }
    }
}

/// Whether the ways from all packages come to an end, of which there is the given number.
fn all_come_to_an_end(leads: &Vec<Lead>, count: usize) -> (res: bool)
    requires
        forall|i: int|
            0 <= i < leads@.len() ==> ((#[trigger] leads@[i]) matches Lead::Package(from, to) ==> from
                < count && to < count),
    ensures
        res == forall|p: usize|
            p < count ==> #[trigger] comes_to_an_end(leads@, p, count as nat),
{
    let mut ended: Vec<bool> = Vec::new();
    let mut p: usize = 0;
    while p < count
        invariant
            p <= count,
            ended@.len() == p,
            forall|q: usize|
                q < p ==> ended@[q as int] == #[trigger] comes_to_an_end(leads@, q, 0),
        decreases count - p,
    {
        ended.push(false);
        p += 1;
    }
    let mut steps: usize = 0;
    while steps < count
        invariant
            steps <= count,
            ended@.len() == count,
            forall|i: int|
                0 <= i < leads@.len() ==> ((#[trigger] leads@[i]) matches Lead::Package(from, to)
                    ==> from < count && to < count),
            forall|q: usize|
                q < count ==> ended@[q as int] == #[trigger] comes_to_an_end(
                    leads@,
                    q,
                    steps as nat,
                ),
        decreases count - steps,
    {
        let ghost before = steps as nat;
        ended = one_more_step(leads, &ended, Ghost(before));
        steps += 1;
        assert forall|q: usize| q < count implies ended@[q as int] == #[trigger] comes_to_an_end(
            leads@,
            q,
            steps as nat,
        ) by {
            assert(ended@[q as int] == comes_to_an_end(leads@, q, before + 1));
        }
    }
    p = 0;
    while p < count
        invariant
            p <= count,
            ended@.len() == count,
            forall|q: usize|
                q < count ==> ended@[q as int] == #[trigger] comes_to_an_end(
                    leads@,
                    q,
                    count as nat,
                ),
            forall|q: usize| q < p ==> ended@[q as int],
        decreases count - p,
    {
        if !ended[p] {
            assert(!comes_to_an_end(leads@, p, count as nat));
            return false;
        }
        p += 1;
    }
    assert forall|q: usize| q < count implies #[trigger] comes_to_an_end(
        leads@,
        q,
        count as nat,
    ) by {
        assert(ended@[q as int]);
    }
    true
}

/// From which packages all ways are shorter than one more step.
fn one_more_step(leads: &Vec<Lead>, ended: &Vec<bool>, Ghost(steps): Ghost<nat>) -> (res: Vec<bool>)
    requires
        forall|i: int|
            0 <= i < leads@.len() ==> ((#[trigger] leads@[i]) matches Lead::Package(from, to) ==> from
                < ended@.len() && to < ended@.len()),
        forall|q: usize|
            q < ended@.len() ==> ended@[q as int] == #[trigger] comes_to_an_end(leads@, q, steps),
    ensures
        res@.len() == ended@.len(),
        forall|q: usize|
            q < res@.len() ==> res@[q as int] == #[trigger] comes_to_an_end(leads@, q, steps + 1),
{
    let mut out: Vec<bool> = Vec::new();
    let mut p: usize = 0;
    while p < ended.len()
        invariant
            p <= ended.len(),
            out@.len() == p,
            forall|q: int| 0 <= q < p ==> #[trigger] out@[q],
        decreases ended.len() - p,
    {
        out.push(true);
        p += 1;
    }
    let mut i: usize = 0;
    while i < leads.len()
        invariant
            i <= leads.len(),
            out@.len() == ended@.len(),
            forall|j: int|
                0 <= j < leads@.len() ==> ((#[trigger] leads@[j]) matches Lead::Package(from, to)
                    ==> from < ended@.len() && to < ended@.len()),
            forall|q: int|
                0 <= q < out@.len() ==> (#[trigger] out@[q] <==> forall|j: int|
                    0 <= j < i ==> ((#[trigger] leads@[j]) matches Lead::Package(from, to) ==> from == q
                        && to != q ==> ended@[to as int])),
        decreases leads.len() - i,
    {
        let ghost before = out@;
        if let Lead::Package(from, to) = leads[i] {
            if from != to && !ended[to] {
                out.set(from, false);
            }
        }
        proof {
            assert forall|q: int| 0 <= q < out@.len() implies (#[trigger] out@[q] <==> forall|j: int|
                0 <= j < i + 1 ==> ((#[trigger] leads@[j]) matches Lead::Package(from, to) ==> from == q
                    && to != q ==> ended@[to as int])) by {
                assert(before[q] <==> forall|j: int|
                    0 <= j < i ==> ((#[trigger] leads@[j]) matches Lead::Package(from, to) ==> from == q
                        && to != q ==> ended@[to as int]));
                assert(leads@[i as int] == leads@[i as int]);
            }
        }
        i += 1;
    }
    assert forall|q: usize| q < out@.len() implies out@[q as int] == #[trigger] comes_to_an_end(
        leads@,
        q,
        steps + 1,
    ) by {
        let p = q as int;
        assert(out@[p] <==> forall|j: int|
            0 <= j < leads@.len() ==> ((#[trigger] leads@[j]) matches Lead::Package(from, to) ==> from
                == p && to != p ==> ended@[to as int]));
        assert((steps + 1 - 1) as nat == steps);
        if out@[p] {
            assert forall|j: int| 0 <= j < leads@.len() implies ((#[trigger] leads@[j]) matches Lead::Package(
                from,
                to,
            ) ==> from == q && to != q ==> comes_to_an_end(leads@, to, steps)) by {
                if let Lead::Package(from, to) = leads@[j] {
                    assert(ended@[to as int] == comes_to_an_end(leads@, to, steps));
                }
            }
        }
        if comes_to_an_end(leads@, q, steps + 1) {
            assert forall|j: int| 0 <= j < leads@.len() implies ((#[trigger] leads@[j]) matches Lead::Package(
                from,
                to,
            ) ==> from == p && to != p ==> ended@[to as int]) by {
                if let Lead::Package(from, to) = leads@[j] {
                    assert(ended@[to as int] == comes_to_an_end(leads@, to, steps));
                }
            }
        }
    }
    out
}

/// Whether what a component exports is the encoding of a package.
fn is_package_encoding(items: &Vec<(bool, Extern)>) -> (res: bool)
    ensures
        res == is_package(items_of(items@)),
{
    let ghost views = items_of(items@);
    let mut i: usize = 0;
    while i < items.len()
        invariant
            i <= items.len(),
            views == items_of(items@),
            forall|j: int|
                0 <= j < i ==> !(#[trigger] views[j]).0 && views[j].1.shape.kind
                    == ShapeKind::ComponentType,
        decreases items.len() - i,
    {
        let (imported, item) = &items[i];
        assert(views[i as int] == (*imported, extern_of(*item)));
        if *imported || item.shape.kind != ShapeKind::ComponentType {
            return false;
        }
        i += 1;
    }
    items.len() > 0
}

/// Decodes a component with the given imports and exports: whether each is imported, and what it is.
pub fn rehearse(items: &Vec<(bool, Extern)>) -> (res: Result<(), Trouble>)
    ensures
        res == decoding(items_of(items@)),
{
    let ghost views = items_of(items@);
    let mut desk = Desk::new();
    if is_package_encoding(items) {
        let (_, first) = &items[0];
        assert(views[0].1 == extern_of(*first));
        match &first.kind {
            NameKind::Interface(package, label) => {
                if same_text(label.as_str(), "wit") {
                    match desk.package_imports(&first.shape.imports) {
                        Ok(_) => {},
                        Err(t) => {
                            return Err(t);
                        },
                    }
                    let root = match package {
                        Some(root) => root,
                        None => {
                            return Err(Trouble::Refused);
                        },
                    };
                    match desk.package_exports(&first.shape.exports) {
                        Ok(_) => {},
                        Err(t) => {
                            return Err(t);
                        },
                    }
                    if items.len() > 1 {
                        return Err(Trouble::Refused);
                    }
                    return desk.finish(root.as_str());
                }
            },
            NameKind::Label => {
                match desk.package_parts(items) {
                    Ok(package) => {
                        return match package {
                            Some(root) => desk.finish(root.as_str()),
                            None => Err(Trouble::Refused),
                        };
                    },
                    Err(t) => {
                        return Err(t);
                    },
                }
            },
            _ => {},
        }
    }
    let _scope: usize = desk.add_scope();
    match desk.component_items(items) {
        Ok(_) => desk.finish("root:component"),
        Err(t) => Err(t),
    }
}

} // verus!
