//! The interface of a component: what it exports and imports.

use vstd::prelude::*;
use wit_component::DecodedWasm;

use crate::error::Error;
use crate::error::ErrorView;
use crate::oci::decoding::decoding;
use crate::oci::decoding::Trouble;
use crate::oci::rehearsal::rehearse;
use crate::oci::shape::binary_items;
use crate::oci::shape::read_items;
use crate::text::opt_text;
use crate::text::same_text;
use crate::text::texts;

verus! {

// ---------------------------------------------------------------------------
// Decoded interfaces
// ---------------------------------------------------------------------------

/// `wit_component::DecodedWasm`, a decoded component or a decoded package of interfaces.
#[verifier::external_type_specification]
#[verifier::external_body]
pub struct ExDecodedWasm(DecodedWasm);

/// The names of what a world exports and imports.
#[derive(Debug, PartialEq)]
pub struct WitWorld {
    pub exports: Vec<String>,
    pub imports: Vec<String>,
}

/// A package of interfaces.
#[derive(Debug, PartialEq)]
pub struct WitPackage {
    pub namespace: String,
    pub name: String,
    pub version: Option<String>,
    /// The name of each world and the names of what it exports, as far as the world is there.
    pub worlds: Vec<Option<(String, Vec<String>)>>,
    /// The name of each interface, as far as it has one.
    pub interfaces: Vec<Option<String>>,
}

/// What a binary describes.
#[derive(Debug, PartialEq)]
pub enum Wit {
    /// A component, with its world.
    Component(Option<WitWorld>),
    /// A package of interfaces.
    Package(Option<WitPackage>),
}

/// The contents of a world.
pub struct WorldView {
    pub exports: Seq<Seq<char>>,
    pub imports: Seq<Seq<char>>,
}

/// The contents of a package of interfaces.
pub struct PackageView {
    pub namespace: Seq<char>,
    pub name: Seq<char>,
    pub version: Option<Seq<char>>,
    pub worlds: Seq<Option<(Seq<char>, Seq<Seq<char>>)>>,
    pub interfaces: Seq<Option<Seq<char>>>,
}

/// The contents of what a binary describes.
pub enum WitView {
    Component(Option<WorldView>),
    Package(Option<PackageView>),
}

impl View for WitWorld {
    type V = WorldView;

    open spec fn view(&self) -> WorldView {
        WorldView { exports: texts(self.exports@), imports: texts(self.imports@) }
    }
}

/// The contents of a world of a package.
pub open spec fn world_of(world: Option<(String, Vec<String>)>) -> Option<
    (Seq<char>, Seq<Seq<char>>),
> {
    match world {
        Some((name, exports)) => Some((name@, texts(exports@))),
        None => None,
    }
}

impl View for WitPackage {
    type V = PackageView;

    open spec fn view(&self) -> PackageView {
        PackageView {
            namespace: self.namespace@,
            name: self.name@,
            version: opt_text(self.version),
            worlds: Seq::new(self.worlds@.len(), |i: int| world_of(self.worlds@[i])),
            interfaces: Seq::new(self.interfaces@.len(), |i: int| opt_text(self.interfaces@[i])),
        }
    }
}

impl View for Wit {
    type V = WitView;

    open spec fn view(&self) -> WitView {
        match self {
            Wit::Component(Some(world)) => WitView::Component(Some(world@)),
            Wit::Component(None) => WitView::Component(None),
            Wit::Package(Some(package)) => WitView::Package(Some(package@)),
            Wit::Package(None) => WitView::Package(None),
        }
    }
}

/// What a decoded binary describes.
pub uninterp spec fn wit_contents(decoded: DecodedWasm) -> WitView;

/// What `wit_component::decode` finds in the bytes, or the text of its error and those of its causes.
pub uninterp spec fn decoded_wit(data: Seq<u8>) -> Result<WitView, Seq<Seq<char>>>;

/// Whether decoding the binary comes to an end, with a WIT or an error. Where the bytes are no valid binary, it
/// ends with an error.
pub open spec fn may_decode(data: Seq<u8>) -> bool {
    binary_items(data) matches Some(items) ==> decoding(items) != Err::<(), Trouble>(Trouble::Stuck)
}

/// `wit_component::decode` reads the interface of a component, or a package of interfaces that is encoded
/// as a binary. What it finds is named, not spelt out. It panics, or does not return, on a valid binary whose
/// names and types do not fit together, where none of them makes it fail before. Such a binary is left out.
#[verifier::external_body]
fn decode(data: &[u8]) -> (res: Result<DecodedWasm, Vec<String>>)
    requires
        may_decode(data@),
    ensures
        match res {
            Ok(decoded) => decoded_wit(data@) == Ok::<WitView, Seq<Seq<char>>>(
                wit_contents(decoded),
            ),
            Err(chain) => decoded_wit(data@) == Err::<WitView, Seq<Seq<char>>>(texts(chain@))
                && chain@.len() > 0,
        },
{
    wit_component::decode(data).map_err(|e| e.chain().map(|cause| cause.to_string()).collect())
}

/// The variant `Component` of `wit_component::DecodedWasm`: its world, with the names that
/// `Resolve::name_world_key` gives to what it exports and imports, in their order. There is nothing here
/// for a package.
#[verifier::external_body]
fn component_world(decoded: &DecodedWasm) -> (res: Option<Option<WitWorld>>)
    ensures
        match res {
            Some(Some(world)) => wit_contents(*decoded) == WitView::Component(Some(world@)),
            Some(None) => wit_contents(*decoded) == WitView::Component(None),
            None => wit_contents(*decoded) is Package,
        },
{
    match decoded {
        DecodedWasm::Component(resolve, id) => Some(resolve.worlds.get(*id).map(|w| WitWorld {
            exports: w.exports.keys().map(|k| resolve.name_world_key(k)).collect(),
            imports: w.imports.keys().map(|k| resolve.name_world_key(k)).collect(),
        })),
        DecodedWasm::WitPackage(_, _) => None,
    }
}

/// The variant `WitPackage` of `wit_component::DecodedWasm`: its package, with the names that
/// `Resolve::name_world_key` gives to what each world exports and those that `Resolve::id_of` gives to
/// the interfaces, in their order.
#[verifier::external_body]
fn interface_package(decoded: &DecodedWasm) -> (res: Option<WitPackage>)
    requires
        wit_contents(*decoded) is Package,
    ensures
        match res {
            Some(package) => wit_contents(*decoded) == WitView::Package(Some(package@)),
            None => wit_contents(*decoded) == WitView::Package(None),
        },
{
    match decoded {
        DecodedWasm::WitPackage(r, id) => r.packages.get(*id).map(|p| WitPackage {
            namespace: p.name.namespace.clone(),
            name: p.name.name.clone(),
            version: p.name.version.as_ref().map(ToString::to_string),
            worlds: p.worlds.values().map(|id| r.worlds.get(*id).map(|w| (
                w.name.clone(),
                w.exports.keys().map(|k| r.name_world_key(k)).collect(),
            ))).collect(),
            interfaces: p.interfaces.values().map(|id| r.id_of(*id)).collect(),
        }),
        DecodedWasm::Component(_, _) => None,
    }
}

/// What a binary describes, or why it describes nothing.
pub open spec fn described_wit(data: Seq<u8>) -> Result<WitView, Seq<Seq<char>>> {
    if may_decode(data) {
        decoded_wit(data)
    } else {
        Err(seq!["no WIT describes the binary"@])
    }
}

/// Whether decoding the binary comes to an end, with a WIT or an error.
pub fn can_decode(data: &[u8]) -> (res: bool)
    ensures
        res == may_decode(data@),
{
    match read_items(data) {
        Some(items) => match rehearse(&items) {
            Err(Trouble::Stuck) => false,
            _ => true,
        },
        None => true,
    }
}

/// The error for what is no component, where nothing else caused it.
pub fn invalid_component(text: String) -> (res: Error)
    ensures
        res@ == ErrorView::InvalidComponent(text@, Seq::empty()),
{
    let res = Error::InvalidComponent(text, Vec::new());
    assert(res@->InvalidComponent_1 =~= Seq::<Seq<char>>::empty());
    res
}

/// Reads what a binary describes.
pub fn read_wit(data: &[u8]) -> (res: Result<Wit, Error>)
    ensures
        match described_wit(data@) {
            Ok(wit) => res matches Ok(w) && w@ == wit,
            Err(chain) => res matches Err(e) && chain.len() > 0 && e@ == ErrorView::InvalidComponent(
                "failed to decode WIT: "@ + chain[0],
                Seq::empty(),
            ),
        },
{
    let decoded = if can_decode(data) {
        decode(data)
    } else {
        let chain = vec!["no WIT describes the binary".to_string()];
        assert(texts(chain@) =~= seq!["no WIT describes the binary"@]);
        Err(chain)
    };
    match decoded {
        Err(chain) => {
            let mut message = "failed to decode WIT: ".to_string();
            message.append(chain[0].as_str());
            Err(invalid_component(message))
        },
        Ok(decoded) => {
            if let Some(world) = component_world(&decoded) {
                Ok(Wit::Component(world))
            } else {
                Ok(Wit::Package(interface_package(&decoded)))
            }
        },
    }
}

// ---------------------------------------------------------------------------
// Exports and imports
// ---------------------------------------------------------------------------

/// The list without the entries that occur in it before.
pub open spec fn distinct(list: Seq<Seq<char>>) -> Seq<Seq<char>>
    decreases list.len(),
{
    if list.len() == 0 {
        Seq::empty()
    } else {
        let rest = distinct(list.drop_last());
        if rest.contains(list.last()) {
            rest
        } else {
            rest.push(list.last())
        }
    }
}

/// The name of a world of a package, as in `namespace:name/world@version`.
pub open spec fn qualified_world(package: PackageView, world: Seq<char>) -> Seq<char> {
    let plain = package.namespace + ":"@ + package.name + "/"@ + world;
    match package.version {
        Some(version) => plain.push('@') + version,
        None => plain,
    }
}

/// The names of what the first `n` worlds of a package export, each followed by the name of the world.
pub open spec fn world_exports(package: PackageView, n: int) -> Seq<Seq<char>>
    decreases n,
{
    if n <= 0 {
        Seq::empty()
    } else {
        let before = world_exports(package, n - 1);
        match package.worlds[n - 1] {
            Some((name, exports)) => (before + exports).push(qualified_world(package, name)),
            None => before,
        }
    }
}

/// The names of the interfaces that have one.
pub open spec fn interface_names(interfaces: Seq<Option<Seq<char>>>) -> Seq<Seq<char>>
    decreases interfaces.len(),
{
    if interfaces.len() == 0 {
        Seq::empty()
    } else {
        let before = interface_names(interfaces.drop_last());
        match interfaces.last() {
            Some(name) => before.push(name),
            None => before,
        }
    }
}

/// What a package of interfaces exports: what its worlds export, the worlds themselves and the
/// interfaces, each of them once.
pub open spec fn package_exports(package: PackageView) -> Seq<Seq<char>> {
    distinct(
        world_exports(package, package.worlds.len() as int) + interface_names(package.interfaces),
    )
}

/// The exports and imports that are recorded for a binary. A package of interfaces imports nothing.
pub open spec fn component_of(wit: WitView) -> Result<WorldView, ErrorView> {
    match wit {
        WitView::Component(Some(world)) => Ok(world),
        WitView::Component(None) => Err(
            ErrorView::InvalidComponent("component world not found"@, Seq::empty()),
        ),
        WitView::Package(Some(package)) => Ok(
            WorldView { exports: package_exports(package), imports: Seq::empty() },
        ),
        WitView::Package(None) => Err(
            ErrorView::InvalidComponent("package not found"@, Seq::empty()),
        ),
    }
}

/// Adds an entry to a list, unless it is there.
fn add_once(list: &mut Vec<String>, entry: String, seen: Ghost<Seq<Seq<char>>>)
    requires
        texts(old(list)@) == distinct(seen@),
    ensures
        texts(final(list)@) == distinct(seen@.push(entry@)),
{
    let ghost e = entry@;
    let ghost before = list@;
    assert(seen@.push(e).drop_last() =~= seen@);
    let mut i: usize = 0;
    while i < list.len()
        invariant
            i <= list.len(),
            list@ == before,
            e == entry@,
            texts(before) == distinct(seen@),
            seen@.push(e).drop_last() == seen@,
            forall|j: int| 0 <= j < i ==> (#[trigger] texts(before)[j]) != e,
        decreases list.len() - i,
    {
        assert(texts(before)[i as int] == list@[i as int]@);
        if same_text(list[i].as_str(), entry.as_str()) {
            assert(distinct(seen@).contains(e));
            return;
        }
        i += 1;
    }
    assert(!distinct(seen@).contains(e));
    list.push(entry);
    assert(texts(list@) =~= texts(before).push(e));
}

/// Writes the name of a world of a package.
fn write_world(package: &WitPackage, world: &str) -> (res: String)
    ensures
        res@ == qualified_world(package@, world@),
{
    let mut name = package.namespace.clone();
    name.append(":");
    name.append(package.name.as_str());
    name.append("/");
    name.append(world);
    if let Some(version) = &package.version {
        name.push('@');
        name.append(version.as_str());
    }
    name
}

/// Collects what a package of interfaces exports.
fn collect_exports(package: &WitPackage) -> (res: Vec<String>)
    ensures
        texts(res@) == package_exports(package@),
{
    let mut list: Vec<String> = Vec::new();
    let ghost mut seen: Seq<Seq<char>> = Seq::empty();
    let ghost view = package@;
    assert(texts(list@) =~= Seq::<Seq<char>>::empty());
    let mut i: usize = 0;
    while i < package.worlds.len()
        invariant
            i <= package.worlds.len(),
            view == package@,
            seen == world_exports(view, i as int),
            texts(list@) == distinct(seen),
        decreases package.worlds.len() - i,
    {
        assert(view.worlds[i as int] == world_of(package.worlds@[i as int]));
        if let Some((name, exports)) = &package.worlds[i] {
            let ghost before = seen;
            let ghost all = texts(exports@);
            let mut j: usize = 0;
            assert(before + all.take(0) =~= before);
            while j < exports.len()
                invariant
                    j <= exports.len(),
                    all == texts(exports@),
                    seen == before + all.take(j as int),
                    texts(list@) == distinct(seen),
                decreases exports.len() - j,
            {
                add_once(&mut list, exports[j].clone(), Ghost(seen));
                proof {
                    assert(before + all.take(j + 1) =~= seen.push(all[j as int]));
                    seen = before + all.take(j + 1);
                }
                j += 1;
            }
            assert(all.take(j as int) =~= all);
            let world = write_world(package, name.as_str());
            let ghost w = world@;
            add_once(&mut list, world, Ghost(seen));
            proof {
                seen = seen.push(w);
            }
        }
        i += 1;
    }
    let ghost worlds = seen;
    let ghost names = view.interfaces;
    let mut k: usize = 0;
    assert(names.take(0) =~= Seq::<Option<Seq<char>>>::empty());
    assert(worlds + interface_names(names.take(0)) =~= worlds);
    while k < package.interfaces.len()
        invariant
            k <= package.interfaces.len(),
            view == package@,
            names == view.interfaces,
            seen == worlds + interface_names(names.take(k as int)),
            texts(list@) == distinct(seen),
        decreases package.interfaces.len() - k,
    {
        assert(names.take(k + 1).drop_last() =~= names.take(k as int));
        assert(names.take(k + 1).last() == opt_text(package.interfaces@[k as int]));
        if let Some(name) = &package.interfaces[k] {
            add_once(&mut list, name.clone(), Ghost(seen));
            proof {
                assert(worlds + interface_names(names.take(k as int)).push(name@) =~= seen.push(
                    name@,
                ));
                seen = seen.push(name@);
            }
        }
        k += 1;
    }
    assert(names.take(k as int) =~= names);
    list
}

/// The exports and imports that are recorded for a binary.
pub fn component_info(wit: Wit) -> (res: Result<WitWorld, Error>)
    ensures
        match component_of(wit@) {
            Ok(world) => res matches Ok(w) && w@ == world,
            Err(v) => res matches Err(e) && e@ == v,
        },
{
    match wit {
        Wit::Component(Some(world)) => Ok(world),
        Wit::Component(None) => Err(invalid_component("component world not found".to_string())),
        Wit::Package(Some(package)) => {
            let exports = collect_exports(&package);
            let world = WitWorld { exports, imports: Vec::new() };
            assert(texts(world.imports@) =~= Seq::<Seq<char>>::empty());
            Ok(world)
        },
        Wit::Package(None) => Err(invalid_component("package not found".to_string())),
    }
}

// ---------------------------------------------------------------------------
// Laws
// ---------------------------------------------------------------------------

/// Taking each entry once neither loses an entry nor adds one, and leaves none twice.
pub proof fn law_each_entry_once(list: Seq<Seq<char>>)
    ensures
        distinct(list).no_duplicates(),
        forall|e: Seq<char>| #[trigger] distinct(list).contains(e) <==> list.contains(e),
    decreases list.len(),
{
    if list.len() > 0 {
        let rest = list.drop_last();
        law_each_entry_once(rest);
        let before = distinct(rest);
        assert forall|e: Seq<char>| #[trigger] distinct(list).contains(e) <==> list.contains(
            e,
        ) by {
            assert(before.contains(e) <==> rest.contains(e));
            if list.contains(e) {
                let i = choose|i: int| 0 <= i < list.len() && list[i] == e;
                if i < rest.len() {
                    assert(rest[i] == e);
                    let k = choose|k: int| 0 <= k < before.len() && before[k] == e;
                    assert(distinct(list)[k] == e);
                } else if !before.contains(e) {
                    assert(distinct(list)[before.len() as int] == e);
                }
            }
            if distinct(list).contains(e) {
                let k = choose|k: int| 0 <= k < distinct(list).len() && distinct(list)[k] == e;
                if k < before.len() {
                    assert(before[k] == e);
                    let i = choose|i: int| 0 <= i < rest.len() && rest[i] == e;
                    assert(list[i] == e);
                } else {
                    assert(list[list.len() - 1] == e);
                }
            }
        }
    }
}

/// A package of interfaces exports each of its interfaces that has a name, each of its worlds, and all that
/// these export.
pub proof fn law_package_exports_are_complete(package: PackageView)
    ensures
        package_exports(package).no_duplicates(),
        forall|i: int|
            0 <= i < package.interfaces.len() ==> (#[trigger] package.interfaces[i] matches Some(n)
                ==> package_exports(package).contains(n)),
        forall|i: int|
            0 <= i < package.worlds.len() ==> (#[trigger] package.worlds[i] matches Some(w) ==> {
                &&& package_exports(package).contains(qualified_world(package, w.0))
                &&& forall|j: int|
                    0 <= j < w.1.len() ==> package_exports(package).contains(#[trigger] w.1[j])
            }),
{
    let worlds = world_exports(package, package.worlds.len() as int);
    let names = interface_names(package.interfaces);
    let list = worlds + names;
    law_each_entry_once(list);
    assert forall|i: int| 0 <= i < package.interfaces.len() implies (
    #[trigger] package.interfaces[i] matches Some(n) ==> package_exports(package).contains(n)) by {
        if let Some(n) = package.interfaces[i] {
            lemma_interface_named(package.interfaces, i);
            let k = choose|k: int| 0 <= k < names.len() && names[k] == n;
            assert(list[worlds.len() + k] == n);
            assert(list.contains(n));
        }
    }
    assert forall|i: int| 0 <= i < package.worlds.len() implies (
    #[trigger] package.worlds[i] matches Some(w) ==> {
        &&& package_exports(package).contains(qualified_world(package, w.0))
        &&& forall|j: int|
            0 <= j < w.1.len() ==> package_exports(package).contains(#[trigger] w.1[j])
    }) by {
        if let Some(w) = package.worlds[i] {
            lemma_world_exported(package, package.worlds.len() as int, i);
            let q = qualified_world(package, w.0);
            let k = choose|k: int| 0 <= k < worlds.len() && worlds[k] == q;
            assert(list[k] == q);
            assert(list.contains(q));
            assert forall|j: int| 0 <= j < w.1.len() implies package_exports(package).contains(
                #[trigger] w.1[j],
            ) by {
                let e = w.1[j];
                assert(worlds.contains(e));
                let k = choose|k: int| 0 <= k < worlds.len() && worlds[k] == e;
                assert(list[k] == e);
                assert(list.contains(e));
            }
        }
    }
}

/// An interface that has a name is among those that have one.
proof fn lemma_interface_named(interfaces: Seq<Option<Seq<char>>>, i: int)
    requires
        0 <= i < interfaces.len(),
        interfaces[i] is Some,
    ensures
        interface_names(interfaces).contains(interfaces[i]->0),
    decreases interfaces.len(),
{
    let all = interface_names(interfaces);
    let before = interface_names(interfaces.drop_last());
    let n = interfaces[i]->0;
    if i == interfaces.len() - 1 {
        assert(all[before.len() as int] == n);
    } else {
        lemma_interface_named(interfaces.drop_last(), i);
        let k = choose|k: int| 0 <= k < before.len() && before[k] == n;
        assert(all[k] == n);
    }
}

/// A world and what it exports are among the exports of the worlds.
proof fn lemma_world_exported(package: PackageView, n: int, i: int)
    requires
        0 <= i < n <= package.worlds.len(),
        package.worlds[i] is Some,
    ensures
        ({
            let w = package.worlds[i]->0;
            &&& world_exports(package, n).contains(qualified_world(package, w.0))
            &&& forall|j: int|
                0 <= j < w.1.len() ==> world_exports(package, n).contains(#[trigger] w.1[j])
        }),
    decreases n,
{
    let w = package.worlds[i]->0;
    let all = world_exports(package, n);
    let before = world_exports(package, n - 1);
    if i == n - 1 {
        assert(all[all.len() - 1] == qualified_world(package, w.0));
        assert forall|j: int| 0 <= j < w.1.len() implies all.contains(#[trigger] w.1[j]) by {
            assert(all[before.len() + j] == w.1[j]);
        }
    } else {
        lemma_world_exported(package, n - 1, i);
        let q = qualified_world(package, w.0);
        let k = choose|k: int| 0 <= k < before.len() && before[k] == q;
        assert(all[k] == q);
        assert forall|j: int| 0 <= j < w.1.len() implies all.contains(#[trigger] w.1[j]) by {
            assert(before.contains(w.1[j]));
            let m = choose|m: int| 0 <= m < before.len() && before[m] == w.1[j];
            assert(all[m] == w.1[j]);
        }
    }
}

/// Where no entry occurs twice, taking each entry once changes nothing.
pub proof fn law_nothing_twice_is_kept(list: Seq<Seq<char>>)
    requires
        list.no_duplicates(),
    ensures
        distinct(list) == list,
    decreases list.len(),
{
    if list.len() > 0 {
        let rest = list.drop_last();
        assert(rest.no_duplicates()) by {
            assert forall|i: int, j: int| 0 <= i < rest.len() && 0 <= j < rest.len() && i != j implies rest[i]
                != rest[j] by {
                assert(list[i] != list[j]);
            }
        }
        law_nothing_twice_is_kept(rest);
        if rest.contains(list.last()) {
            let k = choose|k: int| 0 <= k < rest.len() && rest[k] == list.last();
            assert(list[k] != list[list.len() - 1]);
        }
        assert(rest.push(list.last()) =~= list);
    } else {
        assert(distinct(list) =~= list);
    }
}

/// The name of a world of a package, as in `namespace:name/world@version`.
pub open spec fn is_world_name(text: Seq<char>, package: PackageView, world: Seq<char>) -> bool {
    text == package.namespace + ":"@ + package.name + "/"@ + world + (match package.version {
        Some(version) => "@"@ + version,
        None => ""@,
    })
}

/// A world is named as in `namespace:name/world@version`.
proof fn lemma_world_name(package: PackageView, world: Seq<char>)
    ensures
        is_world_name(qualified_world(package, world), package, world),
{
    reveal_strlit("@");
    reveal_strlit("");
    let plain = package.namespace + ":"@ + package.name + "/"@ + world;
    if let Some(version) = package.version {
        assert(plain.push('@') + version =~= plain + ("@"@ + version));
    } else {
        assert(plain =~= plain + ""@);
    }
}

/// What is listed among the exports of the first worlds is one of them or is exported by one of them.
proof fn lemma_from_a_world(package: PackageView, n: int, e: Seq<char>)
    requires
        0 <= n <= package.worlds.len(),
        world_exports(package, n).contains(e),
    ensures
        exists|i: int|
            0 <= i < n && (#[trigger] package.worlds[i] matches Some(w) && (w.1.contains(e)
                || is_world_name(e, package, w.0))),
    decreases n,
{
    if n > 0 {
        let before = world_exports(package, n - 1);
        if before.contains(e) {
            lemma_from_a_world(package, n - 1, e);
        } else if let Some(w) = package.worlds[n - 1] {
            lemma_world_name(package, w.0);
            let all = world_exports(package, n);
            let k = choose|k: int| 0 <= k < all.len() && all[k] == e;
            if k < before.len() {
                assert(before[k] == e);
            } else if k < before.len() + w.1.len() {
                assert(w.1[k - before.len()] == e);
            }
            assert(package.worlds[n - 1] == Some(w));
        }
    }
}

/// The names of interfaces are those that they have.
proof fn lemma_from_an_interface(interfaces: Seq<Option<Seq<char>>>, e: Seq<char>)
    requires
        interface_names(interfaces).contains(e),
    ensures
        exists|i: int| 0 <= i < interfaces.len() && #[trigger] interfaces[i] == Some(e),
    decreases interfaces.len(),
{
    if interfaces.len() > 0 {
        let rest = interfaces.drop_last();
        let before = interface_names(rest);
        if before.contains(e) {
            lemma_from_an_interface(rest, e);
            let i = choose|i: int| 0 <= i < rest.len() && #[trigger] rest[i] == Some(e);
            assert(interfaces[i] == Some(e));
        } else {
            let all = interface_names(interfaces);
            let k = choose|k: int| 0 <= k < all.len() && all[k] == e;
            if k < before.len() {
                assert(before[k] == e);
            }
            assert(interfaces[interfaces.len() - 1] == Some(e));
        }
    }
}

/// What is recorded for a component is its world as it is. What is recorded for a package of interfaces are, each once,
/// its named interfaces, its worlds and what these export, nothing else, and no imports. Where the world or the package
/// is missing, the binary is no component.
pub proof fn law_what_is_recorded(wit: Wit, res: Result<WitWorld, Error>)
    requires
        call_ensures(component_info, (wit,), res),
    ensures
        match wit {
            Wit::Component(Some(world)) => res matches Ok(r) && texts(r.exports@) == texts(
                world.exports@,
            ) && texts(r.imports@) == texts(world.imports@),
            Wit::Package(Some(package)) => res matches Ok(r) && {
                &&& r.imports@.len() == 0
                &&& texts(r.exports@).no_duplicates()
                &&& forall|e: Seq<char>| #[trigger]
                    texts(r.exports@).contains(e) <==> is_offered(package@, e)
            },
            _ => res matches Err(e) && e@ is InvalidComponent,
        },
{
    if let Wit::Package(Some(package)) = wit {
        let view = package@;
        let r = res->Ok_0;
        assert(texts(r.exports@) == package_exports(view));
        assert(texts(r.imports@).len() == r.imports@.len());
        law_package_exports_are_complete(view);
        let worlds = world_exports(view, view.worlds.len() as int);
        let names = interface_names(view.interfaces);
        law_each_entry_once(worlds + names);
        assert forall|e: Seq<char>| #[trigger] texts(r.exports@).contains(e) <==> is_offered(view, e) by {
            if package_exports(view).contains(e) {
                let list = worlds + names;
                assert(list.contains(e));
                let k = choose|k: int| 0 <= k < list.len() && list[k] == e;
                if k < worlds.len() {
                    assert(worlds[k] == e);
                    lemma_from_a_world(view, view.worlds.len() as int, e);
                } else {
                    assert(names[k - worlds.len()] == e);
                    lemma_from_an_interface(view.interfaces, e);
                }
            }
            if is_offered(view, e) {
                if exists|i: int| 0 <= i < view.interfaces.len() && #[trigger] view.interfaces[i] == Some(e) {
                } else {
                    let i = choose|i: int|
                        0 <= i < view.worlds.len() && (#[trigger] view.worlds[i] matches Some(w) && (
                        w.1.contains(e) || is_world_name(e, view, w.0)));
                    let w = view.worlds[i]->0;
                    lemma_world_name(view, w.0);
                    if w.1.contains(e) {
                        let j = choose|j: int| 0 <= j < w.1.len() && w.1[j] == e;
                        assert(package_exports(view).contains(w.1[j]));
                    }
                }
            }
        }
    }
}

/// Whether a package of interfaces offers the name: it is that of an interface or of a world, or a world exports it.
pub open spec fn is_offered(package: PackageView, name: Seq<char>) -> bool {
    ||| exists|i: int| 0 <= i < package.interfaces.len() && #[trigger] package.interfaces[i] == Some(name)
    ||| exists|i: int|
        0 <= i < package.worlds.len() && (#[trigger] package.worlds[i] matches Some(w) && (w.1.contains(
            name,
        ) || is_world_name(name, package, w.0)))
}

/// What a binary describes is what decoding it finds, whenever decoding comes to an end. This is so for all bytes that
/// are no valid binary, and for every binary that the decoder gets over.
pub proof fn law_what_is_decoded_is_described(data: &[u8], res: Result<Wit, Error>)
    requires
        call_ensures(read_wit, (data,), res),
    ensures
        may_decode(data@) ==> match decoded_wit(data@) {
            Ok(wit) => res matches Ok(w) && w@ == wit,
            Err(causes) => res matches Err(e) && causes.len() > 0 && e@ == ErrorView::InvalidComponent(
                "failed to decode WIT: "@ + causes[0],
                Seq::empty(),
            ),
        },
        !may_decode(data@) ==> (res matches Err(e) && e@ is InvalidComponent),
        binary_items(data@) is None ==> may_decode(data@),
        binary_items(data@) matches Some(items) ==> (may_decode(data@) <==> decoding(items) != Err::<
            (),
            Trouble,
        >(Trouble::Stuck)),
{
}

} // verus!
