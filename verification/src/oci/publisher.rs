//! Publishing a package: what is pushed for a component, and under which reference.

use vstd::prelude::*;

use crate::digest::digest_text;
use crate::digest::sha256;
use crate::error::Error;
use crate::error::ErrorView;
use crate::json::json_bytes;
use crate::json::JsonTree;
use crate::oci::backend::repository_of;
use crate::oci::backend::OciBackend;
use crate::oci::nesting::is_well_nested;
use crate::oci::nesting::mend;
use crate::oci::nesting::mended;
use crate::oci::nesting::well_nested;
use crate::oci::publisher_wasm::config_says;
use crate::oci::publisher_wasm::config_tree;
use crate::oci::publisher_wasm::WASM_CONFIG_MEDIA_TYPE;
use crate::oci::publisher_wasm::WASM_LAYER_MEDIA_TYPE;
use crate::oci::publisher_wasm::lemma_config_says;
use crate::oci::transport::OciReference;
use crate::oci::transport::PushConfig;
use crate::oci::transport::PushLayer;
use crate::oci::wit::can_decode;
use crate::oci::wit::component_of;
use crate::oci::wit::decoded_wit;
use crate::oci::wit::described_wit;
use crate::oci::wit::invalid_component;
use crate::oci::wit::may_decode;
use crate::oci::wit::WitView;
use crate::oci::wit::WorldView;
use crate::package::version_text;
use crate::package::PackageRef;
use crate::package::Version;
use crate::text::hex;
use crate::text::opt_text;
use crate::text::texts;
use crate::text_map::TextMap;

verus! {

// ---------------------------------------------------------------------------
// Blobs
// ---------------------------------------------------------------------------

/// `oci_wasm::WasmConfig`, the config of a component.
#[verifier::external_type_specification]
#[verifier::external_body]
pub struct ExWasmConfig(oci_wasm::WasmConfig);

/// What a config holds, as the JSON object that stands for it.
pub uninterp spec fn wasm_config_tree(config: oci_wasm::WasmConfig) -> JsonTree;

/// Whether the JSON object is a config of a component with the given interface. The time at which it was
/// created is open, and so is the order in which the exports of a package of interfaces are listed.
pub open spec fn is_config_of(
    tree: JsonTree,
    data: Seq<u8>,
    wit: WitView,
    world: WorldView,
) -> bool {
    exists|created: Seq<char>, exports: Seq<Seq<char>>|
        #![trigger config_tree(
            created,
            seq![digest_text(data)],
            WorldView { exports, imports: world.imports },
        )]
        tree == config_tree(
            created,
            seq![digest_text(data)],
            WorldView { exports, imports: world.imports },
        ) && exports.to_multiset() == world.exports.to_multiset() && (wit is Component ==> exports
            == world.exports)
}

/// `oci_wasm::WasmConfig::from_raw_component` without an author makes the config of a component and a layer
/// that is the component itself, without annotations. It decodes the interface as
/// `wit_component::decode` does, and fails where that fails or where what it describes is missing. The
/// config has the time of the call; the exports of a package of interfaces go through a hash set. An error
/// comes with its causes. It panics where `wit_component::decode` does.
#[verifier::external_body]
fn wasm_config(raw: Vec<u8>) -> (res: Result<
    (oci_wasm::WasmConfig, Vec<u8>, String, Option<Vec<(String, String)>>),
    Vec<String>,
>)
    requires
        may_decode(raw@),
    ensures
        match decoded_wit(raw@) {
            Err(chain) => res matches Err(t) && texts(t@) == seq!["failed to decode WIT component"@]
                + chain,
            Ok(wit) => match component_of(wit) {
                Err(e) => res matches Err(t) && t@.len() == 1 && e == ErrorView::InvalidComponent(
                    t@[0]@,
                    Seq::empty(),
                ),
                Ok(world) => res matches Ok(r) && {
                    &&& is_config_of(wasm_config_tree(r.0), raw@, wit, world)
                    &&& r.1@ == raw@
                    &&& r.2@ == WASM_LAYER_MEDIA_TYPE@
                    &&& r.3 is None
                },
            },
        },
{
    match oci_wasm::WasmConfig::from_raw_component(raw, None) {
        Ok((config, layer)) => Ok((
            config,
            layer.data.to_vec(),
            layer.media_type,
            layer.annotations.map(|map| map.into_iter().collect()),
        )),
        Err(e) => Err(e.chain().map(|cause| cause.to_string()).collect()),
    }
}

/// `oci_wasm::ToConfig::to_config` on a config writes the JSON object that stands for it. All that this
/// holds is text, so that nothing can fail.
#[verifier::external_body]
fn config_blob(config: &oci_wasm::WasmConfig) -> (res: Result<(Vec<u8>, String), String>)
    ensures
        match res {
            Ok(r) => r.0@ == json_bytes(wasm_config_tree(*config)) && r.1@
                == WASM_CONFIG_MEDIA_TYPE@,
            Err(_) => false,
        },
{
    match oci_wasm::ToConfig::to_config(config) {
        Ok(blob) => Ok((blob.data.to_vec(), blob.media_type)),
        Err(e) => Err(e.to_string()),
    }
}

/// Builds the blobs of a component: the layer is the component itself, and the config says what it exports
/// and imports.
pub fn build_push_artifacts(buf: Vec<u8>) -> (res: Result<(PushConfig, PushLayer), Error>)
    ensures
        match described_wit(buf@) {
            Err(chain) => res matches Err(e) && e@ == ErrorView::InvalidComponent(
                "failed to decode WIT component"@,
                chain,
            ),
            Ok(wit) => match component_of(wit) {
                Err(v) => res matches Err(e) && e@ == v,
                Ok(world) => res matches Ok(r) && {
                    &&& exists|tree: JsonTree| #[trigger]
                        is_config_of(tree, buf@, wit, world) && r.0.data@ == json_bytes(tree)
                    &&& r.0.media_type@ == WASM_CONFIG_MEDIA_TYPE@
                    &&& r.1.data@ == buf@
                    &&& r.1.media_type@ == WASM_LAYER_MEDIA_TYPE@
                    &&& r.1.annotations is None
                },
            },
        },
{
    if !can_decode(buf.as_slice()) {
        let causes = vec!["no WIT describes the binary".to_string()];
        assert(texts(causes@) =~= seq!["no WIT describes the binary"@]);
        return Err(Error::InvalidComponent("failed to decode WIT component".to_string(), causes));
    }
    let ghost wit = decoded_wit(buf@);
    let (wasm_config, data, media_type, annotations) = match wasm_config(buf) {
        Ok(r) => r,
        Err(mut chain) => {
            let ghost all = texts(chain@);
            proof {
                if let Err(causes) = wit {
                    assert(all.len() == causes.len() + 1);
                    assert(all[0] == "failed to decode WIT component"@);
                    assert(all.skip(1) =~= causes);
                } else {
                    assert(all.skip(1) =~= Seq::<Seq<char>>::empty());
                }
            }
            let text = chain.remove(0);
            assert(texts(chain@) =~= all.skip(1));
            return Err(Error::InvalidComponent(text, chain));
        },
    };
    let (config_data, config_media_type) = match config_blob(&wasm_config) {
        Ok(r) => r,
        Err(t) => {
            return Err(invalid_component(t));
        },
    };
    let config = PushConfig { data: config_data, media_type: config_media_type };
    let annotations = match annotations {
        Some(pairs) => Some(TextMap::from_pairs(pairs)),
        None => None,
    };
    Ok((config, PushLayer { data, media_type, annotations }))
}

// ---------------------------------------------------------------------------
// Annotations
// ---------------------------------------------------------------------------

/// What a binary says of itself.
#[derive(Debug, PartialEq)]
pub struct PackageMetadata {
    pub description: Option<String>,
    pub licenses: Option<String>,
    pub source: Option<String>,
    pub homepage: Option<String>,
    pub authors: Option<String>,
}

/// The contents of what a binary says of itself.
pub struct MetadataView {
    pub description: Option<Seq<char>>,
    pub licenses: Option<Seq<char>>,
    pub source: Option<Seq<char>>,
    pub homepage: Option<Seq<char>>,
    pub authors: Option<Seq<char>>,
}

impl View for PackageMetadata {
    type V = MetadataView;

    open spec fn view(&self) -> MetadataView {
        MetadataView {
            description: opt_text(self.description),
            licenses: opt_text(self.licenses),
            source: opt_text(self.source),
            homepage: opt_text(self.homepage),
            authors: opt_text(self.authors),
        }
    }
}

/// The metadata that `wasm_metadata::Payload::from_binary` finds in the bytes, or the text of its error.
pub uninterp spec fn binary_metadata(data: Seq<u8>) -> Result<MetadataView, Seq<char>>;

/// `wasm_metadata::Payload::from_binary` reads the metadata of a module or a component. What it finds is
/// named, not spelt out. It panics where it has found a binary inside what it takes for a core module.
#[verifier::external_body]
fn read_metadata(data: &[u8]) -> (res: Result<PackageMetadata, String>)
    requires
        well_nested(data@),
    ensures
        match res {
            Ok(meta) => binary_metadata(data@) == Ok::<MetadataView, Seq<char>>(meta@),
            Err(text) => binary_metadata(data@) == Err::<MetadataView, Seq<char>>(text@),
        },
{
    let payload = wasm_metadata::Payload::from_binary(data).map_err(|e| e.to_string())?;
    let meta = payload.metadata();
    Ok(PackageMetadata {
        description: meta.description.as_ref().map(ToString::to_string),
        licenses: meta.licenses.as_ref().map(ToString::to_string),
        source: meta.source.as_ref().map(ToString::to_string),
        homepage: meta.homepage.as_ref().map(ToString::to_string),
        authors: meta.authors.as_ref().map(ToString::to_string),
    })
}

/// The metadata of a binary, or why there is none. Where a component stands in the place of a core module, that
/// is what is wrong, unless the binary is faulty even so.
pub open spec fn metadata_of(data: Seq<u8>) -> Result<MetadataView, Seq<char>> {
    if well_nested(data) {
        binary_metadata(data)
    } else if well_nested(mended(data)) && binary_metadata(mended(data)) is Err {
        binary_metadata(mended(data))
    } else {
        Err("a module section holds a component"@)
    }
}

/// Reads the metadata of a binary.
pub fn metadata(data: &[u8]) -> (res: Result<PackageMetadata, String>)
    ensures
        match res {
            Ok(meta) => metadata_of(data@) == Ok::<MetadataView, Seq<char>>(meta@),
            Err(text) => metadata_of(data@) == Err::<MetadataView, Seq<char>>(text@),
        },
{
    if is_well_nested(data) {
        return read_metadata(data);
    }
    let mended = mend(data);
    if is_well_nested(mended.as_slice()) {
        if let Err(text) = read_metadata(mended.as_slice()) {
            return Err(text);
        }
    }
    Err("a module section holds a component".to_string())
}

/// The map with one more entry, where there is a value for it.
pub open spec fn with_entry(
    map: Map<Seq<char>, Seq<char>>,
    key: Seq<char>,
    value: Option<Seq<char>>,
) -> Map<Seq<char>, Seq<char>> {
    match value {
        Some(v) => map.insert(key, v),
        None => map,
    }
}

/// The annotations of a package: its version, and what the binary says of itself.
pub open spec fn annotations_of(version: Seq<char>, meta: MetadataView) -> Map<
    Seq<char>,
    Seq<char>,
> {
    let m0 = Map::empty().insert("org.opencontainers.image.version"@, version);
    let m1 = with_entry(m0, "org.opencontainers.image.description"@, meta.description);
    let m2 = with_entry(m1, "org.opencontainers.image.licenses"@, meta.licenses);
    let m3 = with_entry(m2, "org.opencontainers.image.source"@, meta.source);
    let m4 = with_entry(m3, "org.opencontainers.image.url"@, meta.homepage);
    with_entry(m4, "org.opencontainers.image.authors"@, meta.authors)
}

/// Adds an entry to the map, where there is a value for it.
fn add_entry(map: &mut TextMap, key: &str, value: Option<String>)
    ensures
        final(map)@ == with_entry(old(map)@, key@, opt_text(value)),
{
    if let Some(v) = value {
        map.insert(key.to_string(), v);
    }
}

/// Collects the annotations of a package.
pub fn annotations(version: &Version, meta: PackageMetadata) -> (res: TextMap)
    ensures
        res@ == annotations_of(version_text(version.parts()), meta@),
{
    let mut map = TextMap::new();
    map.insert("org.opencontainers.image.version".to_string(), version.to_text());
    add_entry(&mut map, "org.opencontainers.image.description", meta.description);
    add_entry(&mut map, "org.opencontainers.image.licenses", meta.licenses);
    add_entry(&mut map, "org.opencontainers.image.source", meta.source);
    add_entry(&mut map, "org.opencontainers.image.url", meta.homepage);
    add_entry(&mut map, "org.opencontainers.image.authors", meta.authors);
    map
}

// ---------------------------------------------------------------------------
// Publishing
// ---------------------------------------------------------------------------

/// All that is pushed for a package.
pub struct Publication {
    pub reference: OciReference,
    pub layer: PushLayer,
    pub config: PushConfig,
    pub annotations: TextMap,
}

impl OciBackend {
    /// What is pushed for a package, from its blobs and its metadata.
    pub fn publication(
        &self,
        package: &PackageRef,
        version: &Version,
        meta: PackageMetadata,
        config: PushConfig,
        layer: PushLayer,
    ) -> (res: Publication)
        ensures
            res.reference.registry == self.oci_registry,
            res.reference.repository@ == repository_of(self.prefix(), package.names()),
            res.reference.tag@ == version_text(version.parts()),
            res.layer == layer,
            res.config == config,
            res.annotations@ == annotations_of(version_text(version.parts()), meta@),
    {
        Publication {
            reference: self.make_reference(package, Some(version)),
            layer,
            config,
            annotations: annotations(version, meta),
        }
    }

    /// Prepares the publication of a package whose component is given.
    pub fn publish(&self, package: &PackageRef, version: &Version, data: Vec<u8>) -> (res: Result<
        Publication,
        Error,
    >)
        ensures
            match (metadata_of(data@), described_wit(data@)) {
                (Err(text), _) => res matches Err(e) && e@ == ErrorView::InvalidComponent(
                    "Unable to parse WASM: "@ + text,
                    Seq::empty(),
                ),
                (Ok(_), Err(chain)) => res matches Err(e) && e@ == ErrorView::InvalidComponent(
                    "failed to decode WIT component"@,
                    chain,
                ),
                (Ok(meta), Ok(wit)) => match component_of(wit) {
                    Err(v) => res matches Err(e) && e@ == v,
                    Ok(world) => res matches Ok(p) && {
                        &&& p.reference.registry == self.oci_registry
                        &&& p.reference.repository@ == repository_of(self.prefix(), package.names())
                        &&& p.reference.tag@ == version_text(version.parts())
                        &&& exists|tree: JsonTree| #[trigger]
                            is_config_of(tree, data@, wit, world) && p.config.data@ == json_bytes(
                                tree,
                            )
                        &&& p.config.media_type@ == WASM_CONFIG_MEDIA_TYPE@
                        &&& p.layer.data@ == data@
                        &&& p.layer.media_type@ == WASM_LAYER_MEDIA_TYPE@
                        &&& p.layer.annotations is None
                        &&& p.annotations@ == annotations_of(version_text(version.parts()), meta)
                    },
                },
            },
    {
        let meta = match metadata(data.as_slice()) {
            Ok(meta) => meta,
            Err(text) => {
                let mut message = "Unable to parse WASM: ".to_string();
                message.append(text.as_str());
                return Err(invalid_component(message));
            },
        };
        match build_push_artifacts(data) {
            Ok((config, layer)) => Ok(self.publication(package, version, meta, config, layer)),
            Err(e) => Err(e),
        }
    }
}

// ---------------------------------------------------------------------------
// Laws
// ---------------------------------------------------------------------------

/// The keys of annotations differ from one another.
proof fn lemma_annotation_keys()
    ensures
        "org.opencontainers.image.version"@.len() == 32,
        "org.opencontainers.image.version"@[25] == 'v',
        "org.opencontainers.image.description"@.len() == 36,
        "org.opencontainers.image.licenses"@.len() == 33,
        "org.opencontainers.image.source"@.len() == 31,
        "org.opencontainers.image.url"@.len() == 28,
        "org.opencontainers.image.authors"@.len() == 32,
        "org.opencontainers.image.authors"@[25] == 'a',
{
    reveal_strlit("org.opencontainers.image.version");
    reveal_strlit("org.opencontainers.image.description");
    reveal_strlit("org.opencontainers.image.licenses");
    reveal_strlit("org.opencontainers.image.source");
    reveal_strlit("org.opencontainers.image.url");
    reveal_strlit("org.opencontainers.image.authors");
}

/// What `annotations` returns always has the version. It has each thing that the binary says of itself exactly if
/// the binary says it, with the value that the binary gives, whatever else the binary says or leaves out. There is
/// nothing else.
pub proof fn law_each_annotation_stands_by_itself(
    version: &Version,
    meta: PackageMetadata,
    res: TextMap,
)
    requires
        call_ensures(annotations, (version, meta), res),
    ensures
        res@.contains_key("org.opencontainers.image.version"@),
        res@["org.opencontainers.image.version"@] == version_text(version.parts()),
        res@.contains_key("org.opencontainers.image.description"@) <==> meta.description is Some,
        meta.description matches Some(t) ==> res@["org.opencontainers.image.description"@] == t@,
        res@.contains_key("org.opencontainers.image.licenses"@) <==> meta.licenses is Some,
        meta.licenses matches Some(t) ==> res@["org.opencontainers.image.licenses"@] == t@,
        res@.contains_key("org.opencontainers.image.source"@) <==> meta.source is Some,
        meta.source matches Some(t) ==> res@["org.opencontainers.image.source"@] == t@,
        res@.contains_key("org.opencontainers.image.url"@) <==> meta.homepage is Some,
        meta.homepage matches Some(t) ==> res@["org.opencontainers.image.url"@] == t@,
        res@.contains_key("org.opencontainers.image.authors"@) <==> meta.authors is Some,
        meta.authors matches Some(t) ==> res@["org.opencontainers.image.authors"@] == t@,
        forall|key: Seq<char>| #[trigger]
            res@.contains_key(key) ==> key == "org.opencontainers.image.version"@ || key
                == "org.opencontainers.image.description"@ || key
                == "org.opencontainers.image.licenses"@ || key == "org.opencontainers.image.source"@
                || key == "org.opencontainers.image.url"@ || key
                == "org.opencontainers.image.authors"@,
{
    lemma_annotation_keys();
}

/// Whether the annotations are those of a package with the version whose binary says this of itself: each thing that
/// the binary says is there by itself, and nothing else but the version is.
pub open spec fn are_annotations(
    map: Map<Seq<char>, Seq<char>>,
    version: Seq<char>,
    meta: MetadataView,
) -> bool {
    &&& map.contains_key("org.opencontainers.image.version"@)
    &&& map["org.opencontainers.image.version"@] == version
    &&& has_if(map, "org.opencontainers.image.description"@, meta.description)
    &&& has_if(map, "org.opencontainers.image.licenses"@, meta.licenses)
    &&& has_if(map, "org.opencontainers.image.source"@, meta.source)
    &&& has_if(map, "org.opencontainers.image.url"@, meta.homepage)
    &&& has_if(map, "org.opencontainers.image.authors"@, meta.authors)
    &&& map.dom().len() == 1 + said(meta.description) + said(meta.licenses) + said(meta.source) + said(
        meta.homepage,
    ) + said(meta.authors)
}

/// Whether the map has the key exactly if there is a value, and then with the value.
pub open spec fn has_if(
    map: Map<Seq<char>, Seq<char>>,
    key: Seq<char>,
    value: Option<Seq<char>>,
) -> bool {
    (map.contains_key(key) <==> value is Some) && (value matches Some(v) ==> map[key] == v)
}

/// How many values there are.
pub open spec fn said(value: Option<Seq<char>>) -> nat {
    match value {
        Some(_) => 1,
        None => 0,
    }
}

/// The annotations of a package are its version and what its binary says of itself.
pub proof fn lemma_annotations(version: Seq<char>, meta: MetadataView)
    ensures
        are_annotations(annotations_of(version, meta), version, meta),
{
    lemma_annotation_keys();
    broadcast use vstd::set::group_set_axioms;
    let m0 = Map::<Seq<char>, Seq<char>>::empty().insert("org.opencontainers.image.version"@, version);
    assert(m0.dom() =~= Set::<Seq<char>>::empty().insert("org.opencontainers.image.version"@));
    let m1 = with_entry(m0, "org.opencontainers.image.description"@, meta.description);
    lemma_one_more(m0, "org.opencontainers.image.description"@, meta.description);
    let m2 = with_entry(m1, "org.opencontainers.image.licenses"@, meta.licenses);
    lemma_one_more(m1, "org.opencontainers.image.licenses"@, meta.licenses);
    let m3 = with_entry(m2, "org.opencontainers.image.source"@, meta.source);
    lemma_one_more(m2, "org.opencontainers.image.source"@, meta.source);
    let m4 = with_entry(m3, "org.opencontainers.image.url"@, meta.homepage);
    lemma_one_more(m3, "org.opencontainers.image.url"@, meta.homepage);
    lemma_one_more(m4, "org.opencontainers.image.authors"@, meta.authors);
}

/// A new key makes the map larger by one.
proof fn lemma_one_more(map: Map<Seq<char>, Seq<char>>, key: Seq<char>, value: Option<Seq<char>>)
    requires
        map.dom().finite(),
        !map.contains_key(key),
    ensures
        with_entry(map, key, value).dom().finite(),
        with_entry(map, key, value).dom().len() == map.dom().len() + said(value),
{
    broadcast use vstd::set::group_set_axioms;
    if let Some(v) = value {
        assert(map.insert(key, v).dom() =~= map.dom().insert(key));
    }
}

/// What is published for a package goes to the repository of the package, under the version. It is the given config and
/// layer, with the annotations of the version and of what the binary says of itself.
pub proof fn law_publication_is_that_of_the_package(
    backend: &OciBackend,
    package: &PackageRef,
    version: &Version,
    meta: PackageMetadata,
    config: PushConfig,
    layer: PushLayer,
    res: Publication,
)
    requires
        call_ensures(
            OciBackend::publication,
            (backend, package, version, meta, config, layer),
            res,
        ),
    ensures
        res.reference.registry@ == backend.oci_registry@,
        res.reference.repository@ == (match backend.namespace_prefix {
            Some(p) => p@,
            None => ""@,
        }) + package.namespace@ + "/"@ + package.name@,
        res.reference.tag@ == version_text(version.parts()),
        res.layer == layer,
        res.config == config,
        are_annotations(res.annotations@, version_text(version.parts()), meta@),
{
    reveal_strlit("");
    assert(""@ =~= Seq::<char>::empty());
    lemma_annotations(version_text(version.parts()), meta@);
}

/// A component is published exactly if its metadata can be read, its interface can be decoded and what it describes is
/// there. What is pushed is the component itself, as `application/wasm`, with a config that names it by its digest and
/// lists what it exports and imports, under the version of the package in its repository, with the annotations of the
/// version and of what the component says of itself.
pub proof fn law_published_is_the_component(
    backend: &OciBackend,
    package: &PackageRef,
    version: &Version,
    data: Vec<u8>,
    res: Result<Publication, Error>,
)
    requires
        call_ensures(OciBackend::publish, (backend, package, version, data), res),
    ensures
        res is Ok <==> metadata_of(data@) is Ok && (described_wit(data@) matches Ok(wit) && component_of(
            wit,
        ) is Ok),
        res matches Err(e) ==> e@ is InvalidComponent,
        res matches Ok(p) ==> {
            &&& p.reference.registry@ == backend.oci_registry@
            &&& p.reference.repository@ == (match backend.namespace_prefix {
                Some(x) => x@,
                None => ""@,
            }) + package.namespace@ + "/"@ + package.name@
            &&& p.reference.tag@ == version_text(version.parts())
            &&& p.layer.data@ == data@
            &&& p.layer.media_type@ == "application/wasm"@
            &&& p.layer.annotations is None
            &&& p.config.media_type@ == "application/vnd.wasm.config.v0+json"@
            &&& metadata_of(data@) matches Ok(meta) && are_annotations(
                p.annotations@,
                version_text(version.parts()),
                meta,
            )
            &&& described_wit(data@) matches Ok(wit) && component_of(wit) matches Ok(world)
                && config_is_that_of(p.config.data@, data@, wit, world)
        },
{
    reveal_strlit("");
    assert(""@ =~= Seq::<char>::empty());
    if let Ok(p) = res {
        let meta = metadata_of(data@)->Ok_0;
        lemma_annotations(version_text(version.parts()), meta);
        let wit = described_wit(data@)->Ok_0;
        let world = component_of(wit)->Ok_0;
        let tree = choose|tree: JsonTree| #[trigger]
            is_config_of(tree, data@, wit, world) && p.config.data@ == json_bytes(tree);
        lemma_config_is_that_of(p.config.data@, tree, data@, wit, world);
    }
}

/// Whether the bytes are those of a config that was created at some time, names the component by its digest, and lists
/// its imports in their order and its exports, each as often as it occurs, and in their order too unless it is a package
/// of interfaces.
pub open spec fn config_is_that_of(
    bytes: Seq<u8>,
    data: Seq<u8>,
    wit: WitView,
    world: WorldView,
) -> bool {
    exists|tree: JsonTree, created: Seq<char>, exports: Seq<Seq<char>>| #[trigger]
        config_says(tree, created, "sha256:"@ + hex(sha256(data)), exports, world.imports)
            && json_bytes(tree) == bytes && exports.to_multiset() == world.exports.to_multiset() && (
        wit is Component ==> exports == world.exports)
}

/// A config of a component says what the component exports and imports.
proof fn lemma_config_is_that_of(
    bytes: Seq<u8>,
    tree: JsonTree,
    data: Seq<u8>,
    wit: WitView,
    world: WorldView,
)
    requires
        is_config_of(tree, data, wit, world),
        bytes == json_bytes(tree),
    ensures
        config_is_that_of(bytes, data, wit, world),
{
    let (created, exports) = choose|created: Seq<char>, exports: Seq<Seq<char>>|
        #![trigger config_tree(
            created,
            seq![digest_text(data)],
            WorldView { exports, imports: world.imports },
        )]
        tree == config_tree(
            created,
            seq![digest_text(data)],
            WorldView { exports, imports: world.imports },
        ) && exports.to_multiset() == world.exports.to_multiset() && (wit is Component ==> exports
            == world.exports);
    lemma_config_says(
        created,
        digest_text(data),
        WorldView { exports, imports: world.imports },
    );
    assert(config_says(tree, created, "sha256:"@ + hex(sha256(data)), exports, world.imports));
}

/// The metadata of a binary are what is found in it, wherever they can be looked for. Where a component stands in the
/// place of a core module, there are none.
pub proof fn law_metadata_is_that_of_the_binary(data: &[u8], res: Result<PackageMetadata, String>)
    requires
        call_ensures(metadata, (data,), res),
    ensures
        res matches Ok(meta) ==> well_nested(data@) && binary_metadata(data@) == Ok::<
            MetadataView,
            Seq<char>,
        >(
            MetadataView {
                description: opt_text(meta.description),
                licenses: opt_text(meta.licenses),
                source: opt_text(meta.source),
                homepage: opt_text(meta.homepage),
                authors: opt_text(meta.authors),
            },
        ),
        well_nested(data@) ==> (res is Ok <==> binary_metadata(data@) is Ok),
        !well_nested(data@) ==> res is Err,
{
}

/// What is wrong with a component is told: first what is wrong with its metadata, then with its interface, with all causes.
pub proof fn law_faulty_component_is_told(
    backend: &OciBackend,
    package: &PackageRef,
    version: &Version,
    data: Vec<u8>,
    res: Result<Publication, Error>,
)
    requires
        call_ensures(OciBackend::publish, (backend, package, version, data), res),
    ensures
        metadata_of(data@) matches Err(text) ==> (res matches Err(e) && e@
            == ErrorView::InvalidComponent("Unable to parse WASM: "@ + text, Seq::empty())),
        metadata_of(data@) is Ok ==> (described_wit(data@) matches Err(causes) ==> (res matches Err(e)
            && e@ == ErrorView::InvalidComponent("failed to decode WIT component"@, causes))),
{
}

/// The blobs of a component are the component itself and a config that tells of it, exactly where its interface can be
/// decoded and what it describes is there.
pub proof fn law_native_blobs_tell_of_the_component(
    buf: Vec<u8>,
    res: Result<(PushConfig, PushLayer), Error>,
)
    requires
        call_ensures(build_push_artifacts, (buf,), res),
    ensures
        res is Ok <==> (described_wit(buf@) matches Ok(wit) && component_of(wit) is Ok),
        res matches Ok(r) ==> {
            &&& r.1.data@ == buf@
            &&& r.1.media_type@ == "application/wasm"@
            &&& r.1.annotations is None
            &&& r.0.media_type@ == "application/vnd.wasm.config.v0+json"@
            &&& described_wit(buf@) matches Ok(wit) && component_of(wit) matches Ok(world)
                && config_is_that_of(r.0.data@, buf@, wit, world)
        },
        described_wit(buf@) matches Err(causes) ==> (res matches Err(e) && e@
            == ErrorView::InvalidComponent("failed to decode WIT component"@, causes)),
{
    if let Ok(r) = res {
        let wit = described_wit(buf@)->Ok_0;
        let world = component_of(wit)->Ok_0;
        let tree = choose|tree: JsonTree| #[trigger]
            is_config_of(tree, buf@, wit, world) && r.0.data@ == json_bytes(tree);
        lemma_config_is_that_of(r.0.data@, tree, buf@, wit, world);
    }
}

/// The metadata of a binary that is well nested are what is found in it, or why there are none. Where a component stands in
/// the place of a core module, what is told is that, unless the binary is faulty even when this is mended.
pub proof fn law_why_there_are_no_metadata(data: Seq<u8>)
    ensures
        well_nested(data) ==> metadata_of(data) == binary_metadata(data),
        !well_nested(data) ==> metadata_of(data) == Err::<MetadataView, Seq<char>>(
            if well_nested(mended(data)) && binary_metadata(mended(data)) is Err {
                binary_metadata(mended(data))->Err_0
            } else {
                "a module section holds a component"@
            },
        ),
{
}

} // verus!
