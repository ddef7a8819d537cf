//! The blobs of a component that is to be published, as a component itself makes them.

use vstd::prelude::*;

use crate::digest::digest_text;
use crate::digest::sha256;
use crate::digest::sha256_digest;
use crate::error::Error;
use crate::error::ErrorView;
use crate::json::add_member;
use crate::json::distinct_names;
use crate::json::json_bytes;
use crate::json::json_list;
use crate::json::json_members;
use crate::json::json_null;
use crate::json::json_object;
use crate::json::json_text;
use crate::json::json_to_vec;
use crate::json::json_tree;
use crate::json::json_trees;
use crate::json::JsonTree;
use crate::json::lemma_member_found;
use crate::json::member;
use crate::oci::transport::PushConfig;
use crate::oci::transport::PushLayer;
use crate::oci::wit::component_info;
use crate::oci::wit::component_of;
use crate::oci::wit::described_wit;
use crate::oci::wit::read_wit;
use crate::oci::wit::Wit;
use crate::oci::wit::WitWorld;
use crate::oci::wit::WorldView;
use crate::text::hex;
use crate::text::texts;

verus! {

/// Media type of a layer that holds a component.
pub const WASM_LAYER_MEDIA_TYPE: &'static str = "application/wasm";

/// Media type of the config of a component.
pub const WASM_CONFIG_MEDIA_TYPE: &'static str = "application/vnd.wasm.config.v0+json";

/// Texts as a JSON array.
pub open spec fn texts_tree(list: Seq<Seq<char>>) -> JsonTree {
    JsonTree::List(Seq::new(list.len(), |i: int| JsonTree::Text(list[i])))
}

/// What a config says of a component.
pub open spec fn component_tree(world: WorldView) -> JsonTree {
    JsonTree::Object(
        seq![
            ("exports"@, texts_tree(world.exports)),
            ("imports"@, texts_tree(world.imports)),
            ("target"@, JsonTree::Null),
        ],
    )
}

/// The config of a component that is stored in layers with the given digests.
pub open spec fn config_tree(
    created: Seq<char>,
    layer_digests: Seq<Seq<char>>,
    world: WorldView,
) -> JsonTree {
    JsonTree::Object(
        seq![
            ("created"@, JsonTree::Text(created)),
            ("author"@, JsonTree::Null),
            ("architecture"@, JsonTree::Text("wasm"@)),
            ("os"@, JsonTree::Text("wasip2"@)),
            ("layerDigests"@, texts_tree(layer_digests)),
            ("component"@, component_tree(world)),
        ],
    )
}

/// Produces an RFC3339 timestamp string for "now".
///
/// The timestamp is informational only, and is always the Unix epoch.
pub fn chrono_now_rfc3339() -> (res: String)
    ensures
        res@ == "1970-01-01T00:00:00Z"@,
{
    "1970-01-01T00:00:00Z".to_string()
}

/// Writes texts as a JSON array.
fn texts_value(list: &Vec<String>) -> (res: serde_json::Value)
    ensures
        json_tree(res) == texts_tree(texts(list@)),
{
    let mut values: Vec<serde_json::Value> = Vec::new();
    let mut i: usize = 0;
    while i < list.len()
        invariant
            i <= list.len(),
            i == values.len(),
            forall|j: int|
                0 <= j < i ==> json_tree(#[trigger] values@[j]) == JsonTree::Text(list@[j]@),
        decreases list.len() - i,
    {
        values.push(json_text(list[i].clone()));
        i += 1;
    }
    assert(json_trees(values@) =~= texts_tree(texts(list@))->List_0);
    json_list(values)
}

/// The names of the members of a config differ from one another.
proof fn lemma_config_names()
    ensures
        "created"@.len() == 7,
        "author"@.len() == 6,
        "architecture"@.len() == 12,
        "architecture"@[0] == 'a',
        "os"@.len() == 2,
        "layerDigests"@.len() == 12,
        "layerDigests"@[0] == 'l',
        "component"@.len() == 9,
        "exports"@.len() == 7,
        "exports"@[0] == 'e',
        "imports"@.len() == 7,
        "imports"@[0] == 'i',
        "target"@.len() == 6,
{
    reveal_strlit("created");
    reveal_strlit("author");
    reveal_strlit("architecture");
    reveal_strlit("os");
    reveal_strlit("layerDigests");
    reveal_strlit("component");
    reveal_strlit("exports");
    reveal_strlit("imports");
    reveal_strlit("target");
}

/// Writes what a config says of a component.
fn component_value(world: &WitWorld) -> (res: serde_json::Value)
    ensures
        json_tree(res) == component_tree(world@),
{
    proof {
        lemma_config_names();
    }
    let mut members: Vec<(String, serde_json::Value)> = Vec::new();
    assert(json_members(members@) =~= Seq::<(Seq<char>, JsonTree)>::empty());
    let exports = texts_value(&world.exports);
    add_member(&mut members, "exports", exports);
    let imports = texts_value(&world.imports);
    add_member(&mut members, "imports", imports);
    let target = json_null();
    add_member(&mut members, "target", target);
    assert(json_members(members@) =~= component_tree(world@)->Object_0);
    json_object(members)
}

/// Writes the config of a component that is stored in one layer.
fn config_bytes(created: String, layer_digest: String, world: &WitWorld) -> (res: Vec<u8>)
    ensures
        res@ == json_bytes(config_tree(created@, seq![layer_digest@], world@)),
{
    proof {
        lemma_config_names();
    }
    let ghost wanted = config_tree(created@, seq![layer_digest@], world@);
    let mut digests: Vec<String> = Vec::new();
    digests.push(layer_digest);
    assert(texts(digests@) =~= seq![layer_digest@]);
    let mut members: Vec<(String, serde_json::Value)> = Vec::new();
    assert(json_members(members@) =~= Seq::<(Seq<char>, JsonTree)>::empty());
    let created_value = json_text(created);
    add_member(&mut members, "created", created_value);
    let author = json_null();
    add_member(&mut members, "author", author);
    let architecture = json_text("wasm".to_string());
    add_member(&mut members, "architecture", architecture);
    let os = json_text("wasip2".to_string());
    add_member(&mut members, "os", os);
    let layer_digests = texts_value(&digests);
    add_member(&mut members, "layerDigests", layer_digests);
    let component = component_value(world);
    add_member(&mut members, "component", component);
    assert(json_members(members@) =~= wanted->Object_0);
    let config = json_object(members);
    json_to_vec(&config)
}

/// The blobs of a component that has the given interface.
pub fn push_artifacts(buf: Vec<u8>, wit: Wit) -> (res: Result<(PushConfig, PushLayer), Error>)
    ensures
        match component_of(wit@) {
            Ok(world) => res matches Ok(r) && {
                &&& r.0.data@ == json_bytes(
                    config_tree("1970-01-01T00:00:00Z"@, seq![digest_text(buf@)], world),
                )
                &&& r.0.media_type@ == WASM_CONFIG_MEDIA_TYPE@
                &&& r.1.data == buf
                &&& r.1.media_type@ == WASM_LAYER_MEDIA_TYPE@
                &&& r.1.annotations is None
            },
            Err(v) => res matches Err(e) && e@ == v,
        },
{
    let world = match component_info(wit) {
        Ok(world) => world,
        Err(e) => {
            return Err(e);
        },
    };
    let layer_digest = sha256_digest(buf.as_slice());
    let data = config_bytes(chrono_now_rfc3339(), layer_digest, &world);
    let config = PushConfig { data, media_type: WASM_CONFIG_MEDIA_TYPE.to_string() };
    let layer = PushLayer {
        data: buf,
        media_type: WASM_LAYER_MEDIA_TYPE.to_string(),
        annotations: None,
    };
    Ok((config, layer))
}

/// Builds the blobs of a component: the layer is the component itself, and the config says what it exports
/// and imports.
pub fn build_push_artifacts(buf: Vec<u8>) -> (res: Result<(PushConfig, PushLayer), Error>)
    ensures
        match described_wit(buf@) {
            Err(chain) => res matches Err(e) && chain.len() > 0 && e@ == ErrorView::InvalidComponent(
                "failed to decode WIT: "@ + chain[0],
                Seq::empty(),
            ),
            Ok(wit) => match component_of(wit) {
                Ok(world) => res matches Ok(r) && {
                    &&& r.0.data@ == json_bytes(
                        config_tree("1970-01-01T00:00:00Z"@, seq![digest_text(buf@)], world),
                    )
                    &&& r.0.media_type@ == WASM_CONFIG_MEDIA_TYPE@
                    &&& r.1.data == buf
                    &&& r.1.media_type@ == WASM_LAYER_MEDIA_TYPE@
                    &&& r.1.annotations is None
                },
                Err(v) => res matches Err(e) && e@ == v,
            },
        },
{
    match read_wit(buf.as_slice()) {
        Ok(wit) => push_artifacts(buf, wit),
        Err(e) => Err(e),
    }
}

// ---------------------------------------------------------------------------
// Laws
// ---------------------------------------------------------------------------

/// Whether the JSON value is the list of the texts, in their order.
pub open spec fn lists(value: Option<JsonTree>, texts: Seq<Seq<char>>) -> bool {
    value matches Some(JsonTree::List(list)) && list.len() == texts.len() && forall|i: int|
        0 <= i < list.len() ==> (#[trigger] list[i]) == JsonTree::Text(texts[i])
}

/// Whether the JSON object is a config that says when it was created, that its only layer has the digest, and that the
/// component has the exports and imports, and nothing else.
pub open spec fn config_says(
    tree: JsonTree,
    created: Seq<char>,
    digest: Seq<char>,
    exports: Seq<Seq<char>>,
    imports: Seq<Seq<char>>,
) -> bool {
    &&& tree matches JsonTree::Object(members) && members.len() == 6 && distinct_names(members)
    &&& member(tree, "created"@) == Some(JsonTree::Text(created))
    &&& member(tree, "author"@) == Some(JsonTree::Null)
    &&& member(tree, "architecture"@) == Some(JsonTree::Text("wasm"@))
    &&& member(tree, "os"@) == Some(JsonTree::Text("wasip2"@))
    &&& lists(member(tree, "layerDigests"@), seq![digest])
    &&& member(tree, "component"@) matches Some(component) && {
        &&& component matches JsonTree::Object(inner) && inner.len() == 3
        &&& lists(member(component, "exports"@), exports)
        &&& lists(member(component, "imports"@), imports)
        &&& member(component, "target"@) == Some(JsonTree::Null)
    }
}

/// A config says what it was made of.
pub proof fn lemma_config_says(created: Seq<char>, digest: Seq<char>, world: WorldView)
    ensures
        config_says(
            config_tree(created, seq![digest], world),
            created,
            digest,
            world.exports,
            world.imports,
        ),
{
    lemma_config_names();
    let tree = config_tree(created, seq![digest], world);
    let members = tree->Object_0;
    assert(distinct_names(members));
    lemma_member_found(members, 0);
    lemma_member_found(members, 1);
    lemma_member_found(members, 2);
    lemma_member_found(members, 3);
    lemma_member_found(members, 4);
    lemma_member_found(members, 5);
    let component = component_tree(world);
    let inner = component->Object_0;
    assert(distinct_names(inner));
    lemma_member_found(inner, 0);
    lemma_member_found(inner, 1);
    lemma_member_found(inner, 2);
}

/// The layer of a component is the component itself, as `application/wasm`. Its config says that, names the layer by the
/// digest of the component, and lists what the component exports and imports.
pub proof fn law_blobs_tell_of_the_component(
    buf: Vec<u8>,
    wit: Wit,
    res: Result<(PushConfig, PushLayer), Error>,
)
    requires
        call_ensures(push_artifacts, (buf, wit), res),
    ensures
        match component_of(wit@) {
            Ok(world) => res matches Ok(r) && {
                &&& r.1.data@ == buf@
                &&& r.1.media_type@ == "application/wasm"@
                &&& r.1.annotations is None
                &&& r.0.media_type@ == "application/vnd.wasm.config.v0+json"@
                &&& exists|tree: JsonTree| #[trigger]
                    json_bytes(tree) == r.0.data@ && config_says(
                        tree,
                        "1970-01-01T00:00:00Z"@,
                        "sha256:"@ + hex(sha256(buf@)),
                        world.exports,
                        world.imports,
                    )
            },
            Err(_) => res is Err,
        },
{
    if let Ok(world) = component_of(wit@) {
        lemma_config_says("1970-01-01T00:00:00Z"@, digest_text(buf@), world);
        let tree = config_tree("1970-01-01T00:00:00Z"@, seq![digest_text(buf@)], world);
        assert(json_bytes(tree) == res->Ok_0.0.data@);
    }
}

/// A binary is turned into blobs exactly if its interface can be decoded and what it describes is there.
pub proof fn law_blobs_are_made_of_what_is_described(
    buf: Vec<u8>,
    res: Result<(PushConfig, PushLayer), Error>,
)
    requires
        call_ensures(build_push_artifacts, (buf,), res),
    ensures
        res is Ok <==> (described_wit(buf@) matches Ok(wit) && component_of(wit) is Ok),
        res matches Ok(r) ==> r.1.data@ == buf@ && r.1.media_type@ == "application/wasm"@ && (
        described_wit(buf@) matches Ok(wit) && component_of(wit) matches Ok(world) && exists|
            tree: JsonTree,
        | #[trigger]
            json_bytes(tree) == r.0.data@ && config_says(
                tree,
                "1970-01-01T00:00:00Z"@,
                "sha256:"@ + hex(sha256(buf@)),
                world.exports,
                world.imports,
            )),
        res matches Err(e) ==> e@ is InvalidComponent,
{
    if let Ok(wit) = described_wit(buf@) {
        if let Ok(world) = component_of(wit) {
            lemma_config_says("1970-01-01T00:00:00Z"@, digest_text(buf@), world);
            let tree = config_tree("1970-01-01T00:00:00Z"@, seq![digest_text(buf@)], world);
            assert(json_bytes(tree) == res->Ok_0.0.data@);
        }
    }
}

/// The time that a component records is always the Unix epoch.
pub proof fn law_recorded_time(res: String)
    requires
        call_ensures(chrono_now_rfc3339, (), res),
    ensures
        res@ == "1970-01-01T00:00:00Z"@,
{
}

} // verus!
