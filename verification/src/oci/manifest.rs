//! The manifest of an image.

use vstd::prelude::*;

use crate::json::add_member;
use crate::json::distinct_names;
use crate::json::json_bytes;
use crate::json::json_list;
use crate::json::json_members;
use crate::json::json_number;
use crate::json::json_object;
use crate::json::json_text;
use crate::json::json_to_vec;
use crate::json::json_tree;
use crate::json::json_trees;
use crate::json::lemma_member_found;
use crate::json::member;
use crate::json::JsonTree;
use crate::json::member_of;
use crate::text_map::keys_ascend;
use crate::text_map::text_before_irreflexive;
use crate::text_map::TextMap;

verus! {

/// Content type for OCI image manifests.
pub const OCI_MANIFEST_CONTENT_TYPE: &'static str = "application/vnd.oci.image.manifest.v1+json";

/// The entries of an optional map, in the order of their keys.
pub open spec fn entries(annotations: Option<&TextMap>) -> Seq<(Seq<char>, Seq<char>)> {
    match annotations {
        Some(map) => map.pairs(),
        None => Seq::empty(),
    }
}

/// Annotations as a JSON object, in the order of their keys.
pub open spec fn annotations_tree(pairs: Seq<(Seq<char>, Seq<char>)>) -> JsonTree {
    JsonTree::Object(Seq::new(pairs.len(), |i: int| (pairs[i].0, JsonTree::Text(pairs[i].1))))
}

/// The member that holds the annotations, where there are any.
pub open spec fn annotations_member(pairs: Seq<(Seq<char>, Seq<char>)>) -> Seq<
    (Seq<char>, JsonTree),
> {
    if pairs.len() == 0 {
        Seq::empty()
    } else {
        seq![("annotations"@, annotations_tree(pairs))]
    }
}

/// What a manifest says of a blob.
pub struct BlobView {
    pub media_type: Seq<char>,
    pub digest: Seq<char>,
    pub size: int,
}

/// The members that describe a blob.
pub open spec fn blob_members(blob: BlobView) -> Seq<(Seq<char>, JsonTree)> {
    seq![
        ("digest"@, JsonTree::Text(blob.digest)),
        ("mediaType"@, JsonTree::Text(blob.media_type)),
        ("size"@, JsonTree::Number(blob.size)),
    ]
}

/// A manifest with a config and one layer. The members of an object stand in the order of their names,
/// and annotations appear only where there are any.
pub open spec fn manifest_tree(
    config: BlobView,
    layer: BlobView,
    layer_annotations: Seq<(Seq<char>, Seq<char>)>,
    annotations: Seq<(Seq<char>, Seq<char>)>,
) -> JsonTree {
    JsonTree::Object(
        annotations_member(annotations) + seq![
            ("config"@, JsonTree::Object(blob_members(config))),
            (
                "layers"@,
                JsonTree::List(
                    seq![
                        JsonTree::Object(annotations_member(layer_annotations) + blob_members(layer)),
                    ],
                ),
            ),
            ("mediaType"@, JsonTree::Text(OCI_MANIFEST_CONTENT_TYPE@)),
            ("schemaVersion"@, JsonTree::Number(2)),
        ],
    )
}

/// Writes annotations as a JSON object.
fn annotations_object(annotations: &TextMap) -> (res: serde_json::Value)
    ensures
        json_tree(res) == annotations_tree(annotations.pairs()),
{
    let mut members: Vec<(String, serde_json::Value)> = Vec::new();
    let n: usize = annotations.len();
    let ghost pairs = annotations.pairs();
    let ghost wanted = Seq::new(pairs.len(), |i: int| (pairs[i].0, JsonTree::Text(pairs[i].1)));
    let mut i: usize = 0;
    while i < n
        invariant
            i <= n,
            n == pairs.len(),
            pairs == annotations.pairs(),
            i > 0 ==> keys_ascend(pairs),
            wanted == Seq::new(pairs.len(), |i: int| (pairs[i].0, JsonTree::Text(pairs[i].1))),
            json_members(members@) =~= wanted.take(i as int),
        decreases n - i,
    {
        let (key, value) = annotations.entry(i);
        let text = json_text(value.to_string());
        add_member(&mut members, key, text);
        assert(wanted.take(i + 1) =~= wanted.take(i as int).push(wanted[i as int]));
        i += 1;
    }
    proof {
        assert(wanted.take(n as int) =~= wanted);
        assert forall|i: int, j: int| 0 <= i < j < wanted.len() implies #[trigger] wanted[i].0
            != #[trigger] wanted[j].0 by {
            assert(wanted[i].0 == pairs[i].0 && wanted[j].0 == pairs[j].0);
            text_before_irreflexive(pairs[i].0);
        }
    }
    json_object(members)
}

/// Adds the member that holds the annotations, where there are any.
fn add_annotations(members: &mut Vec<(String, serde_json::Value)>, annotations: Option<&TextMap>)
    ensures
        json_members(final(members)@) == json_members(old(members)@) + annotations_member(
            entries(annotations),
        ),
{
    let ghost before = json_members(members@);
    if let Some(map) = annotations {
        if !map.is_empty() {
            let value = annotations_object(map);
            add_member(members, "annotations", value);
        }
    }
    assert(json_members(members@) =~= before + annotations_member(entries(annotations)));
}

/// Adds the members that describe a blob.
fn add_blob(
    members: &mut Vec<(String, serde_json::Value)>,
    media_type: &str,
    digest: &str,
    size: i64,
)
    ensures
        json_members(final(members)@) == json_members(old(members)@) + blob_members(
            BlobView { media_type: media_type@, digest: digest@, size: size as int },
        ),
{
    let ghost before = json_members(members@);
    let digest_value = json_text(digest.to_string());
    add_member(members, "digest", digest_value);
    let type_value = json_text(media_type.to_string());
    add_member(members, "mediaType", type_value);
    let size_value = json_number(size);
    add_member(members, "size", size_value);
    assert(json_members(members@) =~= before + blob_members(
        BlobView { media_type: media_type@, digest: digest@, size: size as int },
    ));
}

/// The names of the members of a manifest differ from one another.
proof fn lemma_names_differ()
    ensures
        "annotations"@.len() == 11,
        "config"@.len() == 6,
        "layers"@.len() == 6,
        "config"@[0] != "layers"@[0],
        "mediaType"@.len() == 9,
        "schemaVersion"@.len() == 13,
        "digest"@.len() == 6,
        "size"@.len() == 4,
{
    reveal_strlit("annotations");
    reveal_strlit("config");
    reveal_strlit("layers");
    reveal_strlit("mediaType");
    reveal_strlit("schemaVersion");
    reveal_strlit("digest");
    reveal_strlit("size");
}

/// Builds a minimal OCI image manifest JSON.
pub fn build_manifest_json(
    config_media_type: &str,
    config_digest: &str,
    config_size: i64,
    layer_media_type: &str,
    layer_digest: &str,
    layer_size: i64,
    layer_annotations: Option<&TextMap>,
    manifest_annotations: Option<&TextMap>,
) -> (res: Vec<u8>)
    ensures
        res@ == json_bytes(
            manifest_tree(
                (BlobView {
                    media_type: config_media_type@,
                    digest: config_digest@,
                    size: config_size as int,
                }),
                (BlobView {
                    media_type: layer_media_type@,
                    digest: layer_digest@,
                    size: layer_size as int,
                }),
                entries(layer_annotations),
                entries(manifest_annotations),
            ),
        ),
{
    proof {
        lemma_names_differ();
    }
    let ghost config_blob = BlobView {
        media_type: config_media_type@,
        digest: config_digest@,
        size: config_size as int,
    };
    let ghost layer_blob = BlobView {
        media_type: layer_media_type@,
        digest: layer_digest@,
        size: layer_size as int,
    };
    let mut config: Vec<(String, serde_json::Value)> = Vec::new();
    assert(json_members(config@) =~= Seq::<(Seq<char>, JsonTree)>::empty());
    add_blob(&mut config, config_media_type, config_digest, config_size);
    assert(json_members(config@) =~= blob_members(config_blob));
    let config_value = json_object(config);

    let mut layer: Vec<(String, serde_json::Value)> = Vec::new();
    assert(json_members(layer@) =~= Seq::<(Seq<char>, JsonTree)>::empty());
    add_annotations(&mut layer, layer_annotations);
    add_blob(&mut layer, layer_media_type, layer_digest, layer_size);
    assert(json_members(layer@) =~= annotations_member(entries(layer_annotations)) + blob_members(
        layer_blob,
    ));
    let layer_value = json_object(layer);
    let mut layers: Vec<serde_json::Value> = Vec::new();
    layers.push(layer_value);
    assert(json_trees(layers@) =~= seq![json_tree(layer_value)]);
    let layers_value = json_list(layers);

    let mut manifest: Vec<(String, serde_json::Value)> = Vec::new();
    assert(json_members(manifest@) =~= Seq::<(Seq<char>, JsonTree)>::empty());
    add_annotations(&mut manifest, manifest_annotations);
    add_member(&mut manifest, "config", config_value);
    add_member(&mut manifest, "layers", layers_value);
    let type_value = json_text(OCI_MANIFEST_CONTENT_TYPE.to_string());
    add_member(&mut manifest, "mediaType", type_value);
    let version_value = json_number(2);
    add_member(&mut manifest, "schemaVersion", version_value);
    proof {
        let wanted = manifest_tree(
            config_blob,
            layer_blob,
            entries(layer_annotations),
            entries(manifest_annotations),
        );
        assert(json_members(manifest@) =~= wanted->Object_0);
    }
    let manifest_value = json_object(manifest);
    json_to_vec(&manifest_value)
}

/// The digest of the first layer that a manifest names.
pub open spec fn first_layer_digest(manifest: JsonTree) -> Option<Seq<char>> {
    match member(manifest, "layers"@) {
        Some(JsonTree::List(layers)) if layers.len() > 0 => match member(layers[0], "digest"@) {
            Some(JsonTree::Text(digest)) => Some(digest),
            _ => None,
        },
        _ => None,
    }
}

/// The first layer of a manifest is the one that it was built for.
pub proof fn law_manifest_names_its_layer(
    config: BlobView,
    layer: BlobView,
    layer_annotations: Seq<(Seq<char>, Seq<char>)>,
    annotations: Seq<(Seq<char>, Seq<char>)>,
)
    ensures
        first_layer_digest(manifest_tree(config, layer, layer_annotations, annotations)) == Some(
            layer.digest,
        ),
{
    lemma_names_differ();
    let tree = manifest_tree(config, layer, layer_annotations, annotations);
    let members = tree->Object_0;
    let n = annotations_member(annotations).len() as int;
    assert(members[n + 1].0 == "layers"@);
    lemma_member_found(members, n + 1);
    let inner = annotations_member(layer_annotations) + blob_members(layer);
    let m = annotations_member(layer_annotations).len() as int;
    assert(inner[m].0 == "digest"@);
    lemma_member_found(inner, m);
}

/// Whether the JSON object tells of a blob by its media type, its digest and its length.
pub open spec fn describes(
    value: Option<JsonTree>,
    media_type: Seq<char>,
    digest: Seq<char>,
    size: int,
) -> bool {
    value matches Some(tree) && {
        &&& member(tree, "mediaType"@) == Some(JsonTree::Text(media_type))
        &&& member(tree, "digest"@) == Some(JsonTree::Text(digest))
        &&& member(tree, "size"@) == Some(JsonTree::Number(size))
    }
}

/// Whether the JSON object has the annotations, each under its key, and no others. Without any there is no such member.
pub open spec fn has_annotations(tree: JsonTree, pairs: Seq<(Seq<char>, Seq<char>)>) -> bool {
    if pairs.len() == 0 {
        member(tree, "annotations"@) is None
    } else {
        member(tree, "annotations"@) matches Some(JsonTree::Object(list)) && list.len() == pairs.len()
            && forall|i: int|
            0 <= i < list.len() ==> (#[trigger] list[i]) == (pairs[i].0, JsonTree::Text(pairs[i].1))
    }
}

/// What no member is named is not found.
proof fn lemma_member_missing(members: Seq<(Seq<char>, JsonTree)>, name: Seq<char>)
    requires
        forall|i: int| 0 <= i < members.len() ==> (#[trigger] members[i]).0 != name,
    ensures
        member_of(members, name) is None,
    decreases members.len(),
{
    if members.len() > 0 {
        let rest = members.drop_first();
        assert(members[0].0 != name);
        assert forall|i: int| 0 <= i < rest.len() implies (#[trigger] rest[i]).0 != name by {
            assert(rest[i] == members[i + 1]);
        }
        lemma_member_missing(rest, name);
    }
}

/// A manifest has the version 2 and the media type of an OCI image manifest. It names the config and exactly one layer,
/// each by its media type, its digest and its length, and has the annotations of the image and those of the layer
/// where there are any.
pub proof fn law_manifest_tells_of_its_blobs(
    config: BlobView,
    layer: BlobView,
    layer_annotations: Seq<(Seq<char>, Seq<char>)>,
    annotations: Seq<(Seq<char>, Seq<char>)>,
)
    ensures
        ({
            let tree = manifest_tree(config, layer, layer_annotations, annotations);
            &&& member(tree, "schemaVersion"@) == Some(JsonTree::Number(2))
            &&& member(tree, "mediaType"@) == Some(
                JsonTree::Text("application/vnd.oci.image.manifest.v1+json"@),
            )
            &&& describes(
                member(tree, "config"@),
                config.media_type,
                config.digest,
                config.size,
            )
            &&& has_annotations(tree, annotations)
            &&& member(tree, "layers"@) matches Some(JsonTree::List(layers)) && {
                &&& layers.len() == 1
                &&& describes(Some(layers[0]), layer.media_type, layer.digest, layer.size)
                &&& has_annotations(layers[0], layer_annotations)
            }
        }),
{
    lemma_names_differ();
    let tree = manifest_tree(config, layer, layer_annotations, annotations);
    let members = tree->Object_0;
    let n = annotations_member(annotations).len() as int;
    assert(distinct_names(members));
    assert(members[n].0 == "config"@);
    assert(members[n + 1].0 == "layers"@);
    assert(members[n + 2].0 == "mediaType"@);
    assert(members[n + 3].0 == "schemaVersion"@);
    lemma_member_found(members, n);
    lemma_member_found(members, n + 1);
    lemma_member_found(members, n + 2);
    lemma_member_found(members, n + 3);
    let about = blob_members(config);
    assert(distinct_names(about));
    lemma_member_found(about, 0);
    lemma_member_found(about, 1);
    lemma_member_found(about, 2);
    if annotations.len() > 0 {
        assert(members[0].0 == "annotations"@);
        lemma_member_found(members, 0);
    } else {
        lemma_member_missing(members, "annotations"@);
    }
    let inner = annotations_member(layer_annotations) + blob_members(layer);
    let m = annotations_member(layer_annotations).len() as int;
    assert(distinct_names(inner));
    assert(inner[m].0 == "digest"@);
    assert(inner[m + 1].0 == "mediaType"@);
    assert(inner[m + 2].0 == "size"@);
    lemma_member_found(inner, m);
    lemma_member_found(inner, m + 1);
    lemma_member_found(inner, m + 2);
    if layer_annotations.len() > 0 {
        assert(inner[0].0 == "annotations"@);
        lemma_member_found(inner, 0);
    } else {
        lemma_member_missing(inner, "annotations"@);
    }
}

/// What `build_manifest_json` writes is a manifest that names the config and the layer as they are given, with the
/// annotations of each map under their keys.
pub proof fn law_built_manifest_tells_what_was_given(
    config_media_type: &str,
    config_digest: &str,
    config_size: i64,
    layer_media_type: &str,
    layer_digest: &str,
    layer_size: i64,
    layer_annotations: Option<&TextMap>,
    manifest_annotations: Option<&TextMap>,
    res: Vec<u8>,
)
    requires
        call_ensures(
            build_manifest_json,
            (
                config_media_type,
                config_digest,
                config_size,
                layer_media_type,
                layer_digest,
                layer_size,
                layer_annotations,
                manifest_annotations,
            ),
            res,
        ),
    ensures
        exists|tree: JsonTree| #[trigger]
            json_bytes(tree) == res@ && {
                &&& member(tree, "schemaVersion"@) == Some(JsonTree::Number(2))
                &&& member(tree, "mediaType"@) == Some(
                    JsonTree::Text("application/vnd.oci.image.manifest.v1+json"@),
                )
                &&& describes(
                    member(tree, "config"@),
                    config_media_type@,
                    config_digest@,
                    config_size as int,
                )
                &&& has_annotations(
                    tree,
                    match manifest_annotations {
                        Some(map) => map.pairs(),
                        None => Seq::empty(),
                    },
                )
                &&& member(tree, "layers"@) matches Some(JsonTree::List(layers)) && {
                    &&& layers.len() == 1
                    &&& describes(
                        Some(layers[0]),
                        layer_media_type@,
                        layer_digest@,
                        layer_size as int,
                    )
                    &&& has_annotations(
                        layers[0],
                        match layer_annotations {
                            Some(map) => map.pairs(),
                            None => Seq::empty(),
                        },
                    )
                }
            },
{
    let config = BlobView {
        media_type: config_media_type@,
        digest: config_digest@,
        size: config_size as int,
    };
    let layer = BlobView {
        media_type: layer_media_type@,
        digest: layer_digest@,
        size: layer_size as int,
    };
    law_manifest_tells_of_its_blobs(
        config,
        layer,
        entries(layer_annotations),
        entries(manifest_annotations),
    );
    let tree = manifest_tree(
        config,
        layer,
        entries(layer_annotations),
        entries(manifest_annotations),
    );
    assert(json_bytes(tree) == res@);
}

} // verus!
