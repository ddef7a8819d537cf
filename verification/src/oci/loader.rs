//! Loading a package: its versions, its releases and their content.

use vstd::prelude::*;

use crate::digest::digest_of;
use crate::digest::digest_text;
use crate::digest::is_hash_text;
use crate::digest::law_hash_text_is_digest;
use crate::digest::sha256;
use crate::digest::ContentDigest;
use crate::error::Error;
use crate::error::ErrorView;
use crate::oci::backend::repository_of;
use crate::oci::backend::OciBackend;
use crate::oci::manifest::first_layer_digest;
use crate::oci::manifest::law_manifest_names_its_layer;
use crate::oci::transport::OciManifest;
use crate::oci::transport::OciReference;
use crate::oci::transport::TagList;
use crate::oci::transport_wasm::base;
use crate::oci::transport_wasm::WasmOciTransport;
use crate::oci::upload::blob_view;
use crate::oci::upload::own_entries;
use crate::oci::upload::Push;
use crate::package::semver_parts;
use crate::package::version_text;
use crate::package::PackageRef;
use crate::package::Release;
use crate::package::Version;
use crate::package::VersionInfo;
use crate::package::VersionParts;
use crate::text::ascii_lower;
use crate::text::hex;
use crate::text::texts;

verus! {

/// The versions among the tags, in the order of these.
pub open spec fn versions_of(tags: Seq<Seq<char>>) -> Seq<VersionParts>
    decreases tags.len(),
{
    if tags.len() == 0 {
        Seq::empty()
    } else {
        let before = versions_of(tags.drop_last());
        match semver_parts(tags.last()) {
            Some(parts) => before.push(parts),
            None => before,
        }
    }
}

/// The parts of a list of versions.
pub open spec fn all_parts(versions: Seq<VersionInfo>) -> Seq<VersionParts> {
    Seq::new(versions.len(), |i: int| versions[i].version.parts())
}

/// The versions that were read from a list of tags, in the order of these. None of them is yanked.
pub open spec fn offered(parsed: Seq<Option<Version>>) -> Seq<VersionInfo>
    decreases parsed.len(),
{
    if parsed.len() == 0 {
        Seq::empty()
    } else {
        let before = offered(parsed.drop_last());
        match parsed.last() {
            Some(version) => before.push(VersionInfo { version, yanked: false }),
            None => before,
        }
    }
}

/// Keeps the tags that were read as versions.
pub fn keep_versions(parsed: Vec<Option<Version>>) -> (res: Vec<VersionInfo>)
    ensures
        res@ == offered(parsed@),
{
    let mut versions: Vec<VersionInfo> = Vec::new();
    let mut i: usize = 0;
    assert(parsed@.take(0) =~= Seq::<Option<Version>>::empty());
    while i < parsed.len()
        invariant
            i <= parsed.len(),
            versions@ == offered(parsed@.take(i as int)),
        decreases parsed.len() - i,
    {
        assert(parsed@.take(i + 1).drop_last() =~= parsed@.take(i as int));
        if let Some(version) = &parsed[i] {
            versions.push(VersionInfo { version: version.clone(), yanked: false });
        }
        i += 1;
    }
    assert(parsed@.take(i as int) =~= parsed@);
    versions
}

/// The versions that were read from the tags have the parts of the versions among the tags.
proof fn lemma_offered(parsed: Seq<Option<Version>>, tags: Seq<Seq<char>>)
    requires
        parsed.len() == tags.len(),
        forall|i: int|
            0 <= i < tags.len() ==> match #[trigger] parsed[i] {
                Some(v) => semver_parts(tags[i]) == Some(v.parts()) && version_text(v.parts())
                    == tags[i],
                None => semver_parts(tags[i]) is None,
            },
    ensures
        all_parts(offered(parsed)) == versions_of(tags),
        forall|i: int|
            0 <= i < offered(parsed).len() ==> !(#[trigger] offered(parsed)[i]).yanked
                && tags.contains(version_text(offered(parsed)[i].version.parts())),
    decreases parsed.len(),
{
    if parsed.len() > 0 {
        let before = parsed.drop_last();
        let rest = tags.drop_last();
        assert forall|i: int| 0 <= i < rest.len() implies match #[trigger] before[i] {
            Some(v) => semver_parts(rest[i]) == Some(v.parts()) && version_text(v.parts())
                == rest[i],
            None => semver_parts(rest[i]) is None,
        } by {
            assert(before[i] == parsed[i]);
        }
        lemma_offered(before, rest);
        let n = parsed.len() - 1;
        assert(parsed[n] == parsed.last());
        assert(tags[n] == tags.last());
        let all = offered(parsed);
        assert forall|i: int| 0 <= i < all.len() implies !(#[trigger] all[i]).yanked
            && tags.contains(version_text(all[i].version.parts())) by {
            if i < offered(before).len() {
                assert(all[i] == offered(before)[i]);
                let t = version_text(all[i].version.parts());
                let k = choose|k: int| 0 <= k < rest.len() && rest[k] == t;
                assert(tags[k] == t);
            } else {
                assert(tags[n] == version_text(all[i].version.parts()));
            }
        }
        if let Some(v) = parsed.last() {
            assert(all_parts(all) =~= all_parts(offered(before)).push(v.parts()));
        }
    } else {
        assert(all_parts(offered(parsed)) =~= versions_of(tags));
    }
}

impl OciBackend {
    /// What is asked for to get the content of a release: a blob of the repository of the package.
    pub fn stream_content_unvalidated(&self, package: &PackageRef, release: &Release) -> (res: (
        OciReference,
        String,
    ))
        ensures
            res.0.registry == self.oci_registry,
            res.0.repository@ == repository_of(self.prefix(), package.names()),
            res.0.tag@ == "latest"@,
            res.1@ == "sha256:"@ + release.content_digest.digits(),
    {
        (self.make_reference(package, None), release.content_digest.to_text())
    }

    /// The versions of a package whose repository has the tags: those tags that are versions. Each of them
    /// is written as its tag is.
    pub fn list_all_versions(&self, list: &TagList) -> (res: Vec<VersionInfo>)
        ensures
            all_parts(res@) == versions_of(texts(list.tags@)),
            forall|i: int|
                0 <= i < res@.len() ==> !(#[trigger] res@[i]).yanked && texts(list.tags@).contains(
                    version_text(res@[i].version.parts()),
                ),
    {
        let mut parsed: Vec<Option<Version>> = Vec::new();
        let ghost tags = texts(list.tags@);
        let mut i: usize = 0;
        while i < list.tags.len()
            invariant
                i <= list.tags.len(),
                i == parsed.len(),
                tags == texts(list.tags@),
                forall|j: int|
                    0 <= j < i ==> match #[trigger] parsed@[j] {
                        Some(v) => semver_parts(tags[j]) == Some(v.parts()) && version_text(
                            v.parts(),
                        ) == tags[j],
                        None => semver_parts(tags[j]) is None,
                    },
            decreases list.tags.len() - i,
        {
            assert(tags[i as int] == list.tags@[i as int]@);
            parsed.push(Version::parse(list.tags[i].as_str()));
            i += 1;
        }
        proof {
            lemma_offered(parsed@, tags);
        }
        keep_versions(parsed)
    }

    /// The release of a version whose manifest is given: its content is the first layer.
    pub fn get_release(&self, version: &Version, manifest: &OciManifest) -> (res: Result<
        Release,
        Error,
    >)
        ensures
            if manifest.layers@.len() == 0 {
                res matches Err(e) && e@ == ErrorView::InvalidPackageManifest(
                    "Returned manifest had no layers"@,
                )
            } else {
                match digest_of(manifest.layers@[0].digest@) {
                    Ok(digits) => res matches Ok(r) && r.version == *version
                        && r.content_digest.digits() == digits,
                    Err(v) => res matches Err(e) && e@ == v,
                }
            },
    {
        if manifest.layers.len() == 0 {
            return Err(
                Error::InvalidPackageManifest("Returned manifest had no layers".to_string()),
            );
        }
        match ContentDigest::parse(manifest.layers[0].digest.as_str()) {
            Ok(content_digest) => Ok(Release { version: version.clone(), content_digest }),
            Err(e) => Err(e),
        }
    }
}

// ---------------------------------------------------------------------------
// Laws
// ---------------------------------------------------------------------------

/// The versions of a package are those among the tags of its repository: none is left out and none is
/// added.
pub proof fn law_versions_are_those_among_the_tags(tags: Seq<Seq<char>>, parts: VersionParts)
    ensures
        versions_of(tags).contains(parts) <==> exists|i: int|
            0 <= i < tags.len() && semver_parts(#[trigger] tags[i]) == Some(parts),
    decreases tags.len(),
{
    let all = versions_of(tags);
    if tags.len() > 0 {
        let rest = tags.drop_last();
        let before = versions_of(rest);
        law_versions_are_those_among_the_tags(rest, parts);
        if all.contains(parts) {
            let k = choose|k: int| 0 <= k < all.len() && all[k] == parts;
            if k < before.len() {
                assert(before[k] == parts);
                let i = choose|i: int|
                    0 <= i < rest.len() && semver_parts(#[trigger] rest[i]) == Some(parts);
                assert(tags[i] == rest[i]);
            } else {
                assert(tags[tags.len() - 1] == tags.last());
            }
        }
        if exists|i: int| 0 <= i < tags.len() && semver_parts(#[trigger] tags[i]) == Some(parts) {
            let i = choose|i: int|
                0 <= i < tags.len() && semver_parts(#[trigger] tags[i]) == Some(parts);
            if i < rest.len() {
                assert(rest[i] == tags[i]);
                let k = choose|k: int| 0 <= k < before.len() && before[k] == parts;
                assert(all[k] == parts);
            } else {
                assert(all[all.len() - 1] == parts);
            }
        }
    }
}

/// What was pushed is what is pulled under the same reference. The manifest is asked for where it was put;
/// the first layer that it names has the digest of the layer; that reads back as the digest of a release;
/// and the content of that release is asked for where the registry was asked for the layer.
pub proof fn law_what_was_pushed_is_pulled(
    transport: WasmOciTransport,
    reference: OciReference,
    push: Push,
)
    requires
        push.wf(),
        push.layer.base@ == base(transport.protocol, reference.registry@),
        push.layer.repository == reference.repository,
        push.tag == reference.tag,
    ensures
        push.manifest_url() == transport.resource_url(
            reference,
            "/manifests/"@ + reference.tag@,
        ),
        first_layer_digest(push.manifest()) == Some(digest_text(push.layer.data@)),
        digest_of(digest_text(push.layer.data@)) == Ok::<Seq<char>, ErrorView>(
            hex(sha256(push.layer.data@)),
        ),
        transport.resource_url(
            reference,
            "/blobs/"@ + ("sha256:"@ + hex(sha256(push.layer.data@))),
        ) == push.layer.blobs_url(push.layer.digest@),
{
    law_manifest_names_its_layer(
        blob_view(push.config, push.config_media_type),
        blob_view(push.layer, push.layer_media_type),
        own_entries(push.layer_annotations),
        own_entries(push.annotations),
    );
    let prefix = base(transport.protocol, reference.registry@) + "/v2/"@ + reference.repository@;
    assert(prefix + "/manifests/"@ + reference.tag@ =~= prefix + ("/manifests/"@ + reference.tag@));
    assert(prefix + "/blobs/"@ + push.layer.digest@ =~= prefix + ("/blobs/"@ + push.layer.digest@));
}

/// The versions among two lists of tags are those among the first and then those among the second. One tag gives the
/// version that it is, where it is one.
pub proof fn law_versions_keep_the_order_of_the_tags(
    first: Seq<Seq<char>>,
    second: Seq<Seq<char>>,
    tag: Seq<char>,
)
    ensures
        versions_of(first + second) == versions_of(first) + versions_of(second),
        versions_of(seq![tag]) == (match semver_parts(tag) {
            Some(parts) => seq![parts],
            None => Seq::empty(),
        }),
    decreases second.len(),
{
    if second.len() == 0 {
        assert(first + second =~= first);
        assert(versions_of(first) + versions_of(second) =~= versions_of(first));
    } else {
        law_versions_keep_the_order_of_the_tags(first, second.drop_last(), tag);
        assert((first + second).drop_last() =~= first + second.drop_last());
        assert((first + second).last() == second.last());
        assert(versions_of(first + second) =~= versions_of(first) + versions_of(second));
    }
    assert(seq![tag].drop_last() =~= Seq::<Seq<char>>::empty());
    assert(versions_of(Seq::<Seq<char>>::empty()) =~= Seq::<VersionParts>::empty());
    if let Some(parts) = semver_parts(tag) {
        assert(Seq::<VersionParts>::empty().push(parts) =~= seq![parts]);
    }
}

/// The versions of a package are those tags of its repository that are versions: each such tag gives one, none is
/// yanked, and nothing else is listed.
pub proof fn law_versions_are_listed(backend: &OciBackend, list: &TagList, res: Vec<VersionInfo>)
    requires
        call_ensures(OciBackend::list_all_versions, (backend, list), res),
    ensures
        all_parts(res@) == versions_of(texts(list.tags@)),
        forall|i: int| 0 <= i < res@.len() ==> !(#[trigger] res@[i]).yanked,
        forall|i: int|
            0 <= i < res@.len() ==> exists|j: int|
                0 <= j < list.tags@.len() && semver_parts((#[trigger] list.tags@[j])@) == Some(
                    (#[trigger] res@[i]).version.parts(),
                ),
        forall|j: int|
            0 <= j < list.tags@.len() ==> (semver_parts((#[trigger] list.tags@[j])@) matches Some(p)
                ==> exists|i: int| 0 <= i < res@.len() && (#[trigger] res@[i]).version.parts() == p),
{
    let tags = texts(list.tags@);
    let all = all_parts(res@);
    assert forall|i: int| 0 <= i < res@.len() implies exists|j: int|
        0 <= j < list.tags@.len() && semver_parts((#[trigger] list.tags@[j])@) == Some(
            (#[trigger] res@[i]).version.parts(),
        ) by {
        let parts = res@[i].version.parts();
        assert(all[i] == parts);
        assert(versions_of(tags).contains(parts));
        law_versions_are_those_among_the_tags(tags, parts);
        let j = choose|j: int| 0 <= j < tags.len() && semver_parts(#[trigger] tags[j]) == Some(parts);
        assert(tags[j] == list.tags@[j]@);
    }
    assert forall|j: int| 0 <= j < list.tags@.len() implies (semver_parts((#[trigger] list.tags@[j])@)
        matches Some(p) ==> exists|i: int|
        0 <= i < res@.len() && (#[trigger] res@[i]).version.parts() == p) by {
        if let Some(p) = semver_parts(list.tags@[j]@) {
            assert(tags[j] == list.tags@[j]@);
            law_versions_are_those_among_the_tags(tags, p);
            let i = choose|i: int| 0 <= i < all.len() && all[i] == p;
            assert(res@[i].version.parts() == p);
        }
    }
}

/// The content of a release is the first layer of its manifest, and of no other: its digest is the one that the manifest
/// names there. Without a layer, or with a digest that is none, there is no release.
pub proof fn law_release_is_the_first_layer(
    backend: &OciBackend,
    version: &Version,
    manifest: &OciManifest,
    digits: Seq<char>,
    res: Result<Release, Error>,
)
    requires
        call_ensures(OciBackend::get_release, (backend, version, manifest), res),
    ensures
        manifest.layers@.len() == 0 ==> (res matches Err(e) && e@ == ErrorView::InvalidPackageManifest(
            "Returned manifest had no layers"@,
        )),
        manifest.layers@.len() > 0 && is_hash_text(digits) && manifest.layers@[0].digest@ == "sha256:"@
            + digits ==> (res matches Ok(r) && r.version == *version && r.content_digest.digits()
            == digits.map_values(|c: char| ascii_lower(c))),
        res matches Ok(r) ==> r.version == *version && manifest.layers@.len() > 0
            && "sha256:"@.is_prefix_of(manifest.layers@[0].digest@),
{
    if is_hash_text(digits) {
        law_hash_text_is_digest(digits);
    }
}

/// The content of a release is asked for by its digest, in the repository of the package.
pub proof fn law_content_is_asked_for_by_its_digest(
    backend: &OciBackend,
    package: &PackageRef,
    release: &Release,
    res: (OciReference, String),
)
    requires
        call_ensures(OciBackend::stream_content_unvalidated, (backend, package, release), res),
    ensures
        res.0.registry@ == backend.oci_registry@,
        res.0.repository@ == (match backend.namespace_prefix {
            Some(p) => p@,
            None => ""@,
        }) + package.namespace@ + "/"@ + package.name@,
        res.1@ == "sha256:"@ + release.content_digest.digits(),
{
    reveal_strlit("");
    assert(""@ =~= Seq::<char>::empty());
}

/// The tags that were read as versions are kept in their order, each as it is, and none is yanked.
pub proof fn law_read_versions_are_kept(
    first: Seq<Option<Version>>,
    second: Seq<Option<Version>>,
    version: Version,
)
    ensures
        offered(first + second) == offered(first) + offered(second),
        offered(seq![Some(version)]) == seq![VersionInfo { version, yanked: false }],
        offered(seq![None]) == Seq::<VersionInfo>::empty(),
    decreases second.len(),
{
    if second.len() == 0 {
        assert(first + second =~= first);
        assert(offered(first) + offered(second) =~= offered(first));
    } else {
        law_read_versions_are_kept(first, second.drop_last(), version);
        assert((first + second).drop_last() =~= first + second.drop_last());
        assert((first + second).last() == second.last());
        assert(offered(first + second) =~= offered(first) + offered(second));
    }
    let none = Seq::<Option<Version>>::empty();
    assert(seq![Some(version)].drop_last() =~= none);
    assert(seq![None::<Version>].drop_last() =~= none);
    assert(offered(none) =~= Seq::<VersionInfo>::empty());
    assert(Seq::<VersionInfo>::empty().push(VersionInfo { version, yanked: false }) =~= seq![
        VersionInfo { version, yanked: false },
    ]);
}

} // verus!
