use wasm_pkg_client::digest::{sha256_digest, ContentDigest};
use wasm_pkg_client::error::{Error, InvalidDigest};
use wasm_pkg_client::oci::backend::OciBackend;
use wasm_pkg_client::oci::loader::keep_versions;
use wasm_pkg_client::oci::transport::{
    OciCredentials, OciLayerDescriptor, OciManifest, OciReference, TagList,
};
use wasm_pkg_client::package::{PackageRef, Release, Version, VersionInfo};

fn backend() -> OciBackend {
    OciBackend {
        oci_registry: "reg".to_string(),
        namespace_prefix: Some("web/".to_string()),
        credentials: OciCredentials::Anonymous,
    }
}

fn version(text: &str) -> Version {
    Version::parse(text).unwrap()
}

fn layer(digest: &str) -> OciLayerDescriptor {
    OciLayerDescriptor { digest: digest.to_string(), ..OciLayerDescriptor::default() }
}

#[test]
fn tags_that_are_versions_are_listed() {
    let tags = ["latest", "1.0.0", "v1.0.1", "0.9.0", "1.0.0-rc.1", "1.0"];
    let list = TagList { tags: tags.iter().map(|t| t.to_string()).collect() };
    let versions = backend().list_all_versions(&list);
    let texts: Vec<String> = versions.iter().map(|v| v.version.to_text()).collect();
    assert_eq!(texts, vec!["1.0.0", "0.9.0", "1.0.0-rc.1"]);
    assert!(versions.iter().all(|v| !v.yanked));
}

#[test]
fn no_tag_gives_no_version() {
    assert!(backend().list_all_versions(&TagList { tags: vec![] }).is_empty());
}

#[test]
fn versions_keep_their_order() {
    assert_eq!(
        keep_versions(vec![Some(version("2.0.0")), None, Some(version("1.0.0"))]),
        vec![
            VersionInfo { version: version("2.0.0"), yanked: false },
            VersionInfo { version: version("1.0.0"), yanked: false },
        ]
    );
}

#[test]
fn a_release_is_the_first_layer() {
    let first = sha256_digest(b"first");
    let manifest = OciManifest { layers: vec![layer(&first), layer("junk")] };
    let release = backend().get_release(&version("1.2.3"), &manifest).unwrap();
    assert_eq!(
        release,
        Release {
            version: version("1.2.3"),
            content_digest: ContentDigest::parse(&first).unwrap(),
        }
    );
}

#[test]
fn a_release_needs_a_layer_with_a_digest() {
    assert_eq!(
        backend().get_release(&version("1.0.0"), &OciManifest { layers: vec![] }),
        Err(Error::InvalidPackageManifest("Returned manifest had no layers".to_string()))
    );
    assert_eq!(
        backend().get_release(&version("1.0.0"), &OciManifest { layers: vec![layer("md5:0")] }),
        Err(Error::InvalidContentDigest(InvalidDigest::MissingPrefix))
    );
}

#[test]
fn content_is_asked_for_by_its_digest() {
    let digest = sha256_digest(b"content");
    let release = Release {
        version: version("1.0.0"),
        content_digest: ContentDigest::parse(&digest).unwrap(),
    };
    let package = PackageRef::parse("ns:pkg").unwrap();
    assert_eq!(
        backend().stream_content_unvalidated(&package, &release),
        (
            OciReference::new(
                "reg".to_string(),
                "web/ns/pkg".to_string(),
                "latest".to_string()
            ),
            digest
        )
    );
}
