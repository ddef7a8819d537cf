use wasm_pkg_client::error::Error;
use wasm_pkg_client::metadata::Registry;
use wasm_pkg_client::oci::backend::{
    docker_credentials_by_name, docker_credentials_by_url, get_docker_credential,
    oci_registry_name, DockerAction, DockerLookup, OciBackend, OciRegistryMetadata,
};
use wasm_pkg_client::oci::config::BasicCredentials;
use wasm_pkg_client::oci::transport::{OciCredentials, OciReference};
use wasm_pkg_client::package::{PackageRef, Version};

fn registry() -> Registry {
    Registry { authority: "example.com".to_string() }
}

fn meta(registry: Option<&str>, prefix: Option<&str>) -> OciRegistryMetadata {
    OciRegistryMetadata {
        registry: registry.map(String::from),
        namespace_prefix: prefix.map(String::from),
    }
}

fn basic(user: &str, password: &str) -> OciCredentials {
    OciCredentials::Basic(user.to_string(), password.to_string())
}

fn looked_up(user: &str, password: &str) -> DockerLookup {
    DockerLookup::UsernamePassword(user.to_string(), password.to_string())
}

#[test]
fn the_metadata_names_the_oci_registry() {
    assert_eq!(oci_registry_name(&registry(), &meta(Some("ghcr.io"), None)), "ghcr.io");
    assert_eq!(oci_registry_name(&registry(), &meta(None, Some("x/"))), "example.com");
}

#[test]
fn configured_credentials_come_first() {
    let configured =
        BasicCredentials { username: "u".to_string(), password: "p".to_string() };
    let backend = OciBackend::new(
        &registry(),
        Some(configured),
        meta(Some("ghcr.io"), Some("webassembly/")),
        basic("stored", "s"),
    );
    assert_eq!(backend.oci_registry, "ghcr.io");
    assert_eq!(backend.namespace_prefix, Some("webassembly/".to_string()));
    assert_eq!(backend.credentials, basic("u", "p"));
    let backend = OciBackend::new(&registry(), None, meta(None, None), basic("stored", "s"));
    assert_eq!(backend.oci_registry, "example.com");
    assert_eq!(backend.namespace_prefix, None);
    assert_eq!(backend.credentials, basic("stored", "s"));
}

#[test]
fn fields_outside_the_section_come_first() {
    let merged = OciRegistryMetadata::with_aliases(
        Some(meta(Some("section"), Some("section/"))),
        Some("alias".to_string()),
        None,
    );
    assert_eq!(merged.registry, Some("alias".to_string()));
    assert_eq!(merged.namespace_prefix, Some("section/".to_string()));
    let merged = OciRegistryMetadata::with_aliases(None, None, Some("alias/".to_string()));
    assert_eq!(merged.registry, None);
    assert_eq!(merged.namespace_prefix, Some("alias/".to_string()));
}

#[test]
fn a_reference_has_the_prefix_and_the_version() {
    let package = PackageRef::parse("wasi:http").unwrap();
    let version = Version::parse("0.2.0-rc+x").unwrap();
    let with = |prefix: Option<&str>, version: Option<&Version>| {
        OciBackend::new(
            &registry(),
            None,
            meta(Some("ghcr.io"), prefix),
            OciCredentials::Anonymous,
        )
        .make_reference(&package, version)
    };
    assert_eq!(
        with(Some("webassembly/"), Some(&version)),
        OciReference::new(
            "ghcr.io".to_string(),
            "webassembly/wasi/http".to_string(),
            "0.2.0-rc+x".to_string()
        )
    );
    assert_eq!(
        with(None, None),
        OciReference::new("ghcr.io".to_string(), "wasi/http".to_string(), "latest".to_string())
    );
}

#[test]
fn the_catalog_concerns_no_repository() {
    let backend =
        OciBackend::new(&registry(), None, meta(None, None), OciCredentials::Anonymous);
    assert_eq!(
        backend.catalog_reference(),
        OciReference::new("example.com".to_string(), String::new(), String::new())
    );
}

#[test]
fn answers_of_the_credential_store_are_read() {
    assert_eq!(get_docker_credential(looked_up("u", "p")), Ok(Some(basic("u", "p"))));
    assert_eq!(get_docker_credential(DockerLookup::Failed), Ok(None));
    assert_eq!(
        get_docker_credential(DockerLookup::IdentityToken),
        Err(Error::CredentialError("identity tokens not supported".to_string()))
    );
}

#[test]
fn the_credential_store_is_asked_twice() {
    assert_eq!(
        docker_credentials_by_name("ghcr.io", looked_up("u", "p")),
        DockerAction::Use(basic("u", "p"))
    );
    assert_eq!(
        docker_credentials_by_name("ghcr.io", DockerLookup::Failed),
        DockerAction::LookUp("https://ghcr.io".to_string())
    );
    assert_eq!(
        docker_credentials_by_name("ghcr.io", DockerLookup::IdentityToken),
        DockerAction::Use(OciCredentials::Anonymous)
    );
    assert_eq!(docker_credentials_by_url(looked_up("u", "p")), basic("u", "p"));
    assert_eq!(docker_credentials_by_url(DockerLookup::Failed), OciCredentials::Anonymous);
    assert_eq!(
        docker_credentials_by_url(DockerLookup::IdentityToken),
        OciCredentials::Anonymous
    );
}
