use wasm_pkg_client::digest::sha256_digest;
use wasm_pkg_client::error::Error;
use wasm_pkg_client::oci::transport::{OciCredentials, PushConfig, PushLayer};
use wasm_pkg_client::oci::transport_default::{
    auth_attempted, auth_retried, from_registry_auth, oci_registry_error, push_manifest,
    to_registry_auth, ClientFailure, DefaultAuthAction, RegistryAuth,
};
use wasm_pkg_client::text_map::TextMap;

fn basic() -> OciCredentials {
    OciCredentials::Basic("u".to_string(), "p".to_string())
}

fn refused() -> ClientFailure {
    ClientFailure::Authentication("refused".to_string())
}

#[test]
fn credentials_survive_the_way_to_the_client_and_back() {
    for c in [OciCredentials::Anonymous, basic()] {
        assert_eq!(from_registry_auth(&to_registry_auth(&c)), c);
    }
    assert_eq!(
        to_registry_auth(&basic()),
        RegistryAuth::Basic("u".to_string(), "p".to_string())
    );
    assert_eq!(
        from_registry_auth(&RegistryAuth::Bearer("t".to_string())),
        OciCredentials::Anonymous
    );
}

#[test]
fn failures_become_errors() {
    let text = "why".to_string();
    assert_eq!(
        oci_registry_error(ClientFailure::ManifestNotFound(text.clone())),
        Error::PackageNotFound
    );
    assert_eq!(oci_registry_error(refused()), Error::RegistryError("refused".to_string()));
    assert_eq!(
        oci_registry_error(ClientFailure::Other(text.clone())),
        Error::RegistryError(text)
    );
}

#[test]
fn refused_credentials_are_tried_without() {
    assert_eq!(auth_attempted(&basic(), Ok(())), DefaultAuthAction::Finish(Ok(basic())));
    assert_eq!(
        auth_attempted(&basic(), Err(refused())),
        DefaultAuthAction::RetryAnonymously(refused())
    );
    assert_eq!(
        auth_attempted(&OciCredentials::Anonymous, Err(refused())),
        DefaultAuthAction::Finish(Err(Error::RegistryError("refused".to_string())))
    );
    assert_eq!(
        auth_attempted(&basic(), Err(ClientFailure::Other("down".to_string()))),
        DefaultAuthAction::Finish(Err(Error::RegistryError("down".to_string())))
    );
    assert_eq!(
        auth_attempted(&basic(), Err(ClientFailure::ManifestNotFound("gone".to_string()))),
        DefaultAuthAction::Finish(Err(Error::PackageNotFound))
    );
    assert_eq!(auth_retried(refused(), true), Ok(OciCredentials::Anonymous));
    assert_eq!(
        auth_retried(refused(), false),
        Err(Error::RegistryError("refused".to_string()))
    );
}

#[test]
fn the_manifest_describes_the_blobs() {
    let map = |key: &str, value: &str| {
        let mut map = TextMap::new();
        map.insert(key.to_string(), value.to_string());
        map
    };
    let layer = PushLayer {
        data: b"layer".to_vec(),
        media_type: "application/wasm".to_string(),
        annotations: Some(map("l", "1")),
    };
    let config = PushConfig { data: b"{}".to_vec(), media_type: "config/type".to_string() };
    let manifest = push_manifest(&layer, &config, Some(&map("m", "2")));
    assert_eq!(manifest.config.media_type, "config/type");
    assert_eq!(manifest.config.digest, sha256_digest(b"{}"));
    assert_eq!(manifest.config.size, 2);
    assert_eq!(manifest.layers.len(), 1);
    assert_eq!(manifest.layers[0].media_type, "application/wasm");
    assert_eq!(manifest.layers[0].digest, sha256_digest(b"layer"));
    assert_eq!(manifest.layers[0].size, 5);
    assert_eq!(manifest.layers[0].annotations.as_ref().unwrap()["l"], "1");
    assert_eq!(manifest.annotations.as_ref().unwrap()["m"], "2");
    let bare = PushLayer { annotations: None, ..layer };
    let manifest = push_manifest(&bare, &config, None);
    assert_eq!(manifest.layers[0].annotations, None);
    assert_eq!(manifest.annotations, None);
}
