use wasm_pkg_client::error::Error;
use wasm_pkg_client::metadata::{fetch, fetch_or_default, Registry};

fn registry(authority: &str) -> Registry {
    Registry { authority: authority.to_string() }
}

#[test]
fn the_host_has_no_port() {
    for (authority, host) in [
        ("example.com", "example.com"),
        ("example.com:443", "example.com"),
        ("user:pass@example.com:443", "example.com"),
        ("a@b@c", "c"),
        ("[::1]:5000", "[::1]"),
        ("[::1]", "[::1]"),
    ] {
        assert!(registry(authority).has_host());
        assert_eq!(registry(authority).host(), host);
    }
    for authority in ["", "user@", "[::1"] {
        assert!(!registry(authority).has_host());
    }
}

#[test]
fn metadata_is_at_a_well_known_place() {
    assert_eq!(
        registry("example.com:8443").metadata_url(),
        "https://example.com:8443/.well-known/wasm-pkg/registry.json"
    );
    assert_eq!(
        registry("localhost:5000").metadata_url(),
        "http://localhost:5000/.well-known/wasm-pkg/registry.json"
    );
    assert_eq!(
        registry("localhost.example.com").metadata_url(),
        "https://localhost.example.com/.well-known/wasm-pkg/registry.json"
    );
}

#[test]
fn fetched_metadata_is_returned() {
    assert_eq!(fetch("u", Ok(Some(Ok(7)))), Ok(Some(7)));
    assert_eq!(fetch::<u8>("u", Ok(None)), Ok(None));
}

#[test]
fn failures_name_the_url() {
    assert_eq!(
        fetch::<u8>("https://r/x", Err(vec!["down".to_string(), "unplugged".to_string()])),
        Err(Error::RegistryMetadataError(
            "error fetching registry metadata from \"https://r/x\"".to_string(),
            vec!["down".to_string(), "unplugged".to_string()]
        ))
    );
    assert_eq!(
        fetch::<u8>("https://r/\"\n", Ok(Some(Err(vec!["bad json".to_string()])))),
        Err(Error::RegistryMetadataError(
            "error parsing registry metadata from \"https://r/\\\"\\n\"".to_string(),
            vec!["bad json".to_string()]
        ))
    );
}

#[test]
fn without_metadata_the_default_is_used() {
    assert_eq!(fetch_or_default(Ok(Some(1)), 0), 1);
    assert_eq!(fetch_or_default(Ok(None), 0), 0);
    assert_eq!(fetch_or_default(Err(Error::PackageNotFound), 0), 0);
}
