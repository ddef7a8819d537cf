use wasm_pkg_client::digest::sha256_digest;
use wasm_pkg_client::error::Error;
use wasm_pkg_client::oci::backend::OciBackend;
use wasm_pkg_client::oci::publisher::{annotations, build_push_artifacts, PackageMetadata};
use wasm_pkg_client::oci::publisher_wasm;
use wasm_pkg_client::oci::transport::{OciCredentials, OciReference};
use wasm_pkg_client::oci::wit::{component_info, read_wit, Wit, WitPackage, WitWorld};
use wasm_pkg_client::package::{PackageRef, Version};

/// A component without anything.
const EMPTY: [u8; 8] = [0x00, 0x61, 0x73, 0x6d, 0x0d, 0x00, 0x01, 0x00];

fn section(id: u8, content: &[u8]) -> Vec<u8> {
    let mut bytes = vec![id, content.len() as u8];
    bytes.extend_from_slice(content);
    bytes
}

fn custom(name: &str, data: &str) -> Vec<u8> {
    let mut content = vec![name.len() as u8];
    content.extend_from_slice(name.as_bytes());
    content.extend_from_slice(data.as_bytes());
    section(0, &content)
}

/// A component that imports and exports a function.
fn component() -> Vec<u8> {
    let mut bytes = EMPTY.to_vec();
    // (type (func))
    bytes.extend(section(7, &[1, 0x40, 0x00, 0x01, 0x00]));
    // (import "log" (func (type 0)))
    bytes.extend(section(10, &[1, 0x00, 3, b'l', b'o', b'g', 0x01, 0x00]));
    // (export "run" (func 0))
    bytes.extend(section(11, &[1, 0x00, 3, b'r', b'u', b'n', 0x01, 0x00, 0x00]));
    bytes
}

/// A package `a:b` with an interface `i` and a world `w` that exports a function.
fn package() -> Vec<u8> {
    let mut bytes = EMPTY.to_vec();
    let mut interface = vec![1, 0x41, 2, 0x01, 0x42, 0];
    interface.extend_from_slice(&[0x04, 0x00, 5, b'a', b':', b'b', b'/', b'i', 0x05, 0x00]);
    bytes.extend(section(7, &interface));
    bytes.extend(section(11, &[1, 0x00, 1, b'i', 0x03, 0x00, 0x00]));
    let mut world = vec![1, 0x41, 2, 0x01, 0x41, 2, 0x01, 0x40, 0x00, 0x01, 0x00];
    world.extend_from_slice(&[0x04, 0x00, 3, b'r', b'u', b'n', 0x01, 0x00]);
    world.extend_from_slice(&[0x04, 0x00, 5, b'a', b':', b'b', b'/', b'w', 0x04, 0x00]);
    bytes.extend(section(7, &world));
    bytes.extend(section(11, &[1, 0x00, 1, b'w', 0x03, 0x02, 0x00]));
    bytes
}

fn texts(list: &[&str]) -> Vec<String> {
    list.iter().map(|t| t.to_string()).collect()
}

/// Why the bytes are not decoded, and what caused that.
fn chain(bytes: &[u8]) -> Vec<String> {
    match wit_component::decode(bytes) {
        Ok(_) => panic!("the bytes were decoded"),
        Err(e) => e.chain().map(|cause| cause.to_string()).collect(),
    }
}

fn backend() -> OciBackend {
    OciBackend {
        oci_registry: "reg".to_string(),
        namespace_prefix: None,
        credentials: OciCredentials::Anonymous,
    }
}

#[test]
fn the_interface_of_a_component_is_read() {
    assert_eq!(
        read_wit(&component()),
        Ok(Wit::Component(Some(WitWorld {
            exports: texts(&["run"]),
            imports: texts(&["log"]),
        })))
    );
    assert_eq!(
        read_wit(&EMPTY),
        Ok(Wit::Component(Some(WitWorld { exports: vec![], imports: vec![] })))
    );
}

#[test]
fn a_package_of_interfaces_is_read() {
    assert_eq!(
        read_wit(&package()),
        Ok(Wit::Package(Some(WitPackage {
            namespace: "a".to_string(),
            name: "b".to_string(),
            version: None,
            worlds: vec![Some(("w".to_string(), texts(&["run"])))],
            interfaces: vec![Some("a:b/i".to_string())],
        })))
    );
}

#[test]
fn what_is_no_component_is_not_read() {
    let reason = match wit_component::decode(b"junk") {
        Ok(_) => panic!("junk was decoded"),
        Err(e) => e.to_string(),
    };
    let error = Error::InvalidComponent(format!("failed to decode WIT: {reason}"), vec![]);
    assert_eq!(read_wit(b"junk"), Err(error));
    assert!(publisher_wasm::build_push_artifacts(b"junk".to_vec()).is_err());
}

#[test]
fn exports_of_a_package_are_listed_once() {
    let package = WitPackage {
        namespace: "a".to_string(),
        name: "b".to_string(),
        version: Some("1.0.0".to_string()),
        worlds: vec![
            Some(("w".to_string(), texts(&["run", "a:b/i@1.0.0"]))),
            None,
            Some(("x".to_string(), texts(&["run"]))),
        ],
        interfaces: vec![Some("a:b/i@1.0.0".to_string()), None, Some("a:b/j@1.0.0".to_string())],
    };
    assert_eq!(
        component_info(Wit::Package(Some(package))),
        Ok(WitWorld {
            exports: texts(&[
                "run",
                "a:b/i@1.0.0",
                "a:b/w@1.0.0",
                "a:b/x@1.0.0",
                "a:b/j@1.0.0"
            ]),
            imports: vec![],
        })
    );
}

#[test]
fn what_a_binary_describes_may_be_missing() {
    assert_eq!(
        component_info(Wit::Component(None)),
        Err(Error::InvalidComponent("component world not found".to_string(), vec![]))
    );
    assert_eq!(
        component_info(Wit::Package(None)),
        Err(Error::InvalidComponent("package not found".to_string(), vec![]))
    );
}

#[test]
fn a_config_is_written() {
    let data = component();
    let digest = sha256_digest(&data);
    let (config, layer) = match publisher_wasm::build_push_artifacts(data.clone()) {
        Ok(artifacts) => artifacts,
        Err(e) => panic!("{e:?}"),
    };
    assert_eq!(config.media_type, "application/vnd.wasm.config.v0+json");
    assert_eq!(
        String::from_utf8(config.data).unwrap(),
        format!(
            "{{\"created\":\"1970-01-01T00:00:00Z\",\"author\":null,\"architecture\":\"wasm\",\
             \"os\":\"wasip2\",\"layerDigests\":[\"{digest}\"],\"component\":{{\
             \"exports\":[\"run\"],\"imports\":[\"log\"],\"target\":null}}}}"
        )
    );
    assert_eq!(layer.media_type, "application/wasm");
    assert_eq!(layer.data, data);
    assert!(layer.annotations.is_none());
}

#[test]
fn the_time_is_the_epoch() {
    assert_eq!(publisher_wasm::chrono_now_rfc3339(), "1970-01-01T00:00:00Z");
}

#[test]
fn native_blobs_differ_in_the_time_alone() {
    for data in [component(), EMPTY.to_vec()] {
        let (config, layer) = build_push_artifacts(data.clone()).ok().unwrap();
        let (other, other_layer) =
            publisher_wasm::build_push_artifacts(data.clone()).ok().unwrap();
        assert_eq!(config.media_type, other.media_type);
        let config: serde_json::Value = serde_json::from_slice(&config.data).unwrap();
        let created = config["created"].as_str().unwrap().to_string();
        assert_ne!(created, "1970-01-01T00:00:00Z");
        let expected = String::from_utf8(other.data)
            .unwrap()
            .replace("1970-01-01T00:00:00Z", &created);
        assert_eq!(config.to_string(), expected);
        assert_eq!(layer.media_type, other_layer.media_type);
        assert_eq!(layer.data, other_layer.data);
        assert!(layer.annotations.is_none());
    }
}

#[test]
fn native_exports_of_a_package_are_the_same_set() {
    let (config, _) = build_push_artifacts(package()).ok().unwrap();
    let config: serde_json::Value = serde_json::from_slice(&config.data).unwrap();
    let mut exports: Vec<&str> = config["component"]["exports"]
        .as_array()
        .unwrap()
        .iter()
        .map(|e| e.as_str().unwrap())
        .collect();
    exports.sort();
    assert_eq!(exports, vec!["a:b/i", "a:b/w", "run"]);
    assert_eq!(config["layerDigests"][0].as_str(), Some(sha256_digest(&package()).as_str()));
}

#[test]
fn native_blobs_need_a_component() {
    let error = build_push_artifacts(b"junk".to_vec()).err();
    assert_eq!(
        error,
        Some(Error::InvalidComponent("failed to decode WIT component".to_string(), chain(b"junk")))
    );
}

#[test]
fn annotations_come_from_the_metadata() {
    let version = Version::parse("1.2.3").unwrap();
    let none = PackageMetadata {
        description: None,
        licenses: None,
        source: None,
        homepage: None,
        authors: None,
    };
    let map = annotations(&version, none);
    assert_eq!(
        map.to_pairs(),
        vec![("org.opencontainers.image.version".to_string(), "1.2.3".to_string())]
    );
    let all = PackageMetadata {
        description: Some("d".to_string()),
        licenses: Some("l".to_string()),
        source: Some("s".to_string()),
        homepage: Some("h".to_string()),
        authors: Some("a".to_string()),
    };
    let map = annotations(&version, all);
    assert_eq!(map.len(), 6);
    for (key, value) in [
        ("version", "1.2.3"),
        ("description", "d"),
        ("licenses", "l"),
        ("source", "s"),
        ("url", "h"),
        ("authors", "a"),
    ] {
        assert_eq!(map.get(&format!("org.opencontainers.image.{key}")), Some(value));
    }
}

#[test]
fn a_package_is_published_with_its_metadata() {
    let mut data = component();
    data.extend(custom("description", "A demo"));
    data.extend(custom("licenses", "MIT"));
    data.extend(custom("source", "https://example.com/src"));
    data.extend(custom("homepage", "https://example.com/"));
    data.extend(custom("authors", "Me"));
    let package = PackageRef::parse("ns:pkg").unwrap();
    let version = Version::parse("0.1.0").unwrap();
    let publication = match backend().publish(&package, &version, data.clone()) {
        Ok(p) => p,
        Err(e) => panic!("{e:?}"),
    };
    assert_eq!(
        publication.reference,
        OciReference::new("reg".to_string(), "ns/pkg".to_string(), "0.1.0".to_string())
    );
    assert_eq!(publication.layer.data, data);
    assert_eq!(publication.layer.media_type, "application/wasm");
    assert_eq!(publication.config.media_type, "application/vnd.wasm.config.v0+json");
    let get = |key: &str| {
        publication.annotations.get(&format!("org.opencontainers.image.{key}")).map(String::from)
    };
    assert_eq!(get("version"), Some("0.1.0".to_string()));
    assert_eq!(get("description"), Some("A demo".to_string()));
    assert_eq!(get("licenses"), Some("MIT".to_string()));
    assert_eq!(get("source"), Some("https://example.com/src".to_string()));
    assert_eq!(get("url"), Some("https://example.com/".to_string()));
    assert_eq!(get("authors"), Some("Me".to_string()));
}

#[test]
fn what_is_no_component_is_not_published() {
    let package = PackageRef::parse("ns:pkg").unwrap();
    let version = Version::parse("0.1.0").unwrap();
    let reason = match wasm_metadata::Payload::from_binary(b"junk") {
        Ok(_) => panic!("junk was parsed"),
        Err(e) => e.to_string(),
    };
    assert_eq!(
        backend().publish(&package, &version, b"junk".to_vec()).err(),
        Some(Error::InvalidComponent(format!("Unable to parse WASM: {reason}"), vec![]))
    );
    // A component whose import refers to no type has metadata, but no interface.
    let mut broken = EMPTY.to_vec();
    broken.extend(section(10, &[1, 0x00, 3, b'l', b'o', b'g', 0x01, 0x00]));
    let causes = chain(&broken);
    assert_eq!(
        backend().publish(&package, &version, broken).err(),
        Some(Error::InvalidComponent("failed to decode WIT component".to_string(), causes))
    );
    // A component in the place of a core module, with a component of its own.
    let nested = section(4, &EMPTY);
    let mut inner = EMPTY.to_vec();
    inner.extend(nested);
    let mut outer = EMPTY.to_vec();
    outer.extend(section(1, &inner));
    assert_eq!(outer.len(), 28);
    assert_eq!(
        backend().publish(&package, &version, outer).err(),
        Some(Error::InvalidComponent(
            "Unable to parse WASM: a module section holds a component".to_string(),
            vec![]
        ))
    );
    // A type of functions is imported.
    let mut types = EMPTY.to_vec();
    types.extend(section(7, &[1, 0x40, 0x00, 0x01, 0x00]));
    types.extend(section(10, &[1, 0x00, 1, b't', 0x03, 0x00, 0x00]));
    assert_eq!(
        backend().publish(&package, &version, types).err(),
        Some(Error::InvalidComponent(
            "failed to decode WIT component".to_string(),
            vec!["no WIT describes the binary".to_string()]
        ))
    );
}
