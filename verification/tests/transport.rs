use wasm_pkg_client::error::Error;
use wasm_pkg_client::http::{HeaderText, HttpRequest, Method, Status};
use wasm_pkg_client::oci::config::OciProtocol;
use wasm_pkg_client::oci::transport::{
    CatalogPage, OciCredentials, OciLayerDescriptor, OciManifest, OciReference, TagList,
};
use wasm_pkg_client::oci::transport_wasm::{
    blob_result, catalog_result, manifest_result, oci_error_from_status, tags_result,
    WasmOciTransport,
};

fn reference() -> OciReference {
    OciReference::new("reg:5000".to_string(), "ns/pkg".to_string(), "1.2.3".to_string())
}

fn https() -> WasmOciTransport {
    WasmOciTransport::new(OciProtocol::Https)
}

fn ok() -> Status {
    Status { code: 200, text: "200 OK".to_string() }
}

fn failed() -> Status {
    Status { code: 500, text: "500 Internal Server Error".to_string() }
}

fn missing() -> Status {
    Status { code: 404, text: "404 Not Found".to_string() }
}

fn get(url: &str) -> HttpRequest {
    HttpRequest::new(Method::Get, url.to_string())
}

#[test]
fn a_reference_keeps_its_parts() {
    let r = reference();
    assert_eq!(r.registry, "reg:5000");
    assert_eq!(r.repository, "ns/pkg");
    assert_eq!(r.tag, "1.2.3");
    assert_eq!(r.clone(), r);
}

#[test]
fn a_default_layer_is_empty() {
    let layer = OciLayerDescriptor::default();
    assert_eq!(layer.media_type, "");
    assert_eq!(layer.digest, "");
    assert_eq!(layer.size, 0);
}

#[test]
fn the_protocol_is_the_scheme() {
    assert_eq!(https().base_url("ghcr.io"), "https://ghcr.io");
    let http = WasmOciTransport::new(OciProtocol::Http);
    assert_eq!(http.base_url("localhost:5000"), "http://localhost:5000");
}

#[test]
fn requests_are_authorized_by_a_token_or_else_by_credentials() {
    let basic = OciCredentials::Basic("user".to_string(), "pass".to_string());
    let mut transport = https();
    let request = |t: &WasmOciTransport, c: &OciCredentials| {
        t.authorized_request(Method::Get, "u".to_string(), c, "ns/pkg").headers
    };
    assert!(request(&transport, &OciCredentials::Anonymous).is_empty());
    assert_eq!(
        request(&transport, &basic),
        vec![("Authorization".to_string(), "Basic dXNlcjpwYXNz".to_string())]
    );
    transport.bearer_tokens.insert("ns/other".to_string(), "other".to_string());
    assert_eq!(
        request(&transport, &basic),
        vec![("Authorization".to_string(), "Basic dXNlcjpwYXNz".to_string())]
    );
    transport.bearer_tokens.insert("ns/pkg".to_string(), "tok".to_string());
    let bearer = vec![("Authorization".to_string(), "Bearer tok".to_string())];
    assert_eq!(request(&transport, &basic), bearer);
    assert_eq!(request(&transport, &OciCredentials::Anonymous), bearer);
}

#[test]
fn tags_are_asked_for_page_by_page() {
    let t = https();
    let anonymous = OciCredentials::Anonymous;
    let url = |n: Option<usize>, last: Option<&str>| {
        t.tags_request(&reference(), &anonymous, n, last).url
    };
    assert_eq!(url(None, None), "https://reg:5000/v2/ns/pkg/tags/list");
    assert_eq!(url(Some(10), None), "https://reg:5000/v2/ns/pkg/tags/list?n=10");
    assert_eq!(url(None, Some("1.0")), "https://reg:5000/v2/ns/pkg/tags/list?last=1.0");
    assert_eq!(url(Some(10), Some("a/b")), "https://reg:5000/v2/ns/pkg/tags/list?n=10&last=a/b");
}

#[test]
fn a_manifest_is_asked_for_in_the_oci_format() {
    let mut wanted = get("https://reg:5000/v2/ns/pkg/manifests/1.2.3");
    wanted.add_header("Accept", "application/vnd.oci.image.manifest.v1+json".to_string());
    assert_eq!(https().manifest_request(&reference(), &OciCredentials::Anonymous), wanted);
}

#[test]
fn a_blob_is_asked_for_by_its_digest() {
    assert_eq!(
        https().blob_request(&reference(), &OciCredentials::Anonymous, "sha256:ab"),
        get("https://reg:5000/v2/ns/pkg/blobs/sha256:ab")
    );
}

#[test]
fn the_catalog_cursor_has_no_slash() {
    let t = https();
    let anonymous = OciCredentials::Anonymous;
    let url = |n: Option<usize>, last: Option<&str>| {
        t.catalog_request("reg", &anonymous, n, last).url
    };
    assert_eq!(url(None, None), "https://reg/v2/_catalog");
    assert_eq!(url(Some(100), Some("a/b/c")), "https://reg/v2/_catalog?n=100&last=a%2Fb%2Fc");
    assert_eq!(url(None, Some("/")), "https://reg/v2/_catalog?last=%2F");
}

#[test]
fn statuses_become_errors() {
    assert_eq!(oci_error_from_status(&missing(), "x"), Error::PackageNotFound);
    assert_eq!(
        oci_error_from_status(&failed(), "pulling blob"),
        Error::RegistryError("HTTP 500 Internal Server Error while pulling blob".to_string())
    );
}

#[test]
fn tags_are_read() {
    let tags = vec!["1.0.0".to_string(), "latest".to_string()];
    assert_eq!(tags_result(&ok(), Ok(Some(tags.clone()))), Ok(TagList { tags: tags.clone() }));
    assert_eq!(tags_result(&ok(), Ok(None)), Ok(TagList { tags: vec![] }));
    assert_eq!(tags_result(&missing(), Ok(Some(tags))), Err(Error::PackageNotFound));
    assert_eq!(
        tags_result(&failed(), Ok(None)),
        Err(Error::RegistryError(
            "HTTP 500 Internal Server Error while listing tags".to_string()
        ))
    );
    assert_eq!(
        tags_result(&ok(), Err("bad json".to_string())),
        Err(Error::RegistryError("bad json".to_string()))
    );
}

#[test]
fn a_manifest_is_read_with_its_digest() {
    let layers = || {
        vec![OciLayerDescriptor {
            media_type: "application/wasm".to_string(),
            digest: "sha256:ab".to_string(),
            size: 7,
        }]
    };
    let digest = HeaderText::Readable("sha256:cd".to_string());
    assert_eq!(
        manifest_result(&ok(), &digest, Ok(layers())),
        Ok((OciManifest { layers: layers() }, "sha256:cd".to_string()))
    );
    for header in [HeaderText::Absent, HeaderText::Unreadable("?".to_string())] {
        let (_, digest) = manifest_result(&ok(), &header, Ok(layers())).unwrap();
        assert_eq!(digest, "");
    }
    assert_eq!(manifest_result(&missing(), &digest, Ok(layers())), Err(Error::PackageNotFound));
    assert_eq!(
        manifest_result(&failed(), &digest, Ok(layers())),
        Err(Error::RegistryError(
            "HTTP 500 Internal Server Error while pulling manifest".to_string()
        ))
    );
    assert_eq!(
        manifest_result(&ok(), &digest, Err("bad json".to_string())),
        Err(Error::RegistryError("bad json".to_string()))
    );
}

#[test]
fn a_blob_is_read() {
    assert_eq!(blob_result(&ok(), Ok(vec![1, 2])), Ok(vec![1, 2]));
    assert_eq!(blob_result(&missing(), Ok(vec![])), Err(Error::PackageNotFound));
    assert_eq!(
        blob_result(&ok(), Err("cut off".to_string())),
        Err(Error::RegistryError("cut off".to_string()))
    );
}

#[test]
fn a_catalog_page_is_read_with_its_cursor() {
    let repositories = vec!["ns/a".to_string()];
    let link = HeaderText::Readable(r#"</v2/_catalog?last=ns/a&n=1>; rel="next""#.to_string());
    assert_eq!(
        catalog_result(&ok(), "reg", &link, Ok(repositories.clone())),
        Ok(CatalogPage {
            repositories: repositories.clone(),
            next_last: Some("ns/a".to_string()),
        })
    );
    for link in [HeaderText::Absent, HeaderText::Unreadable("?".to_string())] {
        let page = catalog_result(&ok(), "reg", &link, Ok(repositories.clone())).unwrap();
        assert_eq!(page.next_last, None);
    }
    assert_eq!(
        catalog_result(&missing(), "reg", &link, Ok(repositories)),
        Err(Error::RegistryError("HTTP 404 Not Found from /v2/_catalog on reg".to_string()))
    );
    assert_eq!(
        catalog_result(&ok(), "reg", &link, Err("bad json".to_string())),
        Err(Error::RegistryError("bad json".to_string()))
    );
}
