use wasm_pkg_client::digest::{sha256_digest, ContentDigest};
use wasm_pkg_client::error::Error;
use wasm_pkg_client::http::{HeaderText, HttpRequest, Method, Status};
use wasm_pkg_client::oci::config::OciProtocol;
use wasm_pkg_client::oci::manifest::build_manifest_json;
use wasm_pkg_client::oci::transport::{OciCredentials, OciReference, PushConfig, PushLayer};
use wasm_pkg_client::oci::transport_wasm::WasmOciTransport;
use wasm_pkg_client::oci::upload::{
    BlobUpload, Part, Push, PushAction, PushStage, UploadAction, UploadState,
};
use wasm_pkg_client::text_map::TextMap;

const ABC: &str = "sha256:ba7816bf8f01cfea414140de5dae2223b00361a396177a9cb410ff61f20015ad";

fn status(code: u16) -> Status {
    Status { code, text: format!("{code} Text") }
}

fn readable(text: &str) -> HeaderText {
    HeaderText::Readable(text.to_string())
}

fn transport() -> WasmOciTransport {
    WasmOciTransport::new(OciProtocol::Https)
}

fn blob() -> BlobUpload {
    BlobUpload::new(
        "https://reg".to_string(),
        "ns/pkg".to_string(),
        OciCredentials::Anonymous,
        b"abc".to_vec(),
    )
}

fn request(method: Method, url: &str, headers: &[(&str, &str)], body: &[u8]) -> HttpRequest {
    let mut req = HttpRequest::new(method, url.to_string());
    for (name, value) in headers {
        req.add_header(name, value.to_string());
    }
    req.body = body.to_vec();
    req
}

#[test]
fn a_blob_has_the_digest_of_its_data() {
    assert_eq!(blob().digest, ABC);
}

#[test]
fn a_blob_that_is_there_is_not_uploaded() {
    let t = transport();
    assert_eq!(
        t.upload_blob(&blob()),
        request(Method::Head, &format!("https://reg/v2/ns/pkg/blobs/{ABC}"), &[], b"")
    );
    let action = t.uploaded(&blob(), UploadState::Checking, &status(200), &HeaderText::Absent);
    assert_eq!(action, UploadAction::Finish(Ok(())));
}

#[test]
fn an_upload_asks_for_a_location() {
    let action =
        transport().uploaded(&blob(), UploadState::Checking, &status(404), &HeaderText::Absent);
    assert_eq!(
        action,
        UploadAction::Send(
            UploadState::Starting,
            request(
                Method::Post,
                "https://reg/v2/ns/pkg/blobs/uploads/",
                &[("Content-Length", "0")],
                b""
            )
        )
    );
}

#[test]
fn a_blob_is_sent_to_the_location_with_its_digest() {
    for (location, url) in [
        ("/v2/up/1", format!("https://reg/v2/up/1?digest={ABC}")),
        ("/v2/up/1?state=x", format!("https://reg/v2/up/1?state=x&digest={ABC}")),
        ("http://other/up", format!("http://other/up?digest={ABC}")),
        ("https://other/up?a", format!("https://other/up?a&digest={ABC}")),
        ("ftp://x", format!("https://regftp://x?digest={ABC}")),
    ] {
        let action = transport().uploaded(
            &blob(),
            UploadState::Starting,
            &status(202),
            &readable(location),
        );
        assert_eq!(
            action,
            UploadAction::Send(
                UploadState::Sending,
                request(
                    Method::Put,
                    &url,
                    &[("Content-Type", "application/octet-stream"), ("Content-Length", "3")],
                    b"abc"
                )
            )
        );
    }
}

#[test]
fn an_upload_can_fail() {
    let t = transport();
    let uploaded = |state, code, location: HeaderText| {
        match t.uploaded(&blob(), state, &status(code), &location) {
            UploadAction::Finish(result) => result,
            other => panic!("{other:?}"),
        }
    };
    let error = |text: &str| Err(Error::RegistryError(text.to_string()));
    assert_eq!(
        uploaded(UploadState::Starting, 200, readable("/up")),
        error("HTTP 200 Text while initiating blob upload")
    );
    assert_eq!(
        uploaded(UploadState::Starting, 404, HeaderText::Absent),
        Err(Error::PackageNotFound)
    );
    assert_eq!(
        uploaded(UploadState::Starting, 202, HeaderText::Absent),
        error("blob upload response missing Location header")
    );
    assert_eq!(
        uploaded(UploadState::Starting, 202, HeaderText::Unreadable("no text".to_string())),
        error("no text")
    );
    assert_eq!(
        uploaded(UploadState::Sending, 500, HeaderText::Absent),
        error("HTTP 500 Text while completing blob upload")
    );
    assert_eq!(uploaded(UploadState::Sending, 201, HeaderText::Absent), Ok(()));
}

#[test]
fn a_manifest_is_written() {
    let bytes = build_manifest_json("ct", "cd", 2, "lt", "ld", 3, None, None);
    assert_eq!(
        String::from_utf8(bytes).unwrap(),
        concat_lines(&[
            r#"{"config":{"digest":"cd","mediaType":"ct","size":2},"#,
            r#""layers":[{"digest":"ld","mediaType":"lt","size":3}],"#,
            r#""mediaType":"application/vnd.oci.image.manifest.v1+json","schemaVersion":2}"#,
        ])
    );
}

fn concat_lines(lines: &[&str]) -> String {
    lines.concat()
}

#[test]
fn annotations_appear_where_there_are_any() {
    let mut layer = TextMap::new();
    layer.insert("k".to_string(), "v\"".to_string());
    let mut manifest = TextMap::new();
    manifest.insert("b".to_string(), "2".to_string());
    manifest.insert("a".to_string(), "1".to_string());
    let bytes =
        build_manifest_json("ct", "cd", -1, "lt", "ld", 0, Some(&layer), Some(&manifest));
    assert_eq!(
        String::from_utf8(bytes).unwrap(),
        concat_lines(&[
            r#"{"annotations":{"a":"1","b":"2"},"#,
            r#""config":{"digest":"cd","mediaType":"ct","size":-1},"#,
            r#""layers":[{"annotations":{"k":"v\""},"digest":"ld","mediaType":"lt","size":0}],"#,
            r#""mediaType":"application/vnd.oci.image.manifest.v1+json","schemaVersion":2}"#,
        ])
    );
    let empty = TextMap::new();
    assert_eq!(
        build_manifest_json("ct", "cd", 2, "lt", "ld", 3, Some(&empty), Some(&empty)),
        build_manifest_json("ct", "cd", 2, "lt", "ld", 3, None, None)
    );
}

fn reference() -> OciReference {
    OciReference::new("reg".to_string(), "ns/pkg".to_string(), "1.0.0".to_string())
}

fn push(t: &WasmOciTransport) -> Push {
    let mut annotations = TextMap::new();
    annotations.insert("org.opencontainers.image.version".to_string(), "1.0.0".to_string());
    t.push(
        &reference(),
        &OciCredentials::Basic("user".to_string(), "pass".to_string()),
        PushLayer {
            data: b"abc".to_vec(),
            media_type: "application/wasm".to_string(),
            annotations: None,
        },
        PushConfig { data: b"{}".to_vec(), media_type: "config/type".to_string() },
        Some(annotations),
    )
}

#[test]
fn an_image_is_pushed_step_by_step() {
    let mut t = transport();
    t.bearer_tokens.insert("ns/pkg".to_string(), "tok".to_string());
    let push = push(&t);
    let config_digest = sha256_digest(b"{}");

    let (mut stage, first) = t.begin_push(&push);
    assert_eq!(first.method, Method::Head);
    assert_eq!(first.url, format!("https://reg/v2/ns/pkg/blobs/{config_digest}"));

    // The config is uploaded, and the layer is there already.
    let mut urls = Vec::new();
    let mut last = first;
    for (code, location) in [
        (404, HeaderText::Absent),
        (202, readable("/up/1")),
        (201, HeaderText::Absent),
        (200, HeaderText::Absent),
    ] {
        match t.pushed(&push, stage, &status(code), &location) {
            PushAction::Send(next, req) => {
                stage = next;
                urls.push(req.url.clone());
                last = req;
            }
            other => panic!("{other:?}"),
        }
    }
    assert_eq!(
        urls,
        vec![
            "https://reg/v2/ns/pkg/blobs/uploads/".to_string(),
            format!("https://reg/up/1?digest={config_digest}"),
            format!("https://reg/v2/ns/pkg/blobs/{ABC}"),
            "https://reg/v2/ns/pkg/manifests/1.0.0".to_string(),
        ]
    );
    assert_eq!(stage, PushStage::Manifest);
    assert_eq!(last.method, Method::Put);
    assert_eq!(
        last.headers,
        vec![
            ("Authorization".to_string(), "Bearer tok".to_string()),
            (
                "Content-Type".to_string(),
                "application/vnd.oci.image.manifest.v1+json".to_string()
            ),
        ]
    );
    assert_eq!(
        String::from_utf8(last.body).unwrap(),
        format!(
            "{{\"annotations\":{{\"org.opencontainers.image.version\":\"1.0.0\"}},\
             \"config\":{{\"digest\":\"{config_digest}\",\"mediaType\":\"config/type\",\"size\":2}},\
             \"layers\":[{{\"digest\":\"{ABC}\",\"mediaType\":\"application/wasm\",\"size\":3}}],\
             \"mediaType\":\"application/vnd.oci.image.manifest.v1+json\",\"schemaVersion\":2}}"
        )
    );
    assert_eq!(
        t.pushed(&push, stage, &status(201), &HeaderText::Absent),
        PushAction::Finish(Ok(()))
    );
}

#[test]
fn a_push_takes_seven_responses_at_most() {
    let t = transport();
    let push = push(&t);
    let (mut stage, _) = t.begin_push(&push);
    let mut taken = 0;
    for (code, location) in [
        (404, HeaderText::Absent),
        (202, readable("/up/1")),
        (201, HeaderText::Absent),
        (404, HeaderText::Absent),
        (202, readable("/up/2")),
        (201, HeaderText::Absent),
        (201, HeaderText::Absent),
    ] {
        taken += 1;
        match t.pushed(&push, stage, &status(code), &location) {
            PushAction::Send(next, _) => stage = next,
            PushAction::Finish(result) => {
                assert_eq!(result, Ok(()));
                assert_eq!(taken, 7);
                return;
            }
        }
    }
    panic!("the push goes on");
}

#[test]
fn the_layer_follows_the_config() {
    let t = transport();
    let push = push(&t);
    for state in [UploadState::Checking, UploadState::Sending] {
        let stage = PushStage::Upload(Part::Config, state);
        match t.pushed(&push, stage, &status(201), &HeaderText::Absent) {
            PushAction::Send(next, req) => {
                assert_eq!(next, PushStage::Upload(Part::Layer, UploadState::Checking));
                assert_eq!(req.headers[0].1, "Basic dXNlcjpwYXNz");
            }
            other => panic!("{other:?}"),
        }
    }
}

#[test]
fn a_failed_upload_ends_the_push() {
    let t = transport();
    let push = push(&t);
    for part in [Part::Config, Part::Layer] {
        let stage = PushStage::Upload(part, UploadState::Sending);
        assert_eq!(
            t.pushed(&push, stage, &status(500), &HeaderText::Absent),
            PushAction::Finish(Err(Error::RegistryError(
                "HTTP 500 Text while completing blob upload".to_string()
            )))
        );
    }
    assert_eq!(
        t.pushed(&push, PushStage::Manifest, &status(403), &HeaderText::Absent),
        PushAction::Finish(Err(Error::RegistryError(
            "HTTP 403 Text while pushing manifest".to_string()
        )))
    );
    assert_eq!(
        t.pushed(&push, PushStage::Manifest, &status(404), &HeaderText::Absent),
        PushAction::Finish(Err(Error::PackageNotFound))
    );
}

#[test]
fn what_was_pushed_is_asked_for_where_it_was_put() {
    let t = transport();
    let push = push(&t);
    let anonymous = OciCredentials::Anonymous;
    let manifest = match t.pushed(
        &push,
        PushStage::Upload(Part::Layer, UploadState::Checking),
        &status(200),
        &HeaderText::Absent,
    ) {
        PushAction::Send(PushStage::Manifest, req) => req,
        other => panic!("{other:?}"),
    };
    assert_eq!(t.manifest_request(&reference(), &anonymous).url, manifest.url);
    let json: serde_json::Value = serde_json::from_slice(&manifest.body).unwrap();
    let digest = json["layers"][0]["digest"].as_str().unwrap();
    let digest = ContentDigest::parse(digest).unwrap().to_text();
    assert_eq!(
        t.blob_request(&reference(), &anonymous, &digest).url,
        t.upload_blob(&push.layer).url
    );
}
