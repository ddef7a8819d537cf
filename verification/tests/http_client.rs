use wasm_pkg_client::error::Error;
use wasm_pkg_client::http::{HttpRequest, Method, Status};
use wasm_pkg_client::http_client::{DefaultHttpClient, JsonReply, WasmHttpClient};

fn header(name: &str, value: &str) -> (String, String) {
    (name.to_string(), value.to_string())
}

#[test]
fn a_component_asks_for_json() {
    let plain = WasmHttpClient::new().request("https://r/doc", None);
    assert_eq!(plain.method, Method::Get);
    assert_eq!(plain.url, "https://r/doc");
    assert_eq!(plain.headers, vec![header("Accept", "application/json")]);
    let authed = WasmHttpClient::new().request("https://r/doc", Some("t0"));
    assert_eq!(
        authed.headers,
        vec![header("Accept", "application/json"), header("Authorization", "Bearer t0")]
    );
}

#[test]
fn the_native_client_sends_a_token_where_it_has_one() {
    let plain = DefaultHttpClient.request("https://r/doc", None);
    assert_eq!(plain, HttpRequest::new(Method::Get, "https://r/doc".to_string()));
    let authed = DefaultHttpClient.request("https://r/doc", Some("t1"));
    assert_eq!(authed.headers, vec![header("Authorization", "Bearer t1")]);
}

#[test]
fn the_native_client_rejects_errors() {
    let reply = |code: u16| DefaultHttpClient.reply(&Status { code, text: String::new() });
    assert_eq!(reply(200), JsonReply::Document);
    assert_eq!(reply(304), JsonReply::Document);
    assert_eq!(reply(399), JsonReply::Document);
    assert_eq!(reply(400), JsonReply::Rejected);
    assert_eq!(reply(404), JsonReply::Missing);
    assert_eq!(reply(599), JsonReply::Rejected);
    assert_eq!(reply(600), JsonReply::Document);
}

#[test]
fn a_document_is_there_missing_or_refused() {
    let status = |code: u16, text: &str| Status { code, text: text.to_string() };
    let body = || Ok(vec![1, 2, 3]);
    assert_eq!(WasmHttpClient::new().result(&status(200, "200 OK"), "u", body()), Ok(Some(vec![1, 2, 3])));
    assert_eq!(WasmHttpClient::new().result(&status(404, "404 Not Found"), "u", body()), Ok(None));
    assert_eq!(
        WasmHttpClient::new().result(&status(503, "503 Service Unavailable"), "https://r/doc", body()),
        Err(Error::RegistryMetadataError(
            "HTTP 503 Service Unavailable fetching https://r/doc".to_string(),
            vec![]
        ))
    );
    assert_eq!(
        WasmHttpClient::new().result(&status(200, "200 OK"), "u", 
            Err(("cut off".to_string(), vec!["reset".to_string()]))
        ),
        Err(Error::RegistryMetadataError("cut off".to_string(), vec!["reset".to_string()]))
    );
}
