use wasm_pkg_client::error::Error;
use wasm_pkg_client::http::{Method, Status};
use wasm_pkg_client::oci::token::{
    basic_authorization, encoded_authorization, token_from_response, token_request,
    token_request_for, TokenResponse,
};
use wasm_pkg_client::oci::transport::{OciCredentials, OciOperation, OciReference};

fn reference() -> OciReference {
    OciReference::new("ghcr.io".to_string(), "wasco-dev/pkg".to_string(), "1.0.0".to_string())
}

fn basic() -> OciCredentials {
    OciCredentials::Basic("user".to_string(), "pass".to_string())
}

fn param(name: &str, value: &str) -> (String, String) {
    (name.to_string(), value.to_string())
}

#[test]
fn credentials_are_encoded() {
    assert_eq!(basic_authorization("Aladdin", "open sesame"), "Basic QWxhZGRpbjpvcGVuIHNlc2FtZQ==");
    assert_eq!(basic_authorization("", ""), "Basic Og==");
    assert_eq!(encoded_authorization("xyz"), "Basic xyz");
}

#[test]
fn a_token_is_asked_for_with_the_right_scope() {
    let req = token_request(
        r#"Bearer realm="https://ghcr.io/token",service="ghcr.io",scope="repository:user/image:pull""#,
        &basic(),
        &reference(),
        OciOperation::Pull,
    )
    .unwrap();
    assert_eq!(req.method, Method::Get);
    assert_eq!(
        req.url,
        "https://ghcr.io/token?service=ghcr.io&scope=repository:wasco-dev/pkg:pull"
    );
    assert_eq!(req.headers, vec![param("Authorization", "Basic dXNlcjpwYXNz")]);
    assert!(req.body.is_empty());
}

#[test]
fn a_missing_scope_is_added() {
    let req = token_request_for(
        "https://auth/token?account=x",
        vec![param("service", "r")],
        &OciCredentials::Anonymous,
        &reference(),
        OciOperation::Push,
    );
    assert_eq!(
        req.url,
        "https://auth/token?account=x&service=r&scope=repository:wasco-dev/pkg:push,pull"
    );
    assert!(req.headers.is_empty());
}

#[test]
fn only_the_first_scope_is_replaced() {
    let req = token_request_for(
        "https://auth/token",
        vec![param("scope", "a"), param("scope", "b"), param("x", "y")],
        &OciCredentials::Anonymous,
        &reference(),
        OciOperation::Pull,
    );
    assert_eq!(
        req.url,
        "https://auth/token?scope=repository:wasco-dev/pkg:pull&scope=b&x=y"
    );
}

#[test]
fn a_faulty_challenge_is_reported() {
    assert_eq!(
        token_request("Bearer service=x", &basic(), &reference(), OciOperation::Pull),
        Err(Error::RegistryError("WWW-Authenticate Bearer challenge missing realm".to_string()))
    );
}

#[test]
fn a_token_is_taken_from_either_field() {
    let ok = Status { code: 200, text: "200 OK".to_string() };
    let body = |token: Option<&str>, access_token: Option<&str>| {
        Ok(TokenResponse {
            token: token.map(String::from),
            access_token: access_token.map(String::from),
        })
    };
    assert_eq!(token_from_response(&ok, body(Some("t"), Some("a"))), Ok("t".to_string()));
    assert_eq!(token_from_response(&ok, body(None, Some("a"))), Ok("a".to_string()));
    assert_eq!(
        token_from_response(&ok, body(None, None)),
        Err(Error::RegistryError(
            "token response contained neither 'token' nor 'access_token'".to_string()
        ))
    );
    assert_eq!(
        token_from_response(&ok, Err("bad json".to_string())),
        Err(Error::RegistryError("bad json".to_string()))
    );
    let denied = Status { code: 403, text: "403 Forbidden".to_string() };
    assert_eq!(
        token_from_response(&denied, body(Some("t"), None)),
        Err(Error::RegistryError("token endpoint returned HTTP 403 Forbidden".to_string()))
    );
}
