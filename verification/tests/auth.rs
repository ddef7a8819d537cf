use wasm_pkg_client::error::Error;
use wasm_pkg_client::http::{HeaderText, HttpRequest, Method, Status};
use wasm_pkg_client::oci::auth::{AuthAction, AuthState};
use wasm_pkg_client::oci::config::OciProtocol;
use wasm_pkg_client::oci::token::TokenResponse;
use wasm_pkg_client::oci::transport::{OciCredentials, OciOperation, OciReference};
use wasm_pkg_client::oci::transport_wasm::WasmOciTransport;

const CHALLENGE: &str = r#"Bearer realm="https://auth/token",service="reg""#;

fn reference() -> OciReference {
    OciReference::new("reg".to_string(), "ns/pkg".to_string(), "1.0.0".to_string())
}

fn basic() -> OciCredentials {
    OciCredentials::Basic("user".to_string(), "pass".to_string())
}

fn status(code: u16) -> Status {
    Status { code, text: format!("{code} Text") }
}

fn readable(text: &str) -> HeaderText {
    HeaderText::Readable(text.to_string())
}

fn failure(text: &str) -> AuthAction {
    AuthAction::Finish(Err(Error::RegistryError(text.to_string())))
}

fn transport() -> WasmOciTransport {
    WasmOciTransport::new(OciProtocol::Https)
}

#[test]
fn a_registry_is_probed_with_the_credentials() {
    let mut wanted = HttpRequest::new(Method::Get, "https://reg/v2/".to_string());
    assert_eq!(
        transport().begin_auth(&reference(), &OciCredentials::Anonymous),
        AuthAction::Send(AuthState::Probing, wanted)
    );
    wanted = HttpRequest::new(Method::Get, "https://reg/v2/".to_string());
    wanted.add_header("Authorization", "Basic dXNlcjpwYXNz".to_string());
    assert_eq!(
        transport().begin_auth(&reference(), &basic()),
        AuthAction::Send(AuthState::Probing, wanted)
    );
}

#[test]
fn accepted_credentials_are_kept() {
    let action = transport().probed(
        &reference(),
        &basic(),
        OciOperation::Pull,
        &status(200),
        &HeaderText::Absent,
    );
    assert_eq!(action, AuthAction::Finish(Ok(basic())));
}

#[test]
fn an_unexpected_status_is_reported() {
    let action = transport().probed(
        &reference(),
        &basic(),
        OciOperation::Pull,
        &status(503),
        &readable(CHALLENGE),
    );
    assert_eq!(action, failure("unexpected HTTP 503 Text from /v2/ endpoint"));
}

#[test]
fn a_bearer_challenge_leads_to_a_token_request() {
    let probed = |header: &str| {
        transport().probed(
            &reference(),
            &basic(),
            OciOperation::Push,
            &status(401),
            &readable(header),
        )
    };
    let mut wanted = HttpRequest::new(
        Method::Get,
        "https://auth/token?service=reg&scope=repository:ns/pkg:push,pull".to_string(),
    );
    wanted.add_header("Authorization", "Basic dXNlcjpwYXNz".to_string());
    let action = AuthAction::Send(AuthState::Exchanging(basic()), wanted);
    assert_eq!(probed(CHALLENGE), action);
    assert_eq!(probed(&CHALLENGE.replace("Bearer", "BEARER")), action);
}

#[test]
fn a_faulty_challenge_ends_the_authentication() {
    for (header, text) in [
        (readable("Bearer x=y"), "WWW-Authenticate Bearer challenge missing realm"),
        (readable("BEARER x=y"), "WWW-Authenticate Bearer challenge missing realm"),
        (HeaderText::Unreadable("no text".to_string()), "no text"),
    ] {
        let probed =
            transport().probed(&reference(), &basic(), OciOperation::Pull, &status(401), &header);
        assert_eq!(probed, failure(text));
        let again =
            transport().probed_anonymously(&reference(), OciOperation::Pull, &status(401), &header);
        assert_eq!(again, failure(text));
    }
}

#[test]
fn refused_credentials_are_dropped() {
    for header in [HeaderText::Absent, readable("Basic realm=x")] {
        let action =
            transport().probed(&reference(), &basic(), OciOperation::Pull, &status(401), &header);
        assert_eq!(
            action,
            AuthAction::Send(
                AuthState::ProbingAnonymously,
                HttpRequest::new(Method::Get, "https://reg/v2/".to_string())
            )
        );
        let refused = transport().probed(
            &reference(),
            &OciCredentials::Anonymous,
            OciOperation::Pull,
            &status(401),
            &header,
        );
        assert_eq!(refused, failure("authentication failed for registry reg"));
    }
}

#[test]
fn the_second_probe_goes_without_credentials() {
    let t = transport();
    let probed = |code: u16, header: &HeaderText| {
        t.probed_anonymously(&reference(), OciOperation::Pull, &status(code), header)
    };
    assert_eq!(
        probed(204, &HeaderText::Absent),
        AuthAction::Finish(Ok(OciCredentials::Anonymous))
    );
    let refused = failure("authentication failed for registry reg");
    assert_eq!(probed(403, &readable(CHALLENGE)), refused);
    assert_eq!(probed(401, &HeaderText::Absent), refused);
    assert_eq!(probed(401, &readable("Basic realm=x")), refused);
    assert_eq!(
        probed(401, &readable(CHALLENGE)),
        AuthAction::Send(
            AuthState::Exchanging(OciCredentials::Anonymous),
            HttpRequest::new(
                Method::Get,
                "https://auth/token?service=reg&scope=repository:ns/pkg:pull".to_string()
            )
        )
    );
}

#[test]
fn a_token_is_kept_for_its_repository() {
    let mut t = transport();
    let body = TokenResponse { token: Some("tok".to_string()), access_token: None };
    assert_eq!(t.exchanged(&reference(), basic(), &status(200), Ok(body)), Ok(basic()));
    assert_eq!(t.bearer_tokens.get("ns/pkg"), Some("tok"));
    assert_eq!(t.bearer_tokens.len(), 1);
    // No further token is asked for.
    assert_eq!(t.begin_auth(&reference(), &basic()), AuthAction::Finish(Ok(basic())));
    let mut other = reference();
    other.repository = "ns/other".to_string();
    assert!(matches!(
        t.begin_auth(&other, &basic()),
        AuthAction::Send(AuthState::Probing, _)
    ));
}

#[test]
fn an_authentication_takes_three_responses_at_most() {
    let mut t = transport();
    let first = t.probed(
        &reference(),
        &basic(),
        OciOperation::Pull,
        &status(401),
        &HeaderText::Absent,
    );
    assert!(matches!(first, AuthAction::Send(AuthState::ProbingAnonymously, _)));
    let second = t.probed_anonymously(
        &reference(),
        OciOperation::Pull,
        &status(401),
        &readable(CHALLENGE),
    );
    let used = match second {
        AuthAction::Send(AuthState::Exchanging(used), req) => {
            assert!(req.headers.is_empty());
            used
        }
        other => panic!("{other:?}"),
    };
    let body = TokenResponse { token: None, access_token: Some("tok".to_string()) };
    let third = t.exchanged(&reference(), used, &status(200), Ok(body));
    assert_eq!(third, Ok(OciCredentials::Anonymous));
}

#[test]
fn without_a_token_nothing_is_kept() {
    let mut t = transport();
    let body = TokenResponse { token: Some("tok".to_string()), access_token: None };
    assert_eq!(
        t.exchanged(&reference(), basic(), &status(403), Ok(body)),
        Err(Error::RegistryError("token endpoint returned HTTP 403 Text".to_string()))
    );
    assert!(t.bearer_tokens.is_empty());
}
