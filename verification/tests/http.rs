use wasm_pkg_client::error::Error;
use wasm_pkg_client::http::{
    Exchange, HeaderText, HttpRequest, Method, SendAction, Status, MAX_REDIRECTS,
};

fn status(code: u16) -> Status {
    Status { code, text: code.to_string() }
}

#[test]
fn a_request_collects_headers() {
    let mut req = HttpRequest::new(Method::Post, "http://r/".to_string());
    req.add_header("A", "1".to_string());
    req.add_header("B", "2".to_string());
    assert_eq!(req.method, Method::Post);
    assert_eq!(req.url, "http://r/");
    assert_eq!(
        req.headers,
        vec![
            ("A".to_string(), "1".to_string()),
            ("B".to_string(), "2".to_string()),
        ]
    );
    assert!(req.body.is_empty());
}

#[test]
fn codes_have_their_classes() {
    assert!(!status(199).is_success());
    assert!(status(200).is_success());
    assert!(status(299).is_success());
    assert!(!status(300).is_success());
    assert!(status(300).is_redirection());
    assert!(status(399).is_redirection());
    assert!(!status(400).is_redirection());
}

#[test]
fn a_plain_response_is_delivered() {
    let mut exchange = Exchange::new();
    assert_eq!(exchange.receive(&status(200), &HeaderText::Absent), SendAction::Deliver);
    assert_eq!(exchange.receive(&status(500), &HeaderText::Absent), SendAction::Deliver);
}

#[test]
fn a_redirect_is_followed_without_authorization() {
    let mut exchange = Exchange::new();
    let location = HeaderText::Readable("https://storage/x".to_string());
    let action = exchange.receive(&status(307), &location);
    assert_eq!(
        action,
        SendAction::Follow(HttpRequest::new(Method::Get, "https://storage/x".to_string()))
    );
}

#[test]
fn five_redirects_are_followed() {
    let mut exchange = Exchange::new();
    let location = HeaderText::Readable("https://loop/".to_string());
    for _ in 0..MAX_REDIRECTS {
        assert!(matches!(exchange.receive(&status(302), &location), SendAction::Follow(_)));
    }
    assert_eq!(exchange.receive(&status(302), &location), SendAction::Deliver);
}

#[test]
fn a_redirect_needs_a_location() {
    let mut exchange = Exchange::new();
    assert_eq!(
        exchange.receive(&status(301), &HeaderText::Absent),
        SendAction::Fail(Error::RegistryError("redirect without Location header".to_string()))
    );
    assert_eq!(
        exchange.receive(&status(301), &HeaderText::Unreadable("bad bytes".to_string())),
        SendAction::Fail(Error::RegistryError("bad bytes".to_string()))
    );
}
