use wasm_pkg_client::error::Error;
use wasm_pkg_client::oci::challenge::{
    challenge_params, is_bearer_challenge, link_is_ordered, parse_link_last,
    parse_www_authenticate, split_challenge_params, take_realm,
};

fn param(name: &str, value: &str) -> (String, String) {
    (name.to_string(), value.to_string())
}

#[test]
fn parameters_are_split_outside_quotes() {
    assert_eq!(
        split_challenge_params(
            r#"realm="https://auth.example.com/token",service="registry",scope="repository:foo:pull,push""#
        ),
        vec![
            r#"realm="https://auth.example.com/token""#,
            r#"service="registry""#,
            r#"scope="repository:foo:pull,push""#,
        ]
    );
    assert_eq!(split_challenge_params(" a , ,b,"), vec!["a", "b"]);
    assert_eq!(split_challenge_params(""), Vec::<&str>::new());
    assert_eq!(split_challenge_params(r#"a="x,y"#), vec![r#"a="x,y"#]);
    assert_eq!(split_challenge_params("é,ü"), vec!["é", "ü"]);
}

#[test]
fn parts_without_an_equals_sign_are_no_parameters() {
    assert_eq!(
        challenge_params(r#"A = " x " , junk, b=c=d, e="""#),
        vec![param("A", " x "), param("b", "c=d"), param("e", "")]
    );
}

#[test]
fn the_realm_is_told_from_the_other_parameters() {
    let params = vec![param("realm", "one"), param("service", "s"), param("realm", "two")];
    assert_eq!(take_realm(params), Ok(("two".to_string(), vec![param("service", "s")])));
    let missing = Error::RegistryError(
        "WWW-Authenticate Bearer challenge missing realm".to_string(),
    );
    assert_eq!(take_realm(vec![param("service", "s")]), Err(missing));
}

#[test]
fn a_challenge_is_parsed() {
    let (realm, params) = parse_www_authenticate(
        r#"Bearer realm="https://ghcr.io/token",service="ghcr.io",scope="repository:user/image:pull""#,
    )
    .unwrap();
    assert_eq!(realm, "https://ghcr.io/token");
    assert_eq!(
        params,
        vec![param("service", "ghcr.io"), param("scope", "repository:user/image:pull")]
    );
}

#[test]
fn names_of_parameters_are_read_in_any_case() {
    let (realm, params) =
        parse_www_authenticate(r#"bearer REALM="r", Service=s, ÄÖ=v"#).unwrap();
    assert_eq!(realm, "r");
    assert_eq!(params, vec![param("service", "s"), param("äö", "v")]);
}

#[test]
fn the_word_bearer_is_read_in_any_case() {
    for word in ["Bearer", "bearer", "BEARER", "bEaReR"] {
        assert_eq!(
            parse_www_authenticate(&format!(r#"{word} realm="https://a.io/t""#)),
            Ok(("https://a.io/t".to_string(), vec![]))
        );
    }
}

#[test]
fn another_challenge_is_refused() {
    assert_eq!(
        parse_www_authenticate("Basic realm=x"),
        Err(Error::RegistryError(
            "expected Bearer WWW-Authenticate challenge, got: Basic realm=x".to_string()
        ))
    );
    assert_eq!(
        parse_www_authenticate("Bearer"),
        Err(Error::RegistryError(
            "expected Bearer WWW-Authenticate challenge, got: Bearer".to_string()
        ))
    );
    assert_eq!(
        parse_www_authenticate("Bearer service=x"),
        Err(Error::RegistryError("WWW-Authenticate Bearer challenge missing realm".to_string()))
    );
    assert!(parse_www_authenticate(r#"Bearer realm="""#).is_err());
}

#[test]
fn a_bearer_challenge_is_recognized() {
    assert!(is_bearer_challenge("Bearer realm=x"));
    assert!(is_bearer_challenge("bEaReR x"));
    assert!(!is_bearer_challenge("Bearer"));
    assert!(!is_bearer_challenge("Basic realm=x"));
    // The Kelvin sign is not ASCII, and its lower case is.
    assert!(!is_bearer_challenge("\u{212a}earer x"));
}

#[test]
fn the_cursor_is_found_in_a_link() {
    let last = |link: &str| {
        assert!(link_is_ordered(link));
        parse_link_last(link)
    };
    assert_eq!(last(r#"</v2/_catalog?last=foo&n=100>; rel="next""#), Some("foo".to_string()));
    assert_eq!(last("<https://r/v2/_catalog?n=100&last=a%2Fb>"), Some("a%2Fb".to_string()));
    assert_eq!(last("<?last=a=b>"), Some("a=b".to_string()));
    assert_eq!(last("</a<b?x=<&last=<c>"), Some("<c".to_string()));
    assert_eq!(last("<?n&last=>"), Some(String::new()));
    assert_eq!(last("<?last=a&last=b>"), Some("a".to_string()));
    assert_eq!(last("<?n=1?last=a>"), None);
    assert_eq!(last("</v2/_catalog>"), None);
    assert_eq!(last("</v2/_catalog?n=5>"), None);
    assert_eq!(last("?last=a"), None);
    assert_eq!(last("<?last=a"), None);
    assert_eq!(last(""), None);
}

#[test]
fn brackets_out_of_order_are_recognized() {
    assert!(!link_is_ordered("> <x"));
    assert!(link_is_ordered("<>"));
    assert!(link_is_ordered(">"));
}
