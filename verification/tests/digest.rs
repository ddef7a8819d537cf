use wasm_pkg_client::digest::{hash_digest, sha256_digest, ContentDigest};
use wasm_pkg_client::error::{Error, InvalidDigest};

const EMPTY: &str = "e3b0c44298fc1c149afbf4c8996fb92427ae41e4649b934ca495991b7852b855";

#[test]
fn digests_are_those_of_sha256() {
    assert_eq!(sha256_digest(b""), format!("sha256:{EMPTY}"));
    assert_eq!(
        sha256_digest(b"abc"),
        "sha256:ba7816bf8f01cfea414140de5dae2223b00361a396177a9cb410ff61f20015ad"
    );
}

#[test]
fn a_hash_is_written_in_hexadecimal() {
    assert_eq!(hash_digest(&vec![0xde, 0xad]), "sha256:dead");
}

#[test]
fn a_digest_reads_back() {
    let text = sha256_digest(b"some content");
    assert_eq!(ContentDigest::parse(&text).unwrap().to_text(), text);
}

#[test]
fn digits_may_be_in_upper_case() {
    let upper = format!("sha256:{}", EMPTY.to_uppercase());
    assert_eq!(
        ContentDigest::parse(&upper),
        Ok(ContentDigest::Sha256 { hex: EMPTY.to_string() })
    );
}

#[test]
fn what_is_no_digest_is_refused() {
    let problem = |text: &str| match ContentDigest::parse(text) {
        Err(Error::InvalidContentDigest(p)) => p,
        other => panic!("{other:?}"),
    };
    assert_eq!(problem(EMPTY), InvalidDigest::MissingPrefix);
    assert_eq!(problem("SHA256:00"), InvalidDigest::MissingPrefix);
    assert_eq!(problem("sha256:"), InvalidDigest::Length(0));
    assert_eq!(problem("sha256:abcd"), InvalidDigest::Length(4));
    assert_eq!(problem(&format!("sha256:{EMPTY}0")), InvalidDigest::Length(65));
    assert_eq!(problem(&format!("sha256:{}G", &EMPTY[..63])), InvalidDigest::NotHex('g'));
    assert_eq!(problem(&format!("sha256:{}é", &EMPTY[..62])), InvalidDigest::NotHex('é'));
}
