use wasm_pkg_client::error::{Error, InvalidLabel};
use wasm_pkg_client::package::{check_label, PackageRef, Version};

fn version(major: u64, minor: u64, patch: u64, pre: &str, build: &str) -> Version {
    Version { major, minor, patch, pre: pre.to_string(), build: build.to_string() }
}

#[test]
fn labels_are_kebab_case() {
    assert_eq!(check_label("a"), None);
    assert_eq!(check_label("wasm-pkg2-x0"), None);
    assert_eq!(check_label(""), Some(InvalidLabel::Empty));
    assert_eq!(check_label("-a"), Some(InvalidLabel::EmptyWord));
    assert_eq!(check_label("a--b"), Some(InvalidLabel::EmptyWord));
    assert_eq!(check_label("a-"), Some(InvalidLabel::EmptyWord));
    assert_eq!(check_label("a-1"), Some(InvalidLabel::InvalidWordFirstChar));
    assert_eq!(check_label("A"), Some(InvalidLabel::InvalidWordFirstChar));
    assert_eq!(check_label("aB"), Some(InvalidLabel::InvalidChar));
    assert_eq!(check_label("a/b"), Some(InvalidLabel::InvalidChar));
    assert_eq!(check_label("aé"), Some(InvalidLabel::InvalidChar));
}

#[test]
fn a_package_reference_reads_back() {
    let package = PackageRef::parse("wasm-pkg:client").unwrap();
    assert_eq!(package.namespace, "wasm-pkg");
    assert_eq!(package.name, "client");
    assert_eq!(package.to_text(), "wasm-pkg:client");
}

#[test]
fn what_is_no_package_reference_is_refused() {
    assert_eq!(
        PackageRef::parse("client"),
        Err(Error::InvalidPackageRef("missing expected ':'".to_string()))
    );
    assert_eq!(PackageRef::parse(":b"), Err(Error::InvalidLabel(InvalidLabel::Empty)));
    assert_eq!(PackageRef::parse("a:"), Err(Error::InvalidLabel(InvalidLabel::Empty)));
    assert_eq!(PackageRef::parse("a:b:c"), Err(Error::InvalidLabel(InvalidLabel::InvalidChar)));
    assert_eq!(
        PackageRef::parse("A:-"),
        Err(Error::InvalidLabel(InvalidLabel::InvalidWordFirstChar))
    );
}

#[test]
fn versions_are_read() {
    assert_eq!(Version::parse("1.2.3"), Some(version(1, 2, 3, "", "")));
    assert_eq!(
        Version::parse("0.10.0-rc.1+build.5"),
        Some(version(0, 10, 0, "rc.1", "build.5"))
    );
    for text in ["", "1", "1.2", "01.2.3", "1.2.3.4", "v1.2.3", "1.2.3-", "latest", " 1.2.3"] {
        assert_eq!(Version::parse(text), None);
    }
}

#[test]
fn a_version_is_written_as_it_was_read() {
    for text in ["0.0.0", "1.2.3", "1.2.3-alpha.1", "1.2.3+b", "18446744073709551615.0.1-x+y"] {
        assert_eq!(Version::parse(text).unwrap().to_text(), text);
    }
}
