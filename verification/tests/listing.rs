use wasm_pkg_client::error::Error;
use wasm_pkg_client::oci::backend::OciBackend;
use wasm_pkg_client::oci::listing::{
    page_of, CatalogListing, Found, GithubListing, Listing, PAGE_SIZE,
};
use wasm_pkg_client::oci::transport::{CatalogPage, OciCredentials};
use wasm_pkg_client::package::PackageRef;

fn backend(registry: &str, prefix: Option<&str>) -> OciBackend {
    OciBackend {
        oci_registry: registry.to_string(),
        namespace_prefix: prefix.map(String::from),
        credentials: OciCredentials::Anonymous,
    }
}

fn github(listing: Listing) -> GithubListing {
    match listing {
        Listing::Github(l) => l,
        Listing::Catalog(_) => panic!("not a walk through packages at GitHub"),
    }
}

fn catalog(listing: Listing) -> CatalogListing {
    match listing {
        Listing::Catalog(l) => l,
        Listing::Github(_) => panic!("not a walk through a catalog"),
    }
}

fn texts(list: &[&str]) -> Vec<String> {
    list.iter().map(|t| t.to_string()).collect()
}

fn names(packages: &[PackageRef]) -> Vec<String> {
    packages.iter().map(|p| p.to_text()).collect()
}

#[test]
fn the_registry_decides_how_packages_are_listed() {
    for registry in ["ghcr.io", "ghcr.io/", "ghcr.io//"] {
        github(backend(registry, None).list_packages_in_namespace("ns"));
    }
    for registry in ["docker.io", "GHCR.io", "/ghcr.io", "ghcr.io.example.com"] {
        catalog(backend(registry, None).list_packages_in_namespace("ns"));
    }
}

#[test]
fn the_owner_is_the_first_component_of_the_prefix() {
    let org = |prefix: Option<&str>| backend("ghcr.io", prefix).list_packages_github("ns").org;
    assert_eq!(org(Some("webassembly/")), "webassembly");
    assert_eq!(org(Some("webassembly/wasi//")), "webassembly");
    assert_eq!(org(Some("")), "");
    assert_eq!(org(Some("/x")), "");
    assert_eq!(org(None), "ns");
}

#[test]
fn pages_at_github_are_numbered() {
    let mut listing = backend("ghcr.io", Some("web/")).list_packages_github("ns");
    assert_eq!(
        listing.url(),
        "https://api.github.com/orgs/web/packages?package_type=container&per_page=100&page=1"
    );
    let full: Vec<String> = (0..PAGE_SIZE).map(|i| format!("web/ns/p{i}")).collect();
    assert!(listing.receive(Some(full)));
    assert_eq!(
        listing.url(),
        "https://api.github.com/orgs/web/packages?package_type=container&per_page=100&page=2"
    );
    assert!(!listing.receive(Some(texts(&["web/ns/last"]))));
    assert_eq!(listing.found.packages.len(), PAGE_SIZE + 1);
    assert_eq!(listing.found.packages[0].to_text(), "ns:p0");
    assert_eq!(listing.found.packages[PAGE_SIZE].to_text(), "ns:last");
}

#[test]
fn a_page_that_is_missing_or_empty_is_the_last_one() {
    let mut listing = backend("ghcr.io", None).list_packages_github("ns");
    assert!(!listing.receive(None));
    assert!(!listing.receive(Some(vec![])));
    assert_eq!(listing.page, 1);
    assert!(listing.found.packages.is_empty());
}

#[test]
fn a_catalog_is_walked_by_its_cursor() {
    let mut listing = backend("reg", None).list_packages_catalog("ns");
    assert_eq!(listing.last, None);
    let first = CatalogPage {
        repositories: texts(&["ns/a", "other/b"]),
        next_last: Some("other/b".to_string()),
    };
    assert!(listing.receive(first));
    assert_eq!(listing.last, Some("other/b".to_string()));
    let second = CatalogPage { repositories: texts(&["ns/c"]), next_last: None };
    assert!(!listing.receive(second));
    assert_eq!(listing.last, None);
    assert_eq!(names(&listing.found.packages), vec!["ns:a", "ns:c"]);
}

#[test]
fn only_packages_of_the_namespace_are_selected() {
    let mut found = Found::new(Some("web/".to_string()), "ns".to_string());
    found.add(&texts(&[
        "web/ns/good",
        "web/ns/nested/bad",
        "web/ns/Bad",
        "web/ns/",
        "web/ns",
        "ns/bad",
        "web/nsx/bad",
        "web/ns/also-good",
        "web/ns/good",
    ]));
    assert_eq!(names(&found.packages), vec!["ns:good", "ns:also-good", "ns:good"]);
}

#[test]
fn a_namespace_that_is_no_label_has_no_packages() {
    let found = Found::new(None, "Ns".to_string());
    assert_eq!(found.select("Ns/a"), None);
}

#[test]
fn pages_may_be_divided_in_any_way() {
    let all = ["ns/a", "x/y", "ns/b", "ns/c/d", "ns/e"];
    let mut whole = Found::new(None, "ns".to_string());
    whole.add(&texts(&all));
    for cut in 0..=all.len() {
        let mut parts = Found::new(None, "ns".to_string());
        parts.add(&texts(&all[..cut]));
        parts.add(&texts(&all[cut..]));
        assert_eq!(parts.packages, whole.packages);
    }
}

#[test]
fn a_listed_package_is_referred_to_by_its_repository() {
    let backend = backend("reg", Some("web/"));
    for repository in ["web/ns/a", "web/ns/b-c2"] {
        let found = Found::new(Some("web/".to_string()), "ns".to_string());
        let package = found.select(repository).unwrap();
        assert_eq!(backend.make_reference(&package, None).repository, repository);
    }
}

#[test]
fn a_page_is_read_from_the_reply() {
    let names = vec!["a".to_string(), "b".to_string()];
    assert_eq!(page_of(Ok(Some(Ok(names.clone())))), Ok(Some(names)));
    assert_eq!(page_of(Ok(None)), Ok(None));
    assert_eq!(
        page_of(Err("no answer".to_string())),
        Err(Error::RegistryError("no answer".to_string()))
    );
    assert_eq!(
        page_of(Ok(Some(Err("no list".to_string())))),
        Err(Error::RegistryError("no list".to_string()))
    );
}
