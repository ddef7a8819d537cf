//! Where the packages of a registry are found in an OCI registry.

use vstd::prelude::*;

use crate::error::Error;
use crate::error::ErrorView;
use crate::metadata::Registry;
use crate::oci::config::BasicCredentials;
use crate::oci::transport::OciCredentials;
use crate::oci::transport::OciReference;
use crate::package::is_label;
use crate::package::is_word_char;
use crate::package::law_label_characters;
use crate::package::version_text;
use crate::package::PackageNames;
use crate::package::PackageRef;
use crate::package::Version;
use crate::text::lemma_position_unique;
use crate::text::opt_text;

verus! {

/// What the metadata of a registry says of its packages in an OCI registry.
pub struct OciRegistryMetadata {
    /// The OCI registry, where it is another one.
    pub registry: Option<String>,
    /// What stands before the namespace in the names of the repositories.
    pub namespace_prefix: Option<String>,
}

impl OciRegistryMetadata {
    /// The metadata from the section for OCI and the fields outside it, which come first where they are
    /// given.
    pub fn with_aliases(
        section: Option<OciRegistryMetadata>,
        registry: Option<String>,
        namespace_prefix: Option<String>,
    ) -> (res: Self)
        ensures
            res.registry == (match (registry, section) {
                (Some(r), _) => Some(r),
                (None, Some(s)) => s.registry,
                (None, None) => None,
            }),
            res.namespace_prefix == (match (namespace_prefix, section) {
                (Some(p), _) => Some(p),
                (None, Some(s)) => s.namespace_prefix,
                (None, None) => None,
            }),
    {
        let section = match section {
            Some(s) => s,
            None => OciRegistryMetadata { registry: None, namespace_prefix: None },
        };
        OciRegistryMetadata {
            registry: match registry {
                Some(r) => Some(r),
                None => section.registry,
            },
            namespace_prefix: match namespace_prefix {
                Some(p) => Some(p),
                None => section.namespace_prefix,
            },
        }
    }
}

/// The packages of a registry in an OCI registry.
pub struct OciBackend {
    pub oci_registry: String,
    pub namespace_prefix: Option<String>,
    pub credentials: OciCredentials,
}

/// The text, or nothing where there is none.
pub open spec fn or_nothing(text: Option<Seq<char>>) -> Seq<char> {
    match text {
        Some(t) => t,
        None => Seq::empty(),
    }
}

/// The repository of a package.
pub open spec fn repository_of(prefix: Option<Seq<char>>, names: PackageNames) -> Seq<char> {
    or_nothing(prefix) + names.0 + "/"@ + names.1
}

/// The name of the OCI registry: the one that the metadata gives, or else that of the registry itself.
pub open spec fn oci_registry_of(registry: Seq<char>, meta: OciRegistryMetadata) -> Seq<char> {
    match meta.registry {
        Some(name) => name@,
        None => registry,
    }
}

/// The name of the OCI registry.
pub fn oci_registry_name(registry: &Registry, meta: &OciRegistryMetadata) -> (res: String)
    ensures
        res@ == oci_registry_of(registry.authority@, *meta),
{
    match &meta.registry {
        Some(name) => name.clone(),
        None => registry.authority.clone(),
    }
}

impl OciBackend {
    /// The prefix of the names of the repositories.
    pub open spec fn prefix(self) -> Option<Seq<char>> {
        opt_text(self.namespace_prefix)
    }

    /// The packages of a registry. Without configured credentials the given ones are used, which the
    /// credential store holds for the OCI registry.
    pub fn new(
        registry: &Registry,
        configured: Option<BasicCredentials>,
        meta: OciRegistryMetadata,
        stored: OciCredentials,
    ) -> (res: Self)
        ensures
            res.oci_registry@ == oci_registry_of(registry.authority@, meta),
            res.namespace_prefix == meta.namespace_prefix,
            res.credentials == (match configured {
                Some(c) => OciCredentials::Basic(c.username, c.password),
                None => stored,
            }),
    {
        let oci_registry = oci_registry_name(registry, &meta);
        let credentials = match configured {
            Some(c) => OciCredentials::Basic(c.username, c.password),
            None => stored,
        };
        OciBackend { oci_registry, namespace_prefix: meta.namespace_prefix, credentials }
    }

    /// The reference to a package, at a version or else at its latest one.
    pub fn make_reference(&self, package: &PackageRef, version: Option<&Version>) -> (res:
        OciReference)
        ensures
            res.registry == self.oci_registry,
            res.repository@ == repository_of(self.prefix(), package.names()),
            res.tag@ == (match version {
                Some(v) => version_text(v.parts()),
                None => "latest"@,
            }),
    {
        let mut repository = match &self.namespace_prefix {
            Some(prefix) => prefix.clone(),
            None => String::new(),
        };
        repository.append(package.namespace.as_str());
        repository.append("/");
        repository.append(package.name.as_str());
        let tag = match version {
            Some(v) => v.to_text(),
            None => "latest".to_string(),
        };
        OciReference::new(self.oci_registry.clone(), repository, tag)
    }

    /// The reference by which the list of repositories is authorized: it names no repository.
    pub fn catalog_reference(&self) -> (res: OciReference)
        ensures
            res.registry == self.oci_registry,
            res.repository@.len() == 0,
            res.tag@.len() == 0,
    {
        OciReference::new(self.oci_registry.clone(), String::new(), String::new())
    }
}

// ---------------------------------------------------------------------------
// Stored credentials
// ---------------------------------------------------------------------------

/// What the credential store answered for a server.
#[derive(Debug)]
pub enum DockerLookup {
    /// A user name and a password.
    UsernamePassword(String, String),
    /// An identity token.
    IdentityToken,
    /// Nothing.
    Failed,
}

/// The credentials among the answers of the credential store.
pub fn get_docker_credential(lookup: DockerLookup) -> (res: Result<Option<OciCredentials>, Error>)
    ensures
        match lookup {
            DockerLookup::UsernamePassword(u, p) => res == Ok::<Option<OciCredentials>, Error>(
                Some(OciCredentials::Basic(u, p)),
            ),
            DockerLookup::IdentityToken => res matches Err(e) && e@ == ErrorView::CredentialError(
                "identity tokens not supported"@,
            ),
            DockerLookup::Failed => res == Ok::<Option<OciCredentials>, Error>(None),
        },
{
    match lookup {
        DockerLookup::UsernamePassword(u, p) => Ok(Some(OciCredentials::Basic(u, p))),
        DockerLookup::IdentityToken => Err(
            Error::CredentialError("identity tokens not supported".to_string()),
        ),
        DockerLookup::Failed => Ok(None),
    }
}

/// What follows an answer of the credential store.
#[derive(Debug, PartialEq)]
pub enum DockerAction {
    /// These credentials are used.
    Use(OciCredentials),
    /// The store is asked for this server.
    LookUp(String),
}

/// Takes the answer of the credential store for the name of the registry. Where it has nothing under
/// the name, it is asked for the URL of the registry.
pub fn docker_credentials_by_name(oci_registry: &str, lookup: DockerLookup) -> (res: DockerAction)
    ensures
        match lookup {
            DockerLookup::UsernamePassword(u, p) => res == DockerAction::Use(
                OciCredentials::Basic(u, p),
            ),
            DockerLookup::IdentityToken => res == DockerAction::Use(OciCredentials::Anonymous),
            DockerLookup::Failed => res matches DockerAction::LookUp(server) && server@
                == "https://"@ + oci_registry@,
        },
{
    match get_docker_credential(lookup) {
        Ok(Some(c)) => DockerAction::Use(c),
        Ok(None) => {
            let mut server = "https://".to_string();
            server.append(oci_registry);
            DockerAction::LookUp(server)
        },
        Err(_) => DockerAction::Use(OciCredentials::Anonymous),
    }
}

/// Takes the answer of the credential store for the URL of the registry.
pub fn docker_credentials_by_url(lookup: DockerLookup) -> (res: OciCredentials)
    ensures
        res == (match lookup {
            DockerLookup::UsernamePassword(u, p) => OciCredentials::Basic(u, p),
            _ => OciCredentials::Anonymous,
        }),
{
    match get_docker_credential(lookup) {
        Ok(Some(c)) => c,
        _ => OciCredentials::Anonymous,
    }
}

// ---------------------------------------------------------------------------
// Laws
// ---------------------------------------------------------------------------

/// A package lies in the repository that is named by its namespace and its name, with a slash between them and the
/// prefix in front, where there is one. The tag is the version, or `latest` where none is given.
pub proof fn law_reference_names_the_package(
    backend: &OciBackend,
    package: &PackageRef,
    version: Option<&Version>,
    res: OciReference,
)
    requires
        call_ensures(OciBackend::make_reference, (backend, package, version), res),
    ensures
        res.registry@ == backend.oci_registry@,
        backend.namespace_prefix is None ==> res.repository@ == package.namespace@ + "/"@
            + package.name@,
        backend.namespace_prefix matches Some(p) ==> res.repository@ == p@ + package.namespace@ + "/"@
            + package.name@,
        version is None ==> res.tag@ == "latest"@,
        version matches Some(v) ==> res.tag@ == version_text(v.parts()),
{
    assert(Seq::<char>::empty() + package.namespace@ =~= package.namespace@);
}

/// Different packages lie in different repositories.
pub proof fn law_packages_have_their_own_repositories(
    prefix: Option<Seq<char>>,
    a: PackageNames,
    b: PackageNames,
)
    requires
        is_label(a.0),
        is_label(b.0),
        repository_of(prefix, a) == repository_of(prefix, b),
    ensures
        a == b,
{
    reveal_strlit("/");
    let front = or_nothing(prefix);
    let n = front.len() as int;
    let x = repository_of(prefix, a).skip(n);
    let y = repository_of(prefix, b).skip(n);
    assert(x =~= a.0 + "/"@ + a.1);
    assert(y =~= b.0 + "/"@ + b.1);
    law_label_characters(a.0);
    law_label_characters(b.0);
    assert forall|i: int| 0 <= i < a.0.len() implies x[i] != '/' by {
        assert(x[i] == a.0[i]);
        assert(is_word_char(a.0[i]) || a.0[i] == '-');
    }
    assert forall|i: int| 0 <= i < b.0.len() implies y[i] != '/' by {
        assert(y[i] == b.0[i]);
        assert(is_word_char(b.0[i]) || b.0[i] == '-');
    }
    assert(x[a.0.len() as int] == '/');
    assert(y[b.0.len() as int] == '/');
    lemma_position_unique(x, '/', a.0.len() as int);
    lemma_position_unique(y, '/', b.0.len() as int);
    assert(a.0 =~= x.take(a.0.len() as int));
    assert(b.0 =~= y.take(b.0.len() as int));
    assert(a.1 =~= x.skip(a.0.len() as int + 1));
    assert(b.1 =~= y.skip(b.0.len() as int + 1));
}

/// A backend has the registry and the prefix that the metadata give, or else the registry itself and no prefix. The
/// credentials are the configured ones, or else those of the store.
pub proof fn law_backend_is_configured(
    registry: &Registry,
    configured: Option<BasicCredentials>,
    meta: OciRegistryMetadata,
    stored: OciCredentials,
    res: OciBackend,
)
    requires
        call_ensures(OciBackend::new, (registry, configured, meta, stored), res),
    ensures
        meta.registry matches Some(r) ==> res.oci_registry@ == r@,
        meta.registry is None ==> res.oci_registry@ == registry.authority@,
        res.namespace_prefix == meta.namespace_prefix,
        configured matches Some(c) ==> (res.credentials matches OciCredentials::Basic(u, p) && u@
            == c.username@ && p@ == c.password@),
        configured is None ==> res.credentials == stored,
{
}

/// What the metadata say outside the section for OCI comes first, each field by itself.
pub proof fn law_outer_fields_come_first(
    section: Option<OciRegistryMetadata>,
    registry: Option<String>,
    namespace_prefix: Option<String>,
    res: OciRegistryMetadata,
)
    requires
        call_ensures(OciRegistryMetadata::with_aliases, (section, registry, namespace_prefix), res),
    ensures
        registry is Some ==> res.registry == registry,
        registry is None ==> (section matches Some(s) ==> res.registry == s.registry),
        namespace_prefix is Some ==> res.namespace_prefix == namespace_prefix,
        namespace_prefix is None ==> (section matches Some(s) ==> res.namespace_prefix
            == s.namespace_prefix),
        section is None ==> res.registry == registry && res.namespace_prefix == namespace_prefix,
{
}

/// The credential store is asked for the name of the registry first, and for its URL only where it has nothing under
/// the name. A user name and a password that it has are used; otherwise there are no credentials.
pub proof fn law_store_is_asked(
    oci_registry: &str,
    lookup: DockerLookup,
    by_name: DockerAction,
    by_url: OciCredentials,
)
    requires
        call_ensures(docker_credentials_by_name, (oci_registry, lookup), by_name),
        call_ensures(docker_credentials_by_url, (lookup,), by_url),
    ensures
        by_name is LookUp <==> lookup is Failed,
        by_name matches DockerAction::LookUp(server) ==> server@ == "https://"@ + oci_registry@,
        lookup matches DockerLookup::UsernamePassword(u, p) ==> by_name == DockerAction::Use(
            OciCredentials::Basic(u, p),
        ) && by_url == OciCredentials::Basic(u, p),
        by_url is Anonymous <==> !(lookup is UsernamePassword),
        lookup is IdentityToken ==> by_name == DockerAction::Use(OciCredentials::Anonymous),
{
}

/// A user name and a password in the store are credentials; an identity token is an error; nothing is nothing.
pub proof fn law_stored_credentials(lookup: DockerLookup, res: Result<Option<OciCredentials>, Error>)
    requires
        call_ensures(get_docker_credential, (lookup,), res),
    ensures
        lookup matches DockerLookup::UsernamePassword(u, p) ==> (res matches Ok(Some(c)) && c
            == OciCredentials::Basic(u, p)),
        lookup is IdentityToken <==> res is Err,
        lookup is Failed <==> (res matches Ok(None)),
        res matches Err(e) ==> e@ == ErrorView::CredentialError("identity tokens not supported"@),
{
}

/// The list of repositories concerns no repository of the registry.
pub proof fn law_catalog_concerns_no_repository(backend: &OciBackend, res: OciReference)
    requires
        call_ensures(OciBackend::catalog_reference, (backend,), res),
    ensures
        res.registry@ == backend.oci_registry@,
        res.repository@.len() == 0,
{
}

} // verus!
