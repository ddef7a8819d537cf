//! The requests of the OCI Distribution protocol and the meaning of the responses. The requests are sent
//! elsewhere.

use vstd::prelude::*;

use crate::error::Error;
use crate::error::ErrorView;
use crate::http::bare_request;
use crate::http::has_authorization;
use crate::http::has_only;
use crate::http::is_success;
use crate::http::HeaderText;
use crate::http::HttpRequest;
use crate::http::HttpRequestView;
use crate::http::Method;
use crate::http::Status;
use crate::http_client::bearer;
use crate::oci::challenge::brackets_in_order;
use crate::oci::challenge::is_link_param;
use crate::oci::challenge::is_named;
use crate::oci::challenge::law_link_reads_back;
use crate::oci::challenge::link_target;
use crate::oci::challenge::parse_link_last;
use crate::oci::challenge::query_value;
use crate::oci::config::OciProtocol;
use crate::oci::token::base64_text;
use crate::oci::token::basic_authorization;
use crate::oci::token::credential_headers;
use crate::oci::transport::CatalogPage;
use crate::oci::transport::OciCredentials;
use crate::oci::transport::OciLayerDescriptor;
use crate::oci::transport::OciManifest;
use crate::oci::transport::OciReference;
use crate::oci::transport::TagList;
use crate::text::chars_of;
use crate::text::decimal;
use crate::text::joined;
use crate::text::law_cut_at_the_first;
use crate::text::lemma_position;
use crate::text::lemma_position_unique;
use crate::text::opt_text;
use crate::text::position;
use crate::text::split_once;
use crate::text::to_decimal;
use crate::text_map::TextMap;

verus! {

/// The URL of a registry.
pub open spec fn base(protocol: OciProtocol, registry: Seq<char>) -> Seq<char> {
    (match protocol {
        OciProtocol::Http => "http"@,
        OciProtocol::Https => "https"@,
    }) + "://"@ + registry
}

/// The headers that authorize a request to a repository: a token for the repository, where there is
/// one, or else the credentials.
pub open spec fn authorization(
    tokens: Map<Seq<char>, Seq<char>>,
    repository: Seq<char>,
    credentials: OciCredentials,
) -> Seq<(Seq<char>, Seq<char>)> {
    if tokens.contains_key(repository) {
        seq![("Authorization"@, bearer(tokens[repository]))]
    } else {
        credential_headers(credentials)
    }
}

/// An authorized request without a body.
pub open spec fn authorized(
    tokens: Map<Seq<char>, Seq<char>>,
    method: Method,
    url: Seq<char>,
    credentials: OciCredentials,
    repository: Seq<char>,
) -> HttpRequestView {
    HttpRequestView {
        headers: authorization(tokens, repository, credentials),
        ..bare_request(method, url)
    }
}

/// The query that asks for a page of a list.
pub open spec fn page_query(n: Option<usize>, last: Option<Seq<char>>) -> Seq<char> {
    let count = match n {
        Some(n) => "?n="@ + decimal(n as nat),
        None => Seq::empty(),
    };
    match last {
        Some(last) => count.push(
            if n is Some {
                '&'
            } else {
                '?'
            },
        ) + "last="@ + last,
        None => count,
    }
}

/// The text with its slashes percent-encoded.
pub open spec fn percent_slashes(text: Seq<char>) -> Seq<char>
    decreases text.len(),
{
    if text.len() == 0 {
        Seq::empty()
    } else {
        let rest = percent_slashes(text.drop_last());
        if text.last() == '/' {
            rest + "%2F"@
        } else {
            rest.push(text.last())
        }
    }
}

/// What is percent-encoded has no slash left.
pub proof fn law_no_slash_is_left(text: Seq<char>)
    ensures
        !percent_slashes(text).contains('/'),
    decreases text.len(),
{
    if text.len() > 0 {
        law_no_slash_is_left(text.drop_last());
        let rest = percent_slashes(text.drop_last());
        reveal_strlit("%2F");
        assert forall|i: int| 0 <= i < percent_slashes(text).len() implies percent_slashes(text)[i]
            != '/' by {
            if i < rest.len() {
                assert(percent_slashes(text)[i] == rest[i]);
                assert(rest.contains(rest[i]));
            }
        }
    }
}

/// The error that stands for a response that is no success.
pub open spec fn status_error(status: Status, action: Seq<char>) -> ErrorView {
    if status.code == 404 {
        ErrorView::PackageNotFound
    } else {
        ErrorView::RegistryError("HTTP "@ + status.text@ + " while "@ + action)
    }
}

/// The error that stands for a response that is no success.
pub fn oci_error_from_status(status: &Status, action: &str) -> (res: Error)
    ensures
        res@ == status_error(*status, action@),
{
    if status.code == 404 {
        Error::PackageNotFound
    } else {
        let mut text = "HTTP ".to_string();
        text.append(status.text.as_str());
        text.append(" while ");
        text.append(action);
        Error::RegistryError(text)
    }
}

/// Writes the text with its slashes percent-encoded.
fn encode_slashes(text: &str) -> (res: String)
    ensures
        res@ == percent_slashes(text@),
{
    let chars = chars_of(text);
    let mut out = String::new();
    let mut i: usize = 0;
    assert(text@.take(0) =~= Seq::<char>::empty());
    while i < chars.len()
        invariant
            i <= chars.len(),
            chars@ == text@,
            out@ == percent_slashes(text@.take(i as int)),
        decreases chars.len() - i,
    {
        assert(text@.take(i + 1).drop_last() =~= text@.take(i as int));
        if chars[i] == '/' {
            out.append("%2F");
        } else {
            out.push(chars[i]);
        }
        i += 1;
    }
    assert(text@.take(i as int) =~= text@);
    out
}

/// Writes the query that asks for a page of a list.
fn write_page_query(n: Option<usize>, last: Option<&str>) -> (res: String)
    ensures
        res@ == page_query(
            n,
            match last {
                Some(l) => Some(l@),
                None => None,
            },
        ),
{
    let mut query = String::new();
    if let Some(n) = n {
        query.append("?n=");
        query.append(to_decimal(n as u64).as_str());
        assert(query@ =~= "?n="@ + decimal(n as nat));
    }
    if let Some(last) = last {
        query.push(
            if n.is_some() {
                '&'
            } else {
                '?'
            },
        );
        query.append("last=");
        query.append(last);
    }
    query
}

/// The state of a connection to a registry: its protocol and the bearer tokens that it gave, each for
/// one repository.
pub struct WasmOciTransport {
    pub protocol: OciProtocol,
    /// Bearer tokens by repository (e.g. `wasco-dev/open-ai-api`).
    pub bearer_tokens: TextMap,
}

impl WasmOciTransport {
    /// A connection without tokens.
    pub fn new(protocol: OciProtocol) -> (res: Self)
        ensures
            res.protocol == protocol,
            res.bearer_tokens@ == Map::<Seq<char>, Seq<char>>::empty(),
    {
        WasmOciTransport { protocol, bearer_tokens: TextMap::new() }
    }

    /// The URL of a registry.
    pub fn base_url(&self, registry: &str) -> (res: String)
        ensures
            res@ == base(self.protocol, registry@),
    {
        let mut url = match self.protocol {
            OciProtocol::Http => "http",
            OciProtocol::Https => "https",
        }.to_string();
        url.append("://");
        url.append(registry);
        url
    }

    /// A request without a body, authorized by the token for the repository, where there is one, or
    /// else by the credentials.
    pub fn authorized_request(
        &self,
        method: Method,
        url: String,
        credentials: &OciCredentials,
        repository: &str,
    ) -> (res: HttpRequest)
        ensures
            res@ == authorized(
                self.bearer_tokens@,
                method,
                url@,
                *credentials,
                repository@,
            ),
    {
        let mut req = HttpRequest::new(method, url);
        if let Some(token) = self.bearer_tokens.get(repository) {
            let mut value = "Bearer ".to_string();
            value.append(token);
            req.add_header("Authorization", value);
        } else if let OciCredentials::Basic(user, password) = credentials {
            req.add_header(
                "Authorization",
                basic_authorization(user.as_str(), password.as_str()),
            );
        }
        assert(req@.headers =~= authorization(self.bearer_tokens@, repository@, *credentials));
        req
    }

    /// The URL of a resource of a repository.
    pub open spec fn resource_url(self, reference: OciReference, path: Seq<char>) -> Seq<char> {
        base(self.protocol, reference.registry@) + "/v2/"@ + reference.repository@ + path
    }

    /// The request that lists the tags of a repository, page by page where that is asked for.
    pub fn tags_request(
        &self,
        reference: &OciReference,
        credentials: &OciCredentials,
        n: Option<usize>,
        last: Option<&str>,
    ) -> (res: HttpRequest)
        ensures
            res@ == authorized(
                self.bearer_tokens@,
                Method::Get,
                self.resource_url(*reference, "/tags/list"@) + page_query(
                    n,
                    match last {
                        Some(l) => Some(l@),
                        None => None,
                    },
                ),
                *credentials,
                reference.repository@,
            ),
    {
        let mut url = self.base_url(reference.registry.as_str());
        url.append("/v2/");
        url.append(reference.repository.as_str());
        url.append("/tags/list");
        url.append(write_page_query(n, last).as_str());
        self.authorized_request(Method::Get, url, credentials, reference.repository.as_str())
    }

    /// The request for the manifest of an image.
    pub fn manifest_request(&self, reference: &OciReference, credentials: &OciCredentials) -> (res:
        HttpRequest)
        ensures
            ({
                let plain = authorized(
                    self.bearer_tokens@,
                    Method::Get,
                    self.resource_url(*reference, "/manifests/"@ + reference.tag@),
                    *credentials,
                    reference.repository@,
                );
                res@ == HttpRequestView {
                    headers: plain.headers.push(
                        ("Accept"@, "application/vnd.oci.image.manifest.v1+json"@),
                    ),
                    ..plain
                }
            }),
    {
        let mut url = self.base_url(reference.registry.as_str());
        url.append("/v2/");
        url.append(reference.repository.as_str());
        let ghost prefix = url@;
        url.append("/manifests/");
        url.append(reference.tag.as_str());
        assert(prefix + "/manifests/"@ + reference.tag@ =~= prefix + ("/manifests/"@
            + reference.tag@));
        let mut req = self.authorized_request(
            Method::Get,
            url,
            credentials,
            reference.repository.as_str(),
        );
        req.add_header("Accept", "application/vnd.oci.image.manifest.v1+json".to_string());
        req
    }

    /// The request for a blob of a repository.
    pub fn blob_request(
        &self,
        reference: &OciReference,
        credentials: &OciCredentials,
        digest: &str,
    ) -> (res: HttpRequest)
        ensures
            res@ == authorized(
                self.bearer_tokens@,
                Method::Get,
                self.resource_url(*reference, "/blobs/"@ + digest@),
                *credentials,
                reference.repository@,
            ),
    {
        let mut url = self.base_url(reference.registry.as_str());
        url.append("/v2/");
        url.append(reference.repository.as_str());
        let ghost prefix = url@;
        url.append("/blobs/");
        url.append(digest);
        assert(prefix + "/blobs/"@ + digest@ =~= prefix + ("/blobs/"@ + digest@));
        self.authorized_request(Method::Get, url, credentials, reference.repository.as_str())
    }

    /// The request that lists the repositories of a registry. It concerns no repository, so that only a
    /// token for the repository without a name would authorize it.
    pub fn catalog_request(
        &self,
        registry: &str,
        credentials: &OciCredentials,
        n: Option<usize>,
        last: Option<&str>,
    ) -> (res: HttpRequest)
        ensures
            res@ == authorized(
                self.bearer_tokens@,
                Method::Get,
                base(self.protocol, registry@) + "/v2/_catalog"@ + page_query(
                    n,
                    match last {
                        Some(l) => Some(percent_slashes(l@)),
                        None => None,
                    },
                ),
                *credentials,
                Seq::empty(),
            ),
    {
        let mut url = self.base_url(registry);
        url.append("/v2/_catalog");
        match last {
            Some(l) => {
                let encoded = encode_slashes(l);
                url.append(write_page_query(n, Some(encoded.as_str())).as_str());
            },
            None => {
                url.append(write_page_query(n, None).as_str());
            },
        }
        let nothing = String::new();
        self.authorized_request(Method::Get, url, credentials, nothing.as_str())
    }
}

/// The tags that a response lists; a response without a list has none.
pub fn tags_result(status: &Status, body: Result<Option<Vec<String>>, String>) -> (res: Result<
    TagList,
    Error,
>)
    ensures
        if !is_success(status.code) {
            res matches Err(e) && e@ == status_error(*status, "listing tags"@)
        } else {
            match body {
                Err(t) => res matches Err(e) && e@ == ErrorView::RegistryError(t@),
                Ok(Some(tags)) => res == Ok::<TagList, Error>(TagList { tags }),
                Ok(None) => res matches Ok(list) && list.tags@.len() == 0,
            }
        },
{
    if !status.is_success() {
        return Err(oci_error_from_status(status, "listing tags"));
    }
    match body {
        Err(t) => Err(Error::RegistryError(t)),
        Ok(Some(tags)) => Ok(TagList { tags }),
        Ok(None) => Ok(TagList { tags: Vec::new() }),
    }
}

/// The manifest that a response holds, and its digest: the text of the header
/// `Docker-Content-Digest`, or nothing where that cannot be read.
pub fn manifest_result(
    status: &Status,
    digest: &HeaderText,
    body: Result<Vec<OciLayerDescriptor>, String>,
) -> (res: Result<(OciManifest, String), Error>)
    ensures
        if !is_success(status.code) {
            res matches Err(e) && e@ == status_error(*status, "pulling manifest"@)
        } else {
            match body {
                Err(t) => res matches Err(e) && e@ == ErrorView::RegistryError(t@),
                Ok(layers) => res matches Ok(r) && r.0.layers == layers && r.1@ == match digest {
                    HeaderText::Readable(t) => t@,
                    _ => Seq::empty(),
                },
            }
        },
{
    if !status.is_success() {
        return Err(oci_error_from_status(status, "pulling manifest"));
    }
    let digest = match digest {
        HeaderText::Readable(t) => t.clone(),
        _ => String::new(),
    };
    match body {
        Err(t) => Err(Error::RegistryError(t)),
        Ok(layers) => Ok((OciManifest { layers }, digest)),
    }
}

/// The blob that a response holds.
pub fn blob_result(status: &Status, body: Result<Vec<u8>, String>) -> (res: Result<Vec<u8>, Error>)
    ensures
        if !is_success(status.code) {
            res matches Err(e) && e@ == status_error(*status, "pulling blob"@)
        } else {
            match body {
                Err(t) => res matches Err(e) && e@ == ErrorView::RegistryError(t@),
                Ok(data) => res == Ok::<Vec<u8>, Error>(data),
            }
        },
{
    if !status.is_success() {
        return Err(oci_error_from_status(status, "pulling blob"));
    }
    match body {
        Err(t) => Err(Error::RegistryError(t)),
        Ok(data) => Ok(data),
    }
}

/// The cursor of the next page that a `Link` header names.
pub open spec fn next_cursor(link: HeaderText) -> Option<Seq<char>> {
    match link {
        HeaderText::Readable(t) => match link_target(t@) {
            Some(url) => query_value(url, "last"@),
            None => None,
        },
        _ => None,
    }
}

/// The page of repositories that a response holds. Its `Link` header names the next page.
pub fn catalog_result(
    status: &Status,
    registry: &str,
    link: &HeaderText,
    body: Result<Vec<String>, String>,
) -> (res: Result<CatalogPage, Error>)
    requires
        link matches HeaderText::Readable(t) ==> brackets_in_order(t@),
    ensures
        if !is_success(status.code) {
            res matches Err(e) && e@ == ErrorView::RegistryError(
                "HTTP "@ + status.text@ + " from /v2/_catalog on "@ + registry@,
            )
        } else {
            match body {
                Err(t) => res matches Err(e) && e@ == ErrorView::RegistryError(t@),
                Ok(repositories) => res matches Ok(page) && page.repositories == repositories
                    && opt_text(page.next_last) == next_cursor(*link),
            }
        },
{
    let next_last = match link {
        HeaderText::Readable(t) => parse_link_last(t.as_str()),
        _ => None,
    };
    if !status.is_success() {
        let mut text = "HTTP ".to_string();
        text.append(status.text.as_str());
        text.append(" from /v2/_catalog on ");
        text.append(registry);
        return Err(Error::RegistryError(text));
    }
    match body {
        Err(t) => Err(Error::RegistryError(t)),
        Ok(repositories) => Ok(CatalogPage { repositories, next_last }),
    }
}

// ---------------------------------------------------------------------------
// Laws
// ---------------------------------------------------------------------------

/// Encoding a cursor changes its slashes alone: what has none stays as it is, and a slash between two texts becomes
/// `%2F` between their encodings.
pub proof fn law_only_slashes_are_encoded(text: Seq<char>, a: Seq<char>, b: Seq<char>)
    ensures
        !text.contains('/') ==> percent_slashes(text) == text,
        percent_slashes(a + seq!['/'] + b) == percent_slashes(a) + "%2F"@ + percent_slashes(b),
{
    if !text.contains('/') {
        lemma_without_slashes(text);
    }
    let slash = seq!['/'];
    assert(percent_slashes(slash) == "%2F"@) by {
        assert(slash.drop_last() =~= Seq::<char>::empty());
        assert(percent_slashes(Seq::<char>::empty()) =~= Seq::<char>::empty());
        assert(Seq::<char>::empty() + "%2F"@ =~= "%2F"@);
    }
    lemma_encoded_piecewise(a, slash);
    lemma_encoded_piecewise(a + slash, b);
}

/// What has no slash is encoded as itself.
proof fn lemma_without_slashes(text: Seq<char>)
    requires
        !text.contains('/'),
    ensures
        percent_slashes(text) == text,
    decreases text.len(),
{
    if text.len() > 0 {
        let rest = text.drop_last();
        assert forall|i: int| 0 <= i < rest.len() implies rest[i] != '/' by {
            assert(text.contains(text[i]));
        }
        lemma_without_slashes(rest);
        assert(text.contains(text.last()));
        assert(rest.push(text.last()) =~= text);
    } else {
        assert(percent_slashes(text) =~= text);
    }
}

/// Two texts are encoded one after the other.
proof fn lemma_encoded_piecewise(a: Seq<char>, b: Seq<char>)
    ensures
        percent_slashes(a + b) == percent_slashes(a) + percent_slashes(b),
    decreases b.len(),
{
    if b.len() == 0 {
        assert(a + b =~= a);
        assert(percent_slashes(a) + percent_slashes(b) =~= percent_slashes(a));
    } else {
        lemma_encoded_piecewise(a, b.drop_last());
        assert((a + b).drop_last() =~= a + b.drop_last());
        assert((a + b).last() == b.last());
        assert(percent_slashes(a + b) =~= percent_slashes(a) + percent_slashes(b));
    }
}

/// Whether the request carries what authorizes it for the repository, and no other authorization: the token for the
/// repository, where one is held, or else the user name and the password, where there are any.
pub open spec fn is_authorized(
    req: HttpRequestView,
    tokens: Map<Seq<char>, Seq<char>>,
    repository: Seq<char>,
    credentials: OciCredentials,
) -> bool {
    has_authorization(
        req,
        if tokens.contains_key(repository) {
            Some("Bearer "@ + tokens[repository])
        } else {
            match credentials {
                OciCredentials::Basic(user, password) => Some(
                    "Basic "@ + base64_text(user@ + ":"@ + password@),
                ),
                OciCredentials::Anonymous => None,
            }
        },
    )
}

/// A request that is authorized for a repository has the method and the URL that it is made with. It carries the
/// token for the repository, where one is held, or else the user name and the password, where there are any, and
/// nothing else.
pub proof fn law_request_is_authorized(
    transport: &WasmOciTransport,
    method: Method,
    url: String,
    credentials: &OciCredentials,
    repository: &str,
    res: HttpRequest,
)
    requires
        call_ensures(
            WasmOciTransport::authorized_request,
            (transport, method, url, credentials, repository),
            res,
        ),
    ensures
        res@.method == method,
        res@.url == url@,
        res@.body.len() == 0,
        is_authorized(res@, transport.bearer_tokens@, repository@, *credentials),
        res@.headers.len() <= 1,
{
    lemma_authorized(transport.bearer_tokens@, method, url@, *credentials, repository@);
}

/// An authorized request carries what authorizes it and nothing else.
pub proof fn lemma_authorized(
    tokens: Map<Seq<char>, Seq<char>>,
    method: Method,
    url: Seq<char>,
    credentials: OciCredentials,
    repository: Seq<char>,
)
    ensures
        ({
            let req = authorized(tokens, method, url, credentials, repository);
            &&& is_authorized(req, tokens, repository, credentials)
            &&& req.method == method
            &&& req.url == url
            &&& req.body.len() == 0
            &&& req.headers.len() <= 1
            &&& forall|i: int|
                0 <= i < req.headers.len() ==> (#[trigger] req.headers[i]).0 == "Authorization"@
        }),
{
    let req = authorized(tokens, method, url, credentials, repository);
    if req.headers.len() > 0 {
        assert(req.headers[0].0 == "Authorization"@);
    }
}

/// A header with another name changes nothing about the authorization.
pub proof fn lemma_still_authorized(
    req: HttpRequestView,
    tokens: Map<Seq<char>, Seq<char>>,
    repository: Seq<char>,
    credentials: OciCredentials,
    header: (Seq<char>, Seq<char>),
    body: Seq<u8>,
)
    requires
        is_authorized(req, tokens, repository, credentials),
        header.0 != "Authorization"@,
    ensures
        is_authorized(
            HttpRequestView { headers: req.headers.push(header), body, ..req },
            tokens,
            repository,
            credentials,
        ),
{
    let after = HttpRequestView { headers: req.headers.push(header), body, ..req };
    let n = req.headers.len() as int;
    assert(after.headers[n] == header);
    assert forall|i: int| 0 <= i < n implies (#[trigger] after.headers[i]) == req.headers[i] by {
    }
    if exists|i: int| 0 <= i < n && (#[trigger] req.headers[i]).0 == "Authorization"@ {
        let i = choose|i: int| 0 <= i < n && (#[trigger] req.headers[i]).0 == "Authorization"@;
        assert(after.headers[i].0 == "Authorization"@);
    }
    assert forall|i: int, j: int|
        0 <= i < j < after.headers.len() && (#[trigger] after.headers[i]).0 == "Authorization"@ implies (
    #[trigger] after.headers[j]).0 != "Authorization"@ by {
        if j < n {
            assert(req.headers[i].0 == "Authorization"@);
            assert(req.headers[j].0 == after.headers[j].0);
        }
    }
}

/// A registry is reached under its name, with or without encryption as the protocol says.
pub proof fn law_registry_url(transport: &WasmOciTransport, registry: &str, res: String)
    requires
        call_ensures(WasmOciTransport::base_url, (transport, registry), res),
    ensures
        transport.protocol == OciProtocol::Https ==> res@ == "https://"@ + registry@,
        transport.protocol == OciProtocol::Http ==> res@ == "http://"@ + registry@,
{
    lemma_base(transport.protocol, registry@);
}

/// The URL of a registry starts with its scheme.
pub proof fn lemma_base(protocol: OciProtocol, registry: Seq<char>)
    ensures
        base(protocol, registry) == (match protocol {
            OciProtocol::Http => "http://"@,
            OciProtocol::Https => "https://"@,
        }) + registry,
{
    reveal_strlit("http");
    reveal_strlit("https");
    reveal_strlit("://");
    reveal_strlit("http://");
    reveal_strlit("https://");
    assert("http"@ + "://"@ =~= "http://"@);
    assert("https"@ + "://"@ =~= "https://"@);
}

/// What stands at the front of the URL of every resource of a repository.
pub open spec fn repository_url(
    protocol: OciProtocol,
    registry: Seq<char>,
    repository: Seq<char>,
) -> Seq<char> {
    (match protocol {
        OciProtocol::Http => "http://"@,
        OciProtocol::Https => "https://"@,
    }) + registry + "/v2/"@ + repository
}

/// The tags of a repository are asked for at `/v2/<repository>/tags/list`, with the authorization of the repository.
/// Where a number of tags or the last one known is given, it goes into the query as it is.
pub proof fn law_tags_are_asked_for(
    transport: &WasmOciTransport,
    reference: &OciReference,
    credentials: &OciCredentials,
    n: Option<usize>,
    last: Option<&str>,
    res: HttpRequest,
)
    requires
        call_ensures(
            WasmOciTransport::tags_request,
            (transport, reference, credentials, n, last),
            res,
        ),
    ensures
        res@.method == Method::Get,
        res@.body.len() == 0,
        is_authorized(res@, transport.bearer_tokens@, reference.repository@, *credentials),
        res@.url == repository_url(transport.protocol, reference.registry@, reference.repository@)
            + "/tags/list"@ + (match (n, last) {
            (None, None) => ""@,
            (Some(n), None) => "?n="@ + decimal(n as nat),
            (None, Some(l)) => "?last="@ + l@,
            (Some(n), Some(l)) => "?n="@ + decimal(n as nat) + "&last="@ + l@,
        }),
{
    lemma_base(transport.protocol, reference.registry@);
    lemma_page_query(
        n,
        match last {
            Some(l) => Some(l@),
            None => None,
        },
    );
    lemma_authorized(
        transport.bearer_tokens@,
        Method::Get,
        res@.url,
        *credentials,
        reference.repository@,
    );
}

/// A page of a list is asked for by the number of its entries and the last one known, as far as they are given.
proof fn lemma_page_query(n: Option<usize>, last: Option<Seq<char>>)
    ensures
        page_query(n, last) == (match (n, last) {
            (None, None) => ""@,
            (Some(n), None) => "?n="@ + decimal(n as nat),
            (None, Some(l)) => "?last="@ + l,
            (Some(n), Some(l)) => "?n="@ + decimal(n as nat) + "&last="@ + l,
        }),
{
    reveal_strlit("");
    reveal_strlit("last=");
    reveal_strlit("?last=");
    reveal_strlit("&last=");
    assert(""@ =~= Seq::<char>::empty());
    if let Some(l) = last {
        match n {
            Some(n) => {
                assert(page_query(Some(n), last) =~= "?n="@ + decimal(n as nat) + "&last="@ + l);
            },
            None => {
                assert(page_query(None, last) =~= "?last="@ + l);
            },
        }
    }
}

/// The manifest of an image is asked for under its tag, with the authorization of the repository, and only as an OCI
/// image manifest.
pub proof fn law_manifest_is_asked_for(
    transport: &WasmOciTransport,
    reference: &OciReference,
    credentials: &OciCredentials,
    res: HttpRequest,
)
    requires
        call_ensures(WasmOciTransport::manifest_request, (transport, reference, credentials), res),
    ensures
        res@.method == Method::Get,
        res@.body.len() == 0,
        is_authorized(res@, transport.bearer_tokens@, reference.repository@, *credentials),
        has_only(res@, "Accept"@, "application/vnd.oci.image.manifest.v1+json"@),
        res@.url == repository_url(transport.protocol, reference.registry@, reference.repository@)
            + "/manifests/"@ + reference.tag@,
{
    lemma_base(transport.protocol, reference.registry@);
    reveal_strlit("Accept");
    reveal_strlit("Authorization");
    assert("Accept"@.len() != "Authorization"@.len());
    let plain = authorized(
        transport.bearer_tokens@,
        Method::Get,
        transport.resource_url(*reference, "/manifests/"@ + reference.tag@),
        *credentials,
        reference.repository@,
    );
    let accept = ("Accept"@, "application/vnd.oci.image.manifest.v1+json"@);
    lemma_authorized(
        transport.bearer_tokens@,
        Method::Get,
        plain.url,
        *credentials,
        reference.repository@,
    );
    lemma_still_authorized(
        plain,
        transport.bearer_tokens@,
        reference.repository@,
        *credentials,
        accept,
        plain.body,
    );
    assert(res@ =~= HttpRequestView { headers: plain.headers.push(accept), ..plain });
    assert(res@.headers[plain.headers.len() as int] == accept);
    assert forall|i: int| 0 <= i < res@.headers.len() && (#[trigger] res@.headers[i]).0 == "Accept"@ implies res@.headers[i].1
        == accept.1 by {
        if i < plain.headers.len() {
            assert(res@.headers[i] == plain.headers[i]);
        }
    }
    assert(res@.url =~= repository_url(
        transport.protocol,
        reference.registry@,
        reference.repository@,
    ) + "/manifests/"@ + reference.tag@);
}

/// A blob is asked for under its digest, with the authorization of the repository.
pub proof fn law_blob_is_asked_for(
    transport: &WasmOciTransport,
    reference: &OciReference,
    credentials: &OciCredentials,
    digest: &str,
    res: HttpRequest,
)
    requires
        call_ensures(
            WasmOciTransport::blob_request,
            (transport, reference, credentials, digest),
            res,
        ),
    ensures
        res@.method == Method::Get,
        res@.body.len() == 0,
        is_authorized(res@, transport.bearer_tokens@, reference.repository@, *credentials),
        res@.url == repository_url(transport.protocol, reference.registry@, reference.repository@)
            + "/blobs/"@ + digest@,
{
    lemma_base(transport.protocol, reference.registry@);
    lemma_authorized(
        transport.bearer_tokens@,
        Method::Get,
        res@.url,
        *credentials,
        reference.repository@,
    );
    assert(res@.url =~= repository_url(
        transport.protocol,
        reference.registry@,
        reference.repository@,
    ) + "/blobs/"@ + digest@);
}

/// The repositories of a registry are asked for at `/v2/_catalog`. A cursor without a slash goes into the query as it
/// was given; in any other its slashes are encoded.
pub proof fn law_catalog_is_asked_for(
    transport: &WasmOciTransport,
    registry: &str,
    credentials: &OciCredentials,
    n: Option<usize>,
    last: Option<&str>,
    res: HttpRequest,
)
    requires
        call_ensures(
            WasmOciTransport::catalog_request,
            (transport, registry, credentials, n, last),
            res,
        ),
    ensures
        res@.method == Method::Get,
        res@.body.len() == 0,
        is_authorized(res@, transport.bearer_tokens@, Seq::empty(), *credentials),
        res@.url == repository_url(transport.protocol, registry@, "_catalog"@) + (match (n, last) {
            (None, None) => ""@,
            (Some(n), None) => "?n="@ + decimal(n as nat),
            (None, Some(l)) => "?last="@ + percent_slashes(l@),
            (Some(n), Some(l)) => "?n="@ + decimal(n as nat) + "&last="@ + percent_slashes(l@),
        }),
        last matches Some(l) ==> (!l@.contains('/') ==> l@.is_suffix_of(res@.url)),
{
    reveal_strlit("_catalog");
    reveal_strlit("/v2/");
    reveal_strlit("/v2/_catalog");
    assert("/v2/"@ + "_catalog"@ =~= "/v2/_catalog"@);
    lemma_base(transport.protocol, registry@);
    let front = base(transport.protocol, registry@);
    assert(front + "/v2/"@ + "_catalog"@ =~= front + "/v2/_catalog"@);
    lemma_page_query(
        n,
        match last {
            Some(l) => Some(percent_slashes(l@)),
            None => None,
        },
    );
    lemma_authorized(transport.bearer_tokens@, Method::Get, res@.url, *credentials, Seq::empty());
    if let Some(l) = last {
        if !l@.contains('/') {
            lemma_without_slashes(l@);
            let k = res@.url.len() - l@.len();
            assert(res@.url =~= res@.url.take(k) + l@);
        }
    }
}

/// A response that is no success stands for an error: the package is not found where the code is 404, and else the
/// registry is at fault, and the status is told.
pub proof fn law_failed_response_is_an_error(status: &Status, action: &str, res: Error)
    requires
        call_ensures(oci_error_from_status, (status, action), res),
    ensures
        res@ is PackageNotFound <==> status.code == 404,
        status.code != 404 ==> res@ == ErrorView::RegistryError(
            "HTTP "@ + status.text@ + " while "@ + action@,
        ),
{
}

/// The tags, the manifest and the blob of a response are those of its body, exactly where it is a success and its
/// body could be read. A manifest comes with the digest that the response names. A response with the code 404 says
/// that there is no such package.
pub proof fn law_bodies_are_taken(
    status: &Status,
    tags_body: Result<Option<Vec<String>>, String>,
    tags: Result<TagList, Error>,
    digest: &HeaderText,
    layers: Result<Vec<OciLayerDescriptor>, String>,
    manifest: Result<(OciManifest, String), Error>,
    data: Result<Vec<u8>, String>,
    blob: Result<Vec<u8>, Error>,
)
    requires
        call_ensures(tags_result, (status, tags_body), tags),
        call_ensures(manifest_result, (status, digest, layers), manifest),
        call_ensures(blob_result, (status, data), blob),
    ensures
        tags is Ok <==> 200 <= status.code <= 299 && tags_body is Ok,
        tags matches Ok(list) ==> list.tags@ == (match tags_body {
            Ok(Some(t)) => t@,
            _ => Seq::empty(),
        }),
        manifest is Ok <==> 200 <= status.code <= 299 && layers is Ok,
        manifest matches Ok(m) ==> layers == Ok::<Vec<OciLayerDescriptor>, String>(m.0.layers),
        manifest matches Ok(m) ==> (digest matches HeaderText::Readable(t) ==> m.1@ == t@),
        blob is Ok <==> 200 <= status.code <= 299 && data is Ok,
        blob matches Ok(b) ==> data == Ok::<Vec<u8>, String>(b),
        status.code == 404 ==> (tags matches Err(e) && e@ is PackageNotFound),
        status.code == 404 ==> (manifest matches Err(e) && e@ is PackageNotFound),
        status.code == 404 ==> (blob matches Err(e) && e@ is PackageNotFound),
        200 <= status.code <= 299 ==> (tags_body matches Err(t) ==> (tags matches Err(e) && e@
            == ErrorView::RegistryError(t@))),
        200 <= status.code <= 299 ==> (layers matches Err(t) ==> (manifest matches Err(e) && e@
            == ErrorView::RegistryError(t@))),
        200 <= status.code <= 299 ==> (data matches Err(t) ==> (blob matches Err(e) && e@
            == ErrorView::RegistryError(t@))),
        status.code != 404 && !(200 <= status.code <= 299) ==> {
            &&& tags matches Err(e) && e@ == ErrorView::RegistryError(
                "HTTP "@ + status.text@ + " while "@ + "listing tags"@,
            )
            &&& manifest matches Err(e) && e@ == ErrorView::RegistryError(
                "HTTP "@ + status.text@ + " while "@ + "pulling manifest"@,
            )
            &&& blob matches Err(e) && e@ == ErrorView::RegistryError(
                "HTTP "@ + status.text@ + " while "@ + "pulling blob"@,
            )
        },
        manifest matches Ok(m) ==> (!(digest is Readable) ==> m.1@.len() == 0),
{
    if let Ok(list) = tags {
        if let Ok(None) = tags_body {
            assert(list.tags@ =~= Seq::empty());
        }
    }
}

/// A page of the catalog has the repositories of its body, exactly where the response is a success and its body could
/// be read. Without a `Link` header it is the last page.
pub proof fn law_page_is_taken(
    status: &Status,
    registry: &str,
    link: &HeaderText,
    body: Result<Vec<String>, String>,
    res: Result<CatalogPage, Error>,
)
    requires
        call_ensures(catalog_result, (status, registry, link, body), res),
    ensures
        res is Ok <==> 200 <= status.code <= 299 && body is Ok,
        res matches Ok(page) ==> body == Ok::<Vec<String>, String>(page.repositories),
        res matches Ok(page) ==> (link is Absent || link is Unreadable ==> page.next_last is None),
        !(200 <= status.code <= 299) ==> (res matches Err(e) && e@ == ErrorView::RegistryError(
            "HTTP "@ + status.text@ + " from /v2/_catalog on "@ + registry@,
        )),
        200 <= status.code <= 299 ==> (body matches Err(t) ==> (res matches Err(e) && e@
            == ErrorView::RegistryError(t@))),
{
}

/// A `Link` header that names a cursor leads to the page behind it: the cursor that is read from the header is the one
/// that was written into it, whatever parameters stand before it under other names and behind it.
pub proof fn law_cursor_leads_to_the_next_page(
    status: &Status,
    registry: &str,
    link: &HeaderText,
    body: Result<Vec<String>, String>,
    res: Result<CatalogPage, Error>,
    front: Seq<char>,
    path: Seq<char>,
    params: Seq<Seq<char>>,
    at: int,
    last: Seq<char>,
    rest: Seq<char>,
)
    requires
        call_ensures(catalog_result, (status, registry, link, body), res),
        !front.contains('<'),
        !front.contains('>'),
        link matches HeaderText::Readable(t) && t@ == front + seq!['<'] + (path + seq!['?'] + joined(params, '&'))
            + seq!['>'] + rest,
        !path.contains('>'),
        !path.contains('?'),
        forall|i: int| 0 <= i < params.len() ==> is_link_param(#[trigger] params[i]),
        0 <= at < params.len(),
        params[at] == "last="@ + last,
        forall|i: int| 0 <= i < at ==> !"last="@.is_prefix_of(#[trigger] params[i]),
    ensures
        res matches Ok(page) ==> (page.next_last matches Some(cursor) && cursor@ == last),
{
    lemma_query_is_joined(params);
    assert(path + seq!['?'] + joined(params, '&') =~= path.push('?') + joined(params, '&'));
    reveal_strlit("last=");
    reveal_strlit("last");
    assert forall|i: int| 0 <= i < at implies !is_named(#[trigger] params[i], "last"@) by {
        let param = params[i];
        law_cut_at_the_first(param, '=');
        if let Some((k, v)) = split_once(param, '=') {
            if k == "last"@ {
                assert(param =~= "last="@ + v);
                assert("last="@.is_prefix_of(param));
            }
        }
    }
    law_link_reads_back(path, params, at, last, rest);
    let url = path.push('?') + joined(params, '&');
    lemma_front_of_link(front, url, rest);
}

/// What stands before the first opening bracket does not matter.
proof fn lemma_front_of_link(front: Seq<char>, url: Seq<char>, rest: Seq<char>)
    requires
        !front.contains('<'),
        !front.contains('>'),
        link_target(seq!['<'] + url + seq!['>'] + rest) == Some(url),
    ensures
        link_target(front + seq!['<'] + url + seq!['>'] + rest) == Some(url),
{
    let link = seq!['<'] + url + seq!['>'] + rest;
    let whole = front + seq!['<'] + url + seq!['>'] + rest;
    assert(whole =~= front + link);
    let n = front.len() as int;
    lemma_position(link, '<');
    lemma_position(link, '>');
    let a = position(link, '<');
    let b = position(link, '>');
    assert forall|i: int| 0 <= i < n implies whole[i] != '<' && whole[i] != '>' by {
        assert(whole[i] == front[i]);
        assert(front.contains(front[i]));
    }
    assert forall|i: int| n <= i < whole.len() implies #[trigger] whole[i] == link[i - n] by {
    }
    lemma_position_unique(whole, '<', n + a);
    lemma_position_unique(whole, '>', n + b);
    assert(whole.subrange(n + a + 1, n + b) =~= link.subrange(a + 1, b));
}

/// The query of a URL is what its parameters make when they are joined.
proof fn lemma_query_is_joined(params: Seq<Seq<char>>)
    ensures
        crate::oci::challenge::query_text(params) == joined(params, '&'),
    decreases params.len(),
{
    if params.len() > 1 {
        lemma_query_is_joined(params.drop_first());
    }
}

/// A new connection has the protocol and no tokens.
pub proof fn law_new_connection(protocol: OciProtocol, res: WasmOciTransport)
    requires
        call_ensures(WasmOciTransport::new, (protocol,), res),
    ensures
        res.protocol == protocol,
        forall|repository: Seq<char>| !#[trigger] res.bearer_tokens@.contains_key(repository),
{
}

} // verus!
