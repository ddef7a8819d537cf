//! Fetching JSON documents that are not part of the OCI protocol.

use vstd::prelude::*;

use crate::error::Error;
use crate::error::ErrorView;
use crate::http::bare_request;
use crate::http::has_authorization;
use crate::http::has_only;
use crate::http::is_success;
use crate::http::HttpRequest;
use crate::http::HttpRequestView;
use crate::http::Method;
use crate::http::Status;
use crate::text::texts;

verus! {

/// The value of an `Authorization` header that carries a token.
pub open spec fn bearer(token: Seq<char>) -> Seq<char> {
    "Bearer "@ + token
}

/// The header that carries the token, where there is one.
pub open spec fn bearer_headers(token: Option<&str>) -> Seq<(Seq<char>, Seq<char>)> {
    match token {
        Some(t) => seq![("Authorization"@, bearer(t@))],
        None => Seq::empty(),
    }
}

/// What a response to a request for a JSON document amounts to.
#[derive(Clone, Copy, Debug, PartialEq, Eq, Structural)]
pub enum JsonReply {
    /// There is no such document.
    Missing,
    /// The server refused or failed to answer.
    Rejected,
    /// The body is the document.
    Document,
}

/// Fetches documents by a native HTTP client.
pub struct DefaultHttpClient;

impl DefaultHttpClient {
    /// The request for the document at the URL.
    pub fn request(&self, url: &str, bearer_token: Option<&str>) -> (res: HttpRequest)
        ensures
            res@ == (HttpRequestView {
                headers: bearer_headers(bearer_token),
                ..bare_request(Method::Get, url@)
            }),
    {
        let mut req = HttpRequest::new(Method::Get, url.to_string());
        add_bearer(&mut req, bearer_token);
        assert(Seq::<(Seq<char>, Seq<char>)>::empty() + bearer_headers(bearer_token)
            =~= bearer_headers(bearer_token));
        req
    }

    /// Reads the status of the response. Besides a missing document, the codes of client and server
    /// errors are rejected; every other response holds the document.
    pub fn reply(&self, status: &Status) -> (res: JsonReply)
        ensures
            res == (if status.code == 404 {
                JsonReply::Missing
            } else if 400 <= status.code < 600 {
                JsonReply::Rejected
            } else {
                JsonReply::Document
            }),
    {
        if status.code == 404 {
            JsonReply::Missing
        } else if 400 <= status.code && status.code < 600 {
            JsonReply::Rejected
        } else {
            JsonReply::Document
        }
    }
}

/// Adds the header that carries the token, where there is one.
fn add_bearer(req: &mut HttpRequest, bearer_token: Option<&str>)
    ensures
        final(req)@ == (HttpRequestView {
            headers: old(req)@.headers + bearer_headers(bearer_token),
            ..old(req)@
        }),
{
    let ghost before = req@;
    if let Some(token) = bearer_token {
        let mut value = "Bearer ".to_string();
        value.append(token);
        req.add_header("Authorization", value);
        assert(before.headers + bearer_headers(bearer_token) =~= before.headers.push(
            ("Authorization"@, bearer(token@)),
        ));
    } else {
        assert(before.headers + bearer_headers(bearer_token) =~= before.headers);
    }
}

/// Fetches documents as a component does.
pub struct WasmHttpClient;

impl WasmHttpClient {
    /// A client.
    pub fn new() -> (res: Self)
        ensures
            res == WasmHttpClient,
    {
        WasmHttpClient
    }

    /// The request for the document at the URL.
    pub fn request(&self, url: &str, bearer_token: Option<&str>) -> (res: HttpRequest)
        ensures
            res@ == (HttpRequestView {
                headers: seq![("Accept"@, "application/json"@)] + bearer_headers(bearer_token),
                ..bare_request(Method::Get, url@)
            }),
    {
        let mut req = HttpRequest::new(Method::Get, url.to_string());
        req.add_header("Accept", "application/json".to_string());
        assert(req@.headers =~= seq![("Accept"@, "application/json"@)]);
        add_bearer(&mut req, bearer_token);
        req
    }

    /// Reads the response to such a request: a missing document is no error, any other response than a
    /// success is one, and so is a body that could not be read, for which it is said why, and what caused
    /// that.
    pub fn result(
        &self,
        status: &Status,
        url: &str,
        body: Result<Vec<u8>, (String, Vec<String>)>,
    ) -> (res: Result<Option<Vec<u8>>, Error>)
        ensures
            if status.code == 404 {
                res == Ok::<Option<Vec<u8>>, Error>(None)
            } else if !is_success(status.code) {
                res matches Err(e) && e@ == ErrorView::RegistryMetadataError(
                    "HTTP "@ + status.text@ + " fetching "@ + url@,
                    Seq::empty(),
                )
            } else {
                match body {
                    Ok(b) => res == Ok::<Option<Vec<u8>>, Error>(Some(b)),
                    Err((t, causes)) => res matches Err(e) && e@ == ErrorView::RegistryMetadataError(
                        t@,
                        texts(causes@),
                    ),
                }
            },
    {
        if status.code == 404 {
            return Ok(None);
        }
        if !status.is_success() {
            let mut text = "HTTP ".to_string();
            text.append(status.text.as_str());
            text.append(" fetching ");
            text.append(url);
            let error = Error::RegistryMetadataError(text, Vec::new());
            assert(error@->RegistryMetadataError_1 =~= Seq::<Seq<char>>::empty());
            return Err(error);
        }
        match body {
            Ok(b) => Ok(Some(b)),
            Err((t, causes)) => Err(Error::RegistryMetadataError(t, causes)),
        }
    }
}

// ---------------------------------------------------------------------------
// Laws
// ---------------------------------------------------------------------------

/// A document is asked for at its URL. The token, where there is one, is the only authorization.
pub proof fn law_document_is_asked_for(
    native: &DefaultHttpClient,
    client: &WasmHttpClient,
    url: &str,
    token: Option<&str>,
    a: HttpRequest,
    b: HttpRequest,
)
    requires
        call_ensures(DefaultHttpClient::request, (native, url, token), a),
        call_ensures(WasmHttpClient::request, (client, url, token), b),
    ensures
        a@.method == Method::Get && b@.method == Method::Get,
        a@.url == url@ && b@.url == url@,
        a@.body.len() == 0 && b@.body.len() == 0,
        has_authorization(
            a@,
            match token {
                Some(t) => Some("Bearer "@ + t@),
                None => None,
            },
        ),
        has_authorization(
            b@,
            match token {
                Some(t) => Some("Bearer "@ + t@),
                None => None,
            },
        ),
        has_only(b@, "Accept"@, "application/json"@),
{
    reveal_strlit("Accept");
    reveal_strlit("Authorization");
    assert("Accept"@.len() != "Authorization"@.len());
    assert(b@.headers[0] == ("Accept"@, "application/json"@));
    if token is Some {
        assert(a@.headers[0].0 == "Authorization"@);
        assert(b@.headers[1].0 == "Authorization"@);
    }
}

/// A document is missing exactly where the code is 404. Every other code of a client or server error is a rejection.
pub proof fn law_reply_is_read(client: &DefaultHttpClient, status: &Status, res: JsonReply)
    requires
        call_ensures(DefaultHttpClient::reply, (client, status), res),
    ensures
        res == JsonReply::Missing <==> status.code == 404,
        res == JsonReply::Rejected <==> 400 <= status.code <= 599 && status.code != 404,
{
}

/// A document is that of the body, exactly where the response is a success whose body could be read. A missing document
/// is no error; anything else is one.
pub proof fn law_document_is_taken(
    client: &WasmHttpClient,
    status: &Status,
    url: &str,
    body: Result<Vec<u8>, (String, Vec<String>)>,
    res: Result<Option<Vec<u8>>, Error>,
)
    requires
        call_ensures(WasmHttpClient::result, (client, status, url, body), res),
    ensures
        res matches Ok(None) <==> status.code == 404,
        res matches Ok(Some(_)) <==> 200 <= status.code <= 299 && body is Ok,
        res matches Ok(Some(data)) ==> body == Ok::<Vec<u8>, (String, Vec<String>)>(data),
        status.code != 404 && !(200 <= status.code <= 299) ==> (res matches Err(e) && e@
            == ErrorView::RegistryMetadataError(
            "HTTP "@ + status.text@ + " fetching "@ + url@,
            Seq::empty(),
        )),
        200 <= status.code <= 299 ==> (body matches Err(b) ==> (res matches Err(e) && e@
            == ErrorView::RegistryMetadataError(b.0@, texts(b.1@)))),
{
}

} // verus!
