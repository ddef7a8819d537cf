//! Exchanging credentials for a bearer token.

use vstd::prelude::*;

use crate::error::Error;
use crate::error::ErrorView;
use crate::http::bare_request;
use crate::http::is_success;
use crate::http::HttpRequest;
use crate::http::HttpRequestView;
use crate::http::Method;
use crate::http::Status;
use crate::oci::challenge::challenge_of;
use crate::oci::challenge::parse_www_authenticate;
use crate::oci::transport::OciCredentials;
use crate::oci::transport::OciOperation;
use crate::oci::transport::OciReference;
use crate::text::contains_char;
use crate::text::joined;
use crate::text::lemma_joined_push;
use crate::text::pair_texts;
use crate::text::same_text;

verus! {

/// The Base64 form of the UTF-8 bytes of the text, with the standard alphabet and padding, as
/// `base64::engine::general_purpose::STANDARD` encodes it.
pub uninterp spec fn base64_text(text: Seq<char>) -> Seq<char>;

/// `base64::Engine::encode` with the engine `base64::engine::general_purpose::STANDARD`. What it
/// returns is named, not spelt out.
#[verifier::external_body]
fn base64_encode(text: &str) -> (res: String)
    ensures
        res@ == base64_text(text@),
{
    base64::Engine::encode(&base64::engine::general_purpose::STANDARD, text)
}

/// The value of an `Authorization` header that carries a user name and a password.
pub open spec fn basic(user: Seq<char>, password: Seq<char>) -> Seq<char> {
    "Basic "@ + base64_text(user + ":"@ + password)
}

/// Writes the value of an `Authorization` header that carries encoded credentials.
pub fn encoded_authorization(encoded: &str) -> (res: String)
    ensures
        res@ == "Basic "@ + encoded@,
{
    let mut value = "Basic ".to_string();
    value.append(encoded);
    value
}

/// Writes the value of an `Authorization` header that carries a user name and a password.
pub fn basic_authorization(user: &str, password: &str) -> (res: String)
    ensures
        res@ == basic(user@, password@),
{
    let mut pair = user.to_string();
    pair.append(":");
    pair.append(password);
    encoded_authorization(base64_encode(pair.as_str()).as_str())
}

/// The headers that carry the credentials by themselves, without a token.
pub open spec fn credential_headers(credentials: OciCredentials) -> Seq<(Seq<char>, Seq<char>)> {
    match credentials {
        OciCredentials::Anonymous => Seq::empty(),
        OciCredentials::Basic(user, password) => seq![("Authorization"@, basic(user@, password@))],
    }
}

/// The actions that a token is asked for.
pub open spec fn actions(operation: OciOperation) -> Seq<char> {
    match operation {
        OciOperation::Pull => "pull"@,
        OciOperation::Push => "push,pull"@,
    }
}

/// The scope of a token for an operation on a repository.
pub open spec fn scope(repository: Seq<char>, operation: OciOperation) -> Seq<char> {
    "repository:"@ + repository + ":"@ + actions(operation)
}

/// The place of the first parameter named `scope`, or the number of parameters where there is none.
pub open spec fn scope_place(params: Seq<(Seq<char>, Seq<char>)>) -> int
    decreases params.len(),
{
    if params.len() == 0 || params[0].0 == "scope"@ {
        0
    } else {
        1 + scope_place(params.drop_first())
    }
}

/// The parameters with the given scope, which replaces the first one that they have or else is added
/// behind them.
pub open spec fn with_scope(params: Seq<(Seq<char>, Seq<char>)>, scope: Seq<char>) -> Seq<
    (Seq<char>, Seq<char>),
> {
    let p = scope_place(params);
    if p < params.len() {
        params.update(p, ("scope"@, scope))
    } else {
        params.push(("scope"@, scope))
    }
}

/// The parameters as the query of a URL. `continued` says whether the URL has a query before them.
pub open spec fn query_text(params: Seq<(Seq<char>, Seq<char>)>, continued: bool) -> Seq<char>
    decreases params.len(),
{
    if params.len() == 0 {
        Seq::empty()
    } else {
        let mark = if params.len() == 1 && !continued {
            '?'
        } else {
            '&'
        };
        (query_text(params.drop_last(), continued).push(mark) + params.last().0).push('=')
            + params.last().1
    }
}

/// The URL of the token endpoint with its parameters.
pub open spec fn token_url(realm: Seq<char>, params: Seq<(Seq<char>, Seq<char>)>) -> Seq<char> {
    realm + query_text(params, realm.contains('?'))
}

/// The request for a token that answers a challenge.
pub open spec fn token_request_of(
    challenge: (Seq<char>, Seq<(Seq<char>, Seq<char>)>),
    credentials: OciCredentials,
    repository: Seq<char>,
    operation: OciOperation,
) -> HttpRequestView {
    HttpRequestView {
        headers: credential_headers(credentials),
        ..bare_request(
            Method::Get,
            token_url(challenge.0, with_scope(challenge.1, scope(repository, operation))),
        )
    }
}

/// The place is that of the first parameter named `scope`.
pub proof fn lemma_scope_place(params: Seq<(Seq<char>, Seq<char>)>)
    ensures
        0 <= scope_place(params) <= params.len(),
        forall|i: int| 0 <= i < scope_place(params) ==> (#[trigger] params[i]).0 != "scope"@,
        scope_place(params) < params.len() ==> params[scope_place(params)].0 == "scope"@,
    decreases params.len(),
{
    if params.len() > 0 && params[0].0 != "scope"@ {
        lemma_scope_place(params.drop_first());
        assert forall|i: int| 0 <= i < scope_place(params) implies (#[trigger] params[i]).0
            != "scope"@ by {
            if i > 0 {
                assert(params[i] == params.drop_first()[i - 1]);
            }
        }
    }
}

/// A token is asked for with the scope of the repository and the operation, whatever scope the
/// challenge names: it is the first scope among the parameters, and all others are as they were.
pub proof fn law_scope_is_the_repository(params: Seq<(Seq<char>, Seq<char>)>, scope: Seq<char>)
    ensures
        ({
            let asked = with_scope(params, scope);
            let p = scope_place(asked);
            &&& p == scope_place(params)
            &&& p < asked.len()
            &&& asked[p] == ("scope"@, scope)
            &&& forall|i: int|
                0 <= i < params.len() && i != p ==> (#[trigger] asked[i]) == params[i]
            &&& asked.len() == params.len() + (if p < params.len() {
                0nat
            } else {
                1nat
            })
        }),
{
    let asked = with_scope(params, scope);
    lemma_scope_place(params);
    lemma_scope_place(asked);
    let p = scope_place(params);
    let q = scope_place(asked);
    assert(asked[p].0 == "scope"@);
    if q < p {
        assert(asked[q] == params[q]);
    }
}

/// Gives the parameters the scope.
fn set_scope(params: Vec<(String, String)>, scope: String) -> (res: Vec<(String, String)>)
    ensures
        pair_texts(res@) == with_scope(pair_texts(params@), scope@),
{
    let mut params = params;
    let ghost before = params@;
    let ghost all = pair_texts(params@);
    let ghost s = scope@;
    let mut i: usize = 0;
    while i < params.len() && !same_text(params[i].0.as_str(), "scope")
        invariant
            i <= params.len(),
            params@ == before,
            all == pair_texts(before),
            forall|j: int| 0 <= j < i ==> (#[trigger] all[j]).0 != "scope"@,
        decreases params.len() - i,
    {
        assert(all[i as int].0 == params@[i as int].0@);
        i += 1;
    }
    proof {
        lemma_scope_place(all);
        let p = scope_place(all);
        if p < i {
            assert(all[p].0 != "scope"@);
        }
        if i < all.len() {
            assert(all[i as int].0 == params@[i as int].0@);
        }
    }
    if i < params.len() {
        params.set(i, ("scope".to_string(), scope));
        assert(pair_texts(params@) =~= all.update(i as int, ("scope"@, s)));
    } else {
        params.push(("scope".to_string(), scope));
        assert(pair_texts(params@) =~= all.push(("scope"@, s)));
    }
    params
}

/// Writes the URL of the token endpoint with its parameters.
fn write_token_url(realm: &str, params: &Vec<(String, String)>) -> (res: String)
    ensures
        res@ == token_url(realm@, pair_texts(params@)),
{
    let continued = contains_char(realm, '?');
    let ghost all = pair_texts(params@);
    let mut url = realm.to_string();
    let mut i: usize = 0;
    assert(all.take(0) =~= Seq::<(Seq<char>, Seq<char>)>::empty());
    assert(realm@ + query_text(all.take(0), continued) =~= realm@);
    while i < params.len()
        invariant
            i <= params.len(),
            all == pair_texts(params@),
            url@ == realm@ + query_text(all.take(i as int), continued),
        decreases params.len() - i,
    {
        let mark: char = if i == 0 && !continued {
            '?'
        } else {
            '&'
        };
        url.push(mark);
        url.append(params[i].0.as_str());
        url.push('=');
        url.append(params[i].1.as_str());
        proof {
            let now = all.take(i + 1);
            assert(now.drop_last() =~= all.take(i as int));
            assert(now.last() == all[i as int]);
            let q = query_text(all.take(i as int), continued);
            assert((((realm@ + q).push(mark) + all[i as int].0).push('=') + all[i as int].1)
                =~= realm@ + ((q.push(mark) + all[i as int].0).push('=') + all[i as int].1));
        }
        i += 1;
    }
    assert(all.take(i as int) =~= all);
    url
}

/// The request for a token that answers the challenge in a `WWW-Authenticate` header. The scope of
/// the challenge is replaced: some registries name a placeholder there, for which no token is given.
pub fn token_request(
    www_authenticate: &str,
    credentials: &OciCredentials,
    reference: &OciReference,
    operation: OciOperation,
) -> (res: Result<HttpRequest, Error>)
    ensures
        match (res, challenge_of(www_authenticate@)) {
            (Ok(r), Ok(c)) => r@ == token_request_of(
                c,
                *credentials,
                reference.repository@,
                operation,
            ),
            (Err(e), Err(v)) => e@ == v,
            _ => false,
        },
{
    let (realm, params) = match parse_www_authenticate(www_authenticate) {
        Ok(c) => c,
        Err(e) => {
            return Err(e);
        },
    };
    Ok(token_request_for(realm.as_str(), params, credentials, reference, operation))
}

/// The request for a token at the realm of a challenge with the other parameters of it.
pub fn token_request_for(
    realm: &str,
    params: Vec<(String, String)>,
    credentials: &OciCredentials,
    reference: &OciReference,
    operation: OciOperation,
) -> (res: HttpRequest)
    ensures
        res@ == token_request_of(
            (realm@, pair_texts(params@)),
            *credentials,
            reference.repository@,
            operation,
        ),
{
    let mut wanted = "repository:".to_string();
    wanted.append(reference.repository.as_str());
    wanted.append(":");
    wanted.append(
        match operation {
            OciOperation::Pull => "pull",
            OciOperation::Push => "push,pull",
        },
    );
    let params = set_scope(params, wanted);
    let mut req = HttpRequest::new(Method::Get, write_token_url(realm, &params));
    if let OciCredentials::Basic(user, password) = credentials {
        req.add_header(
            "Authorization",
            basic_authorization(user.as_str(), password.as_str()),
        );
    }
    assert(req@.headers =~= credential_headers(*credentials));
    req
}

/// The body of a response of a token endpoint.
#[derive(Debug)]
pub struct TokenResponse {
    pub token: Option<String>,
    pub access_token: Option<String>,
}

/// The token that a response of a token endpoint gives: the field `token`, or else the field
/// `access_token`.
pub fn token_from_response(status: &Status, body: Result<TokenResponse, String>) -> (res: Result<
    String,
    Error,
>)
    ensures
        if !is_success(status.code) {
            res matches Err(e) && e@ == ErrorView::RegistryError(
                "token endpoint returned HTTP "@ + status.text@,
            )
        } else {
            match body {
                Err(t) => res matches Err(e) && e@ == ErrorView::RegistryError(t@),
                Ok(b) => match (b.token, b.access_token) {
                    (Some(t), _) => res == Ok::<String, Error>(t),
                    (None, Some(t)) => res == Ok::<String, Error>(t),
                    (None, None) => res matches Err(e) && e@ == ErrorView::RegistryError(
                        "token response contained neither 'token' nor 'access_token'"@,
                    ),
                },
            }
        },
{
    if !status.is_success() {
        let mut text = "token endpoint returned HTTP ".to_string();
        text.append(status.text.as_str());
        return Err(Error::RegistryError(text));
    }
    match body {
        Err(t) => Err(Error::RegistryError(t)),
        Ok(b) => match (b.token, b.access_token) {
            (Some(t), _) => Ok(t),
            (None, Some(t)) => Ok(t),
            (None, None) => Err(
                Error::RegistryError(
                    "token response contained neither 'token' nor 'access_token'".to_string(),
                ),
            ),
        },
    }
}

// ---------------------------------------------------------------------------
// Laws
// ---------------------------------------------------------------------------

/// The scope of a token starts with the word `repository`, a colon, the whole name of the repository and another
/// colon. What is left are the actions: pulling, or else pushing and pulling. Different repositories and different
/// operations have different scopes.
pub proof fn law_scope_names_repository_and_actions(
    repository: Seq<char>,
    other: Seq<char>,
    operation: OciOperation,
    another: OciOperation,
)
    ensures
        scope(repository, operation) == "repository:"@ + repository + (match operation {
            OciOperation::Pull => ":pull"@,
            OciOperation::Push => ":push,pull"@,
        }),
        scope(repository, operation) == scope(other, operation) ==> repository == other,
        scope(repository, operation) == scope(repository, another) ==> operation == another,
{
    reveal_strlit(":");
    reveal_strlit("pull");
    reveal_strlit(":pull");
    reveal_strlit("push,pull");
    reveal_strlit(":push,pull");
    reveal_strlit("repository:");
    let a = scope(repository, operation);
    let b = scope(other, operation);
    match operation {
        OciOperation::Pull => {
            assert(a =~= "repository:"@ + repository + ":pull"@);
        },
        OciOperation::Push => {
            assert(a =~= "repository:"@ + repository + ":push,pull"@);
        },
    }
    if a == b {
        assert(a.len() == b.len());
        assert forall|i: int| 0 <= i < repository.len() implies repository[i] == other[i] by {
            assert(a[i + 11] == repository[i]);
            assert(b[i + 11] == other[i]);
        }
        assert(repository =~= other);
    }
    if a == scope(repository, another) && operation != another {
        assert(a.len() != scope(repository, another).len());
    }
}

/// Whether the URL is the one that asks at the realm with the parameters: each is written as `name=value`, the
/// first behind a question mark, or an ampersand where the realm has one, and the others behind ampersands.
pub open spec fn asks_with(
    url: Seq<char>,
    realm: Seq<char>,
    params: Seq<(Seq<char>, Seq<char>)>,
) -> bool {
    url == realm.push(
        if realm.contains('?') {
            '&'
        } else {
            '?'
        },
    ) + joined(Seq::new(params.len(), |i: int| params[i].0.push('=') + params[i].1), '&')
}

/// Whether the parameters are the given ones with another scope: the first one that they have is replaced, or else
/// there is one more behind them.
pub open spec fn has_its_scope(
    asked: Seq<(Seq<char>, Seq<char>)>,
    params: Seq<(Seq<char>, Seq<char>)>,
    wanted: Seq<char>,
) -> bool {
    &&& (forall|i: int| 0 <= i < params.len() ==> (#[trigger] params[i]).0 != "scope"@) ==> asked
        == params.push(("scope"@, wanted))
    &&& forall|p: int|
        0 <= p < params.len() && (#[trigger] params[p]).0 == "scope"@ && (forall|i: int|
            0 <= i < p ==> (#[trigger] params[i]).0 != "scope"@) ==> asked == params.update(
            p,
            ("scope"@, wanted),
        )
}

/// The scope has its place among the parameters.
proof fn lemma_has_its_scope(params: Seq<(Seq<char>, Seq<char>)>, wanted: Seq<char>)
    ensures
        has_its_scope(with_scope(params, wanted), params, wanted),
{
    lemma_scope_place(params);
    let q = scope_place(params);
    assert forall|p: int|
        0 <= p < params.len() && (#[trigger] params[p]).0 == "scope"@ && (forall|i: int|
            0 <= i < p ==> (#[trigger] params[i]).0 != "scope"@) implies with_scope(params, wanted)
        == params.update(p, ("scope"@, wanted)) by {
        if q < p {
            assert(params[q].0 != "scope"@);
        } else if p < q {
            assert(params[p].0 != "scope"@);
        }
    }
    if q < params.len() {
        assert(params[q].0 == "scope"@);
    }
}

/// The query of the URL of a token endpoint is what the parameters make when they are joined.
proof fn lemma_query_joined(params: Seq<(Seq<char>, Seq<char>)>, continued: bool)
    requires
        params.len() > 0,
    ensures
        query_text(params, continued) == seq![
            if continued {
                '&'
            } else {
                '?'
            },
        ] + joined(Seq::new(params.len(), |i: int| params[i].0.push('=') + params[i].1), '&'),
    decreases params.len(),
{
    let mark = if continued {
        '&'
    } else {
        '?'
    };
    let all = Seq::new(params.len(), |i: int| params[i].0.push('=') + params[i].1);
    let rest = params.drop_last();
    let before = Seq::new(rest.len(), |i: int| rest[i].0.push('=') + rest[i].1);
    let last = params.last().0.push('=') + params.last().1;
    assert(all =~= before.push(last));
    lemma_joined_push(before, last, '&');
    if rest.len() == 0 {
        assert(query_text(rest, continued) =~= Seq::<char>::empty());
        assert(query_text(params, continued) =~= seq![mark] + last);
    } else {
        lemma_query_joined(rest, continued);
        assert(query_text(params, continued) =~= (seq![mark] + joined(before, '&')).push('&') + last);
        assert((seq![mark] + joined(before, '&')).push('&') + last =~= seq![mark] + (joined(
            before,
            '&',
        ).push('&') + last));
    }
}

/// The request for a token that `token_request_for` makes asks at the realm with the parameters of the challenge, but
/// for the scope, which is that of the repository and the operation. It carries the user name and the password,
/// where there are any, and nothing else.
pub proof fn law_token_is_asked_for_the_repository(
    realm: &str,
    params: Vec<(String, String)>,
    credentials: &OciCredentials,
    reference: &OciReference,
    operation: OciOperation,
    res: HttpRequest,
)
    requires
        call_ensures(token_request_for, (realm, params, credentials, reference, operation), res),
    ensures
        res@.method == Method::Get,
        res@.body.len() == 0,
        exists|asked: Seq<(Seq<char>, Seq<char>)>| #[trigger]
            asks_with(res@.url, realm@, asked) && has_its_scope(
                asked,
                pair_texts(params@),
                "repository:"@ + reference.repository@ + (match operation {
                    OciOperation::Pull => ":pull"@,
                    OciOperation::Push => ":push,pull"@,
                }),
            ),
        match credentials {
            OciCredentials::Anonymous => res@.headers.len() == 0,
            OciCredentials::Basic(user, password) => res@.headers == seq![
                ("Authorization"@, "Basic "@ + base64_text(user@ + ":"@ + password@)),
            ],
        },
{
    law_token_request_of((realm@, pair_texts(params@)), *credentials, reference.repository@, operation);
}

/// The request for a token asks at the realm of the challenge with its parameters, but for the scope, which is that
/// of the repository and the operation.
pub proof fn law_token_request_of(
    challenge: (Seq<char>, Seq<(Seq<char>, Seq<char>)>),
    credentials: OciCredentials,
    repository: Seq<char>,
    operation: OciOperation,
)
    ensures
        ({
            let req = token_request_of(challenge, credentials, repository, operation);
            &&& req.method == Method::Get
            &&& req.body.len() == 0
            &&& challenge.0.is_prefix_of(req.url)
            &&& exists|asked: Seq<(Seq<char>, Seq<char>)>| #[trigger]
                asks_with(req.url, challenge.0, asked) && has_its_scope(
                    asked,
                    challenge.1,
                    "repository:"@ + repository + (match operation {
                        OciOperation::Pull => ":pull"@,
                        OciOperation::Push => ":push,pull"@,
                    }),
                )
            &&& match credentials {
                OciCredentials::Anonymous => req.headers.len() == 0,
                OciCredentials::Basic(user, password) => req.headers == seq![
                    ("Authorization"@, "Basic "@ + base64_text(user@ + ":"@ + password@)),
                ],
            }
        }),
{
    let (realm, params) = challenge;
    let wanted = scope(repository, operation);
    law_scope_names_repository_and_actions(repository, repository, operation, operation);
    let asked = with_scope(params, wanted);
    lemma_scope_place(params);
    lemma_has_its_scope(params, wanted);
    lemma_query_joined(asked, realm.contains('?'));
    let req = token_request_of(challenge, credentials, repository, operation);
    let mark = if realm.contains('?') {
        '&'
    } else {
        '?'
    };
    let query = joined(Seq::new(asked.len(), |i: int| asked[i].0.push('=') + asked[i].1), '&');
    assert(req.url == realm + (seq![mark] + query));
    assert(realm + (seq![mark] + query) =~= realm.push(mark) + query);
    assert(asks_with(req.url, realm, asked));
}

/// A response of a token endpoint gives a token exactly if it is a success and its body has one. The field `token`
/// comes first.
pub proof fn law_token_is_taken_from_the_body(
    status: &Status,
    body: Result<TokenResponse, String>,
    res: Result<String, Error>,
)
    requires
        call_ensures(token_from_response, (status, body), res),
    ensures
        res is Ok <==> 200 <= status.code <= 299 && (body matches Ok(b) && (b.token is Some
            || b.access_token is Some)),
        res matches Ok(token) ==> (body matches Ok(b) ==> if b.token is Some {
            b.token == Some(token)
        } else {
            b.access_token == Some(token)
        }),
        res matches Err(e) ==> e@ == ErrorView::RegistryError(
            if !(200 <= status.code <= 299) {
                "token endpoint returned HTTP "@ + status.text@
            } else {
                match body {
                    Err(t) => t@,
                    Ok(_) => "token response contained neither 'token' nor 'access_token'"@,
                }
            },
        ),
{
}

/// A header is answered with a request for a token exactly if it holds a challenge, at the realm of that challenge.
pub proof fn law_header_is_answered(
    www_authenticate: &str,
    credentials: &OciCredentials,
    reference: &OciReference,
    operation: OciOperation,
    res: Result<HttpRequest, Error>,
)
    requires
        call_ensures(token_request, (www_authenticate, credentials, reference, operation), res),
    ensures
        res is Ok <==> challenge_of(www_authenticate@) is Ok,
        res matches Ok(req) ==> {
            let challenge = challenge_of(www_authenticate@)->Ok_0;
            &&& req@.method == Method::Get
            &&& challenge.0.is_prefix_of(req@.url)
            &&& exists|asked: Seq<(Seq<char>, Seq<char>)>| #[trigger]
                asks_with(req@.url, challenge.0, asked) && has_its_scope(
                    asked,
                    challenge.1,
                    "repository:"@ + reference.repository@ + (match operation {
                        OciOperation::Pull => ":pull"@,
                        OciOperation::Push => ":push,pull"@,
                    }),
                )
        },
        res matches Err(e) ==> Err::<(Seq<char>, Seq<(Seq<char>, Seq<char>)>), ErrorView>(e@)
            == challenge_of(www_authenticate@),
{
    if let Ok(challenge) = challenge_of(www_authenticate@) {
        law_token_request_of(challenge, *credentials, reference.repository@, operation);
    }
}

/// A user name and a password are carried in the Base64 form of both with a colon between them.
pub proof fn law_basic_authorization(user: &str, password: &str, encoded: &str, a: String, b: String)
    requires
        call_ensures(basic_authorization, (user, password), a),
        call_ensures(encoded_authorization, (encoded,), b),
    ensures
        a@ == "Basic "@ + base64_text(user@ + ":"@ + password@),
        b@ == "Basic "@ + encoded@,
{
}

} // verus!
