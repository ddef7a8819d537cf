//! Authentication against a registry.
//!
//! A registry is probed with the credentials at hand. Where it answers with a bearer challenge, a token
//! is fetched and kept for the repository. Where it refuses the credentials without such a challenge,
//! they may not be needed, and the registry is probed anew without them.

use vstd::prelude::*;
use vstd::utf8::is_ascii_chars;

use crate::error::Error;
use crate::error::ErrorView;
use crate::http::bare_request;
use crate::http::is_success;
use crate::http::HeaderText;
use crate::http::HttpRequest;
use crate::http::HttpRequestView;
use crate::http::Method;
use crate::http::Status;
use crate::http_client::bearer;
use crate::oci::challenge::are_tokens;
use crate::oci::challenge::challenge_of;
use crate::oci::challenge::challenge_text;
use crate::oci::challenge::is_bearer_challenge;
use crate::oci::challenge::law_bearer_challenge_is_read;
use crate::oci::challenge::law_written_challenge_is_read;
use crate::oci::token::asks_with;
use crate::oci::token::base64_text;
use crate::oci::token::credential_headers;
use crate::oci::token::has_its_scope;
use crate::oci::token::law_token_request_of;
use crate::oci::token::token_from_response;
use crate::oci::token::token_request;
use crate::oci::token::token_request_of;
use crate::oci::token::TokenResponse;
use crate::oci::transport::OciCredentials;
use crate::oci::transport::OciOperation;
use crate::oci::transport::OciReference;
use crate::oci::transport_wasm::authorization;
use crate::oci::transport_wasm::base;
use crate::oci::transport_wasm::WasmOciTransport;
use crate::oci::transport_wasm::lemma_base;
use crate::oci::transport_wasm::repository_url;
use crate::text::ascii_lower;
use crate::text::lower;

verus! {

/// What the request that was sent last is for.
#[derive(Debug, PartialEq)]
pub enum AuthState {
    /// It probes the registry with the credentials.
    Probing,
    /// It probes the registry without credentials.
    ProbingAnonymously,
    /// It exchanges these credentials for a token.
    Exchanging(OciCredentials),
}

/// What follows a step of the authentication.
#[derive(Debug, PartialEq)]
pub enum AuthAction {
    /// This request is to be sent, for this purpose.
    Send(AuthState, HttpRequest),
    /// The authentication ends with the credentials to be used from now on, or with an error.
    Finish(Result<OciCredentials, Error>),
}

/// The contents of an action.
pub enum AuthActionView {
    Send(AuthState, HttpRequestView),
    Finish(Result<OciCredentials, ErrorView>),
}

impl View for AuthAction {
    type V = AuthActionView;

    open spec fn view(&self) -> AuthActionView {
        match self {
            AuthAction::Send(state, req) => AuthActionView::Send(*state, req@),
            AuthAction::Finish(Ok(c)) => AuthActionView::Finish(Ok(*c)),
            AuthAction::Finish(Err(e)) => AuthActionView::Finish(Err(e@)),
        }
    }
}

/// Whether a header holds a bearer challenge.
pub open spec fn is_bearer(header: Seq<char>) -> bool {
    "bearer "@.is_prefix_of(lower(header))
}

/// The error that ends an authentication in which nothing was accepted.
pub open spec fn refused(registry: Seq<char>) -> AuthActionView {
    AuthActionView::Finish(
        Err(ErrorView::RegistryError("authentication failed for registry "@ + registry)),
    )
}

/// The answer to a bearer challenge.
pub open spec fn answer_to_challenge(
    header: Seq<char>,
    credentials: OciCredentials,
    reference: OciReference,
    operation: OciOperation,
) -> AuthActionView {
    match challenge_of(header) {
        Ok(c) => AuthActionView::Send(
            AuthState::Exchanging(credentials),
            token_request_of(c, credentials, reference.repository@, operation),
        ),
        Err(e) => AuthActionView::Finish(Err(e)),
    }
}

/// The URL at which a registry is probed.
pub open spec fn probe_url(transport: WasmOciTransport, registry: Seq<char>) -> Seq<char> {
    base(transport.protocol, registry) + "/v2/"@
}

/// What follows the response to a probe with the credentials.
pub open spec fn after_probe(
    transport: WasmOciTransport,
    reference: OciReference,
    credentials: OciCredentials,
    operation: OciOperation,
    status: Status,
    www_authenticate: HeaderText,
) -> AuthActionView {
    if is_success(status.code) {
        AuthActionView::Finish(Ok(credentials))
    } else if status.code != 401 {
        AuthActionView::Finish(
            Err(
                ErrorView::RegistryError(
                    "unexpected HTTP "@ + status.text@ + " from /v2/ endpoint"@,
                ),
            ),
        )
    } else {
        match www_authenticate {
            HeaderText::Unreadable(t) => AuthActionView::Finish(
                Err(ErrorView::RegistryError(t@)),
            ),
            HeaderText::Readable(h) if is_bearer(h@) => answer_to_challenge(
                h@,
                credentials,
                reference,
                operation,
            ),
            _ => if credentials is Anonymous {
                refused(reference.registry@)
            } else {
                AuthActionView::Send(
                    AuthState::ProbingAnonymously,
                    bare_request(Method::Get, probe_url(transport, reference.registry@)),
                )
            },
        }
    }
}

/// What follows the response to a probe without credentials.
pub open spec fn after_anonymous_probe(
    reference: OciReference,
    operation: OciOperation,
    status: Status,
    www_authenticate: HeaderText,
) -> AuthActionView {
    if is_success(status.code) {
        AuthActionView::Finish(Ok(OciCredentials::Anonymous))
    } else if status.code != 401 {
        refused(reference.registry@)
    } else {
        match www_authenticate {
            HeaderText::Unreadable(t) => AuthActionView::Finish(
                Err(ErrorView::RegistryError(t@)),
            ),
            HeaderText::Readable(h) if is_bearer(h@) => answer_to_challenge(
                h@,
                OciCredentials::Anonymous,
                reference,
                operation,
            ),
            _ => refused(reference.registry@),
        }
    }
}

/// Ends an authentication in which nothing was accepted.
fn refuse(registry: &str) -> (res: AuthAction)
    ensures
        res@ == refused(registry@),
{
    let mut text = "authentication failed for registry ".to_string();
    text.append(registry);
    AuthAction::Finish(Err(Error::RegistryError(text)))
}

/// Answers a bearer challenge.
fn answer_challenge(
    header: &str,
    credentials: &OciCredentials,
    reference: &OciReference,
    operation: OciOperation,
) -> (res: AuthAction)
    ensures
        res@ == answer_to_challenge(header@, *credentials, *reference, operation),
{
    match token_request(header, credentials, reference, operation) {
        Ok(req) => AuthAction::Send(AuthState::Exchanging(credentials.clone()), req),
        Err(e) => AuthAction::Finish(Err(e)),
    }
}

impl WasmOciTransport {
    /// Starts an authentication. With a token for the repository at hand there is nothing to do.
    pub fn begin_auth(&self, reference: &OciReference, credentials: &OciCredentials) -> (res:
        AuthAction)
        ensures
            res@ == (if self.bearer_tokens@.contains_key(reference.repository@) {
                AuthActionView::Finish(Ok(*credentials))
            } else {
                AuthActionView::Send(
                    AuthState::Probing,
                    HttpRequestView {
                        headers: credential_headers(*credentials),
                        ..bare_request(Method::Get, probe_url(*self, reference.registry@))
                    },
                )
            }),
    {
        if self.bearer_tokens.contains_key(reference.repository.as_str()) {
            return AuthAction::Finish(Ok(credentials.clone()));
        }
        let mut url = self.base_url(reference.registry.as_str());
        url.append("/v2/");
        let req = self.authorized_request(
            Method::Get,
            url,
            credentials,
            reference.repository.as_str(),
        );
        AuthAction::Send(AuthState::Probing, req)
    }

    /// Takes the response to a probe with the credentials.
    pub fn probed(
        &self,
        reference: &OciReference,
        credentials: &OciCredentials,
        operation: OciOperation,
        status: &Status,
        www_authenticate: &HeaderText,
    ) -> (res: AuthAction)
        ensures
            res@ == after_probe(
                *self,
                *reference,
                *credentials,
                operation,
                *status,
                *www_authenticate,
            ),
    {
        if status.is_success() {
            return AuthAction::Finish(Ok(credentials.clone()));
        }
        if status.code != 401 {
            let mut text = "unexpected HTTP ".to_string();
            text.append(status.text.as_str());
            text.append(" from /v2/ endpoint");
            return AuthAction::Finish(Err(Error::RegistryError(text)));
        }
        match www_authenticate {
            HeaderText::Unreadable(t) => {
                return AuthAction::Finish(Err(Error::RegistryError(t.clone())));
            },
            HeaderText::Readable(h) => {
                if is_bearer_challenge(h.as_str()) {
                    return answer_challenge(h.as_str(), credentials, reference, operation);
                }
            },
            HeaderText::Absent => {},
        }
        match credentials {
            OciCredentials::Anonymous => refuse(reference.registry.as_str()),
            OciCredentials::Basic(_, _) => {
                let mut url = self.base_url(reference.registry.as_str());
                url.append("/v2/");
                AuthAction::Send(
                    AuthState::ProbingAnonymously,
                    HttpRequest::new(Method::Get, url),
                )
            },
        }
    }

    /// Takes the response to a probe without credentials.
    pub fn probed_anonymously(
        &self,
        reference: &OciReference,
        operation: OciOperation,
        status: &Status,
        www_authenticate: &HeaderText,
    ) -> (res: AuthAction)
        ensures
            res@ == after_anonymous_probe(*reference, operation, *status, *www_authenticate),
    {
        if status.is_success() {
            return AuthAction::Finish(Ok(OciCredentials::Anonymous));
        }
        if status.code == 401 {
            match www_authenticate {
                HeaderText::Unreadable(t) => {
                    return AuthAction::Finish(Err(Error::RegistryError(t.clone())));
                },
                HeaderText::Readable(h) => {
                    if is_bearer_challenge(h.as_str()) {
                        return answer_challenge(
                            h.as_str(),
                            &OciCredentials::Anonymous,
                            reference,
                            operation,
                        );
                    }
                },
                HeaderText::Absent => {},
            }
        }
        refuse(reference.registry.as_str())
    }

    /// Takes the response of the token endpoint. A token is kept for the repository.
    pub fn exchanged(
        &mut self,
        reference: &OciReference,
        credentials: OciCredentials,
        status: &Status,
        body: Result<TokenResponse, String>,
    ) -> (res: Result<OciCredentials, Error>)
        ensures
            final(self).protocol == old(self).protocol,
            match given_token(*status, body) {
                Ok(token) => {
                    &&& res == Ok::<OciCredentials, Error>(credentials)
                    &&& final(self).bearer_tokens@ == old(self).bearer_tokens@.insert(
                        reference.repository@,
                        token,
                    )
                },
                Err(v) => {
                    &&& res matches Err(e) && e@ == v
                    &&& final(self).bearer_tokens@ == old(self).bearer_tokens@
                },
            },
            res is Ok <==> 200 <= status.code <= 299 && (body matches Ok(b) && (b.token is Some
                || b.access_token is Some)),
            res matches Ok(used) ==> used == credentials && (body matches Ok(b)
                && final(self).bearer_tokens@.contains_key(reference.repository@)
                && final(self).bearer_tokens@[reference.repository@] == (match b.token {
                Some(t) => t@,
                None => b.access_token->0@,
            })),
            forall|other: Seq<char>|
                other != reference.repository@ ==> ((#[trigger] final(self).bearer_tokens@.contains_key(other)) <==> old(self).bearer_tokens@.contains_key(other)),
            forall|other: Seq<char>|
                other != reference.repository@ && old(self).bearer_tokens@.contains_key(other) ==> (#[trigger] final(self).bearer_tokens@[other]) == old(self).bearer_tokens@[other],
    {
        match token_from_response(status, body) {
            Ok(token) => {
                self.bearer_tokens.insert(reference.repository.clone(), token);
                Ok(credentials)
            },
            Err(e) => Err(e),
        }
    }
}

/// The token that a response of the token endpoint gives.
pub open spec fn given_token(status: Status, body: Result<TokenResponse, String>) -> Result<
    Seq<char>,
    ErrorView,
> {
    if !is_success(status.code) {
        Err(ErrorView::RegistryError("token endpoint returned HTTP "@ + status.text@))
    } else {
        match body {
            Err(t) => Err(ErrorView::RegistryError(t@)),
            Ok(b) => match (b.token, b.access_token) {
                (Some(t), _) => Ok(t@),
                (None, Some(t)) => Ok(t@),
                (None, None) => Err(
                    ErrorView::RegistryError(
                        "token response contained neither 'token' nor 'access_token'"@,
                    ),
                ),
            },
        }
    }
}

// ---------------------------------------------------------------------------
// Laws
// ---------------------------------------------------------------------------

/// How many more requests a state can lead to, after the one that was sent.
pub open spec fn steps_left(state: AuthState) -> int {
    match state {
        AuthState::Probing => 2,
        AuthState::ProbingAnonymously => 1,
        AuthState::Exchanging(_) => 0,
    }
}

/// An authentication ends: every request that follows another one leaves fewer to come, so that at most
/// three are sent.
pub proof fn law_auth_ends(
    transport: WasmOciTransport,
    reference: OciReference,
    credentials: OciCredentials,
    operation: OciOperation,
    status: Status,
    www_authenticate: HeaderText,
)
    ensures
        after_probe(
            transport,
            reference,
            credentials,
            operation,
            status,
            www_authenticate,
        ) matches AuthActionView::Send(next, _) ==> steps_left(next) < steps_left(
            AuthState::Probing,
        ),
        after_anonymous_probe(
            reference,
            operation,
            status,
            www_authenticate,
        ) matches AuthActionView::Send(next, _) ==> steps_left(next) < steps_left(
            AuthState::ProbingAnonymously,
        ),
{
}

/// The credentials that an authentication ends with, or that it exchanges for a token, are the given
/// ones, or none at all.
pub proof fn law_auth_keeps_or_drops_credentials(
    transport: WasmOciTransport,
    reference: OciReference,
    credentials: OciCredentials,
    operation: OciOperation,
    status: Status,
    www_authenticate: HeaderText,
)
    ensures
        match after_probe(
            transport,
            reference,
            credentials,
            operation,
            status,
            www_authenticate,
        ) {
            AuthActionView::Finish(Ok(c)) => c == credentials,
            AuthActionView::Send(AuthState::Exchanging(c), _) => c == credentials,
            _ => true,
        },
        match after_anonymous_probe(reference, operation, status, www_authenticate) {
            AuthActionView::Finish(Ok(c)) => c is Anonymous,
            AuthActionView::Send(AuthState::Exchanging(c), _) => c is Anonymous,
            _ => true,
        },
{
}

/// Once the credentials were refused, none are sent any more: neither the second probe nor a token
/// request that follows it has an `Authorization` header.
pub proof fn law_no_authorization_after_refusal(
    transport: WasmOciTransport,
    reference: OciReference,
    credentials: OciCredentials,
    operation: OciOperation,
    status: Status,
    www_authenticate: HeaderText,
)
    ensures
        after_probe(
            transport,
            reference,
            credentials,
            operation,
            status,
            www_authenticate,
        ) matches AuthActionView::Send(AuthState::ProbingAnonymously, req) ==> !req.has_header(
            "Authorization"@,
        ),
        after_anonymous_probe(
            reference,
            operation,
            status,
            www_authenticate,
        ) matches AuthActionView::Send(_, req) ==> !req.has_header("Authorization"@),
{
}

/// A token authorizes the requests to its repository from then on, whatever the credentials, so that no
/// further one is asked for, and changes nothing for any other repository.
pub proof fn law_token_authorizes_its_repository(
    tokens: Map<Seq<char>, Seq<char>>,
    repository: Seq<char>,
    token: Seq<char>,
    other: Seq<char>,
    credentials: OciCredentials,
)
    ensures
        tokens.insert(repository, token).contains_key(repository),
        authorization(tokens.insert(repository, token), repository, credentials) == seq![
            ("Authorization"@, bearer(token)),
        ],
        other != repository ==> authorization(
            tokens.insert(repository, token),
            other,
            credentials,
        ) == authorization(tokens, other, credentials) && (tokens.insert(
            repository,
            token,
        ).contains_key(other) <==> tokens.contains_key(other)),
{
}

/// What an authentication takes from a response: its status, its challenge and the body of a token
/// endpoint.
pub type AuthEvent = (Status, HeaderText, Result<TokenResponse, String>);

/// What follows a response that was asked for in the state.
pub open spec fn after_response(
    transport: WasmOciTransport,
    reference: OciReference,
    credentials: OciCredentials,
    operation: OciOperation,
    state: AuthState,
    event: AuthEvent,
) -> AuthActionView {
    match state {
        AuthState::Probing => after_probe(
            transport,
            reference,
            credentials,
            operation,
            event.0,
            event.1,
        ),
        AuthState::ProbingAnonymously => after_anonymous_probe(
            reference,
            operation,
            event.0,
            event.1,
        ),
        AuthState::Exchanging(used) => match given_token(event.0, event.2) {
            Ok(_) => AuthActionView::Finish(Ok(used)),
            Err(e) => AuthActionView::Finish(Err(e)),
        },
    }
}

/// What follows once the responses came in for an authentication that started with a probe, one after the
/// other. An authentication that is over stays over.
pub open spec fn auth_run(
    transport: WasmOciTransport,
    reference: OciReference,
    credentials: OciCredentials,
    operation: OciOperation,
    events: Seq<AuthEvent>,
) -> AuthActionView
    decreases events.len(),
{
    if events.len() == 0 {
        AuthActionView::Send(
            AuthState::Probing,
            HttpRequestView {
                headers: credential_headers(credentials),
                ..bare_request(Method::Get, probe_url(transport, reference.registry@))
            },
        )
    } else {
        match auth_run(transport, reference, credentials, operation, events.drop_last()) {
            AuthActionView::Send(state, _) => after_response(
                transport,
                reference,
                credentials,
                operation,
                state,
                events.last(),
            ),
            AuthActionView::Finish(r) => AuthActionView::Finish(r),
        }
    }
}

/// An authentication is over after three responses at most. It ends with the given credentials or with none,
/// and with an error unless one of the responses is a success.
pub proof fn law_auth_is_over_after_three(
    transport: WasmOciTransport,
    reference: OciReference,
    credentials: OciCredentials,
    operation: OciOperation,
    events: Seq<AuthEvent>,
)
    ensures
        events.len() >= 3 ==> auth_run(transport, reference, credentials, operation, events) is Finish,
        auth_run(transport, reference, credentials, operation, events) matches AuthActionView::Finish(
            Ok(c),
        ) ==> (c == credentials || c is Anonymous) && exists|i: int|
            0 <= i < events.len() && is_success((#[trigger] events[i]).0.code),
        auth_run(transport, reference, credentials, operation, events) matches AuthActionView::Send(
            AuthState::Exchanging(c),
            _,
        ) ==> c == credentials || c is Anonymous,
    decreases events.len(),
{
    lemma_steps_left(transport, reference, credentials, operation, events);
    if events.len() > 0 {
        let rest = events.drop_last();
        law_auth_is_over_after_three(transport, reference, credentials, operation, rest);
        let before = auth_run(transport, reference, credentials, operation, rest);
        if before is Finish {
            if exists|i: int| 0 <= i < rest.len() && is_success((#[trigger] rest[i]).0.code) {
                let i = choose|i: int|
                    0 <= i < rest.len() && is_success((#[trigger] rest[i]).0.code);
                assert(events[i] == rest[i]);
            }
        } else {
            assert(events[events.len() - 1] == events.last());
        }
    }
}

/// Every response takes away from the requests that are left.
proof fn lemma_steps_left(
    transport: WasmOciTransport,
    reference: OciReference,
    credentials: OciCredentials,
    operation: OciOperation,
    events: Seq<AuthEvent>,
)
    ensures
        auth_run(transport, reference, credentials, operation, events) matches AuthActionView::Send(
            state,
            _,
        ) ==> 0 <= steps_left(state) <= 2 - events.len(),
    decreases events.len(),
{
    if events.len() > 0 {
        lemma_steps_left(transport, reference, credentials, operation, events.drop_last());
        law_auth_ends(
            transport,
            reference,
            credentials,
            operation,
            events.last().0,
            events.last().1,
        );
    }
}

/// An authentication starts with nothing to do where a token for the repository is held. Otherwise it starts with a
/// probe of `/v2/` that carries the user name and the password, where there are any.
pub proof fn law_auth_starts_with_a_probe(
    transport: &WasmOciTransport,
    reference: &OciReference,
    credentials: &OciCredentials,
    res: AuthAction,
)
    requires
        call_ensures(WasmOciTransport::begin_auth, (transport, reference, credentials), res),
    ensures
        if transport.bearer_tokens@.contains_key(reference.repository@) {
            res matches AuthAction::Finish(Ok(c)) && c == *credentials
        } else {
            res matches AuthAction::Send(AuthState::Probing, req) && {
                &&& req@.method == Method::Get
                &&& req@.body.len() == 0
                &&& req@.url == repository_url(transport.protocol, reference.registry@, ""@)
                &&& match credentials {
                    OciCredentials::Anonymous => req@.headers.len() == 0,
                    OciCredentials::Basic(user, password) => req@.headers == seq![
                        ("Authorization"@, "Basic "@ + base64_text(user@ + ":"@ + password@)),
                    ],
                }
            }
        },
{
    lemma_probe_url(*transport, reference.registry@);
}

/// A registry is probed at `/v2/`.
proof fn lemma_probe_url(transport: WasmOciTransport, registry: Seq<char>)
    ensures
        probe_url(transport, registry) == repository_url(transport.protocol, registry, ""@),
{
    lemma_base(transport.protocol, registry);
    reveal_strlit("");
    assert(probe_url(transport, registry) =~= repository_url(transport.protocol, registry, ""@));
}

/// Whether the response asks for a token: its code is 401, and its header can be read and starts with the word
/// `Bearer`, in any case of its letters.
pub open spec fn asks_for_token(status: Status, www_authenticate: HeaderText) -> bool {
    status.code == 401 && (www_authenticate matches HeaderText::Readable(h)
        && "bearer "@.is_prefix_of(lower(h@)))
}

/// A bearer challenge is answered whatever the credentials are, none included: where it can be read, the next request
/// is a GET at its realm, for a token for the repository and the operation, with the credentials of the probe; where
/// it cannot be read, the authentication fails. Without a bearer challenge no token is asked for.
pub proof fn law_bearer_challenge_is_answered(
    transport: &WasmOciTransport,
    reference: &OciReference,
    credentials: &OciCredentials,
    operation: OciOperation,
    status: &Status,
    www_authenticate: &HeaderText,
    res: AuthAction,
    anonymous: AuthAction,
)
    requires
        call_ensures(
            WasmOciTransport::probed,
            (transport, reference, credentials, operation, status, www_authenticate),
            res,
        ),
        call_ensures(
            WasmOciTransport::probed_anonymously,
            (transport, reference, operation, status, www_authenticate),
            anonymous,
        ),
    ensures
        asks_for_token(*status, *www_authenticate) ==> match challenge_of(
            www_authenticate->Readable_0@,
        ) {
            Ok(c) => {
                &&& res matches AuthAction::Send(AuthState::Exchanging(used), req) && used
                    == *credentials && is_token_request(
                    req@,
                    c,
                    *credentials,
                    reference.repository@,
                    operation,
                )
                &&& anonymous matches AuthAction::Send(AuthState::Exchanging(used), req) && used
                    == OciCredentials::Anonymous && is_token_request(
                    req@,
                    c,
                    OciCredentials::Anonymous,
                    reference.repository@,
                    operation,
                )
            },
            Err(v) => (res matches AuthAction::Finish(Err(e)) && e@ == v) && (
            anonymous matches AuthAction::Finish(Err(e)) && e@ == v),
        },
        !asks_for_token(*status, *www_authenticate) ==> !(res matches AuthAction::Send(
            AuthState::Exchanging(_),
            _,
        )) && !(anonymous is Send),
{
    if asks_for_token(*status, *www_authenticate) {
        if let Ok(c) = challenge_of(www_authenticate->Readable_0@) {
            law_token_request_of(c, *credentials, reference.repository@, operation);
            law_token_request_of(c, OciCredentials::Anonymous, reference.repository@, operation);
        }
    }
}

/// Whether the request asks at the realm of the challenge for a token for the repository and the operation, with the
/// user name and the password, where there are any.
pub open spec fn is_token_request(
    req: HttpRequestView,
    challenge: (Seq<char>, Seq<(Seq<char>, Seq<char>)>),
    credentials: OciCredentials,
    repository: Seq<char>,
    operation: OciOperation,
) -> bool {
    &&& req.method == Method::Get
    &&& req.body.len() == 0
    &&& challenge.0.is_prefix_of(req.url)
    &&& exists|asked: Seq<(Seq<char>, Seq<char>)>| #[trigger]
        asks_with(req.url, challenge.0, asked) && has_its_scope(
            asked,
            challenge.1,
            "repository:"@ + repository + (match operation {
                OciOperation::Pull => ":pull"@,
                OciOperation::Push => ":push,pull"@,
            }),
        )
    &&& match credentials {
        OciCredentials::Anonymous => req.headers.len() == 0,
        OciCredentials::Basic(user, password) => req.headers == seq![
            ("Authorization"@, "Basic "@ + base64_text(user@ + ":"@ + password@)),
        ],
    }
}

/// A challenge that is written with its parameters, one of them named `realm`, is answered at the value of that
/// parameter, whatever the credentials are.
pub proof fn law_written_challenge_is_answered(
    transport: &WasmOciTransport,
    reference: &OciReference,
    credentials: &OciCredentials,
    operation: OciOperation,
    status: &Status,
    www_authenticate: &HeaderText,
    res: AuthAction,
    params: Seq<(Seq<char>, Seq<char>)>,
    at: int,
)
    requires
        call_ensures(
            WasmOciTransport::probed,
            (transport, reference, credentials, operation, status, www_authenticate),
            res,
        ),
        status.code == 401,
        www_authenticate matches HeaderText::Readable(h) && h@ == "Bearer "@ + challenge_text(params)
            && is_ascii_chars(h@),
        are_tokens(params),
        0 <= at < params.len(),
        lower(params[at].0) == "realm"@,
        params[at].1.len() > 0,
        forall|i: int| 0 <= i < params.len() && i != at ==> lower((#[trigger] params[i]).0) != "realm"@,
    ensures
        res matches AuthAction::Send(AuthState::Exchanging(used), req) && used == *credentials
            && req@.method == Method::Get && params[at].1.is_prefix_of(req@.url),
{
    reveal_strlit("Bearer ");
    reveal_strlit("bearer ");
    assert("Bearer "@.map_values(|c: char| ascii_lower(c)) =~= "bearer "@);
    law_written_challenge_is_read("Bearer "@, params, at);
    law_bearer_challenge_is_read(www_authenticate->Readable_0@);
    let c = challenge_of(www_authenticate->Readable_0@)->Ok_0;
    law_token_request_of(c, *credentials, reference.repository@, operation);
}

/// A probe that succeeds ends the authentication with its credentials. One that fails with another code than 401, or
/// with a header that cannot be read, ends it with an error. Where 401 comes without a bearer challenge, the registry
/// is probed anew without the credentials, where there were any; an authentication ends as refused only where there
/// were none.
pub proof fn law_probe_without_challenge(
    transport: &WasmOciTransport,
    reference: &OciReference,
    credentials: &OciCredentials,
    operation: OciOperation,
    status: &Status,
    www_authenticate: &HeaderText,
    res: AuthAction,
    anonymous: AuthAction,
)
    requires
        call_ensures(
            WasmOciTransport::probed,
            (transport, reference, credentials, operation, status, www_authenticate),
            res,
        ),
        call_ensures(
            WasmOciTransport::probed_anonymously,
            (transport, reference, operation, status, www_authenticate),
            anonymous,
        ),
        !asks_for_token(*status, *www_authenticate),
    ensures
        200 <= status.code <= 299 <==> (res matches AuthAction::Finish(Ok(_))),
        200 <= status.code <= 299 <==> (anonymous matches AuthAction::Finish(Ok(_))),
        res matches AuthAction::Finish(Ok(c)) ==> c == *credentials,
        anonymous matches AuthAction::Finish(Ok(c)) ==> c == OciCredentials::Anonymous,
        res is Send <==> status.code == 401 && !(www_authenticate is Unreadable) && credentials is Basic,
        res matches AuthAction::Send(next, req) ==> next == AuthState::ProbingAnonymously
            && req@.method == Method::Get && req@.url == repository_url(
            transport.protocol,
            reference.registry@,
            ""@,
        ) && req@.headers.len() == 0 && req@.body.len() == 0,
        anonymous is Finish,
        res matches AuthAction::Finish(Err(e)) ==> e@ == ErrorView::RegistryError(
            match (status.code, www_authenticate) {
                (401, HeaderText::Unreadable(t)) => t@,
                (401, _) => "authentication failed for registry "@ + reference.registry@,
                _ => "unexpected HTTP "@ + status.text@ + " from /v2/ endpoint"@,
            },
        ),
        anonymous matches AuthAction::Finish(Err(e)) ==> e@ == ErrorView::RegistryError(
            match (status.code, www_authenticate) {
                (401, HeaderText::Unreadable(t)) => t@,
                _ => "authentication failed for registry "@ + reference.registry@,
            },
        ),
{
    lemma_probe_url(*transport, reference.registry@);
}

/// The response of a token endpoint gives a token exactly if it is a success and its body has one; the field `token`
/// comes first.
pub proof fn law_given_token(status: Status, body: Result<TokenResponse, String>)
    ensures
        given_token(status, body) is Ok <==> 200 <= status.code <= 299 && (body matches Ok(b) && (
        b.token is Some || b.access_token is Some)),
        given_token(status, body) matches Ok(token) ==> (body matches Ok(b) && token == (match b.token {
            Some(t) => t@,
            None => b.access_token->0@,
        })),
        given_token(status, body) matches Err(e) ==> e == ErrorView::RegistryError(
            if !(200 <= status.code <= 299) {
                "token endpoint returned HTTP "@ + status.text@
            } else {
                match body {
                    Err(t) => t@,
                    Ok(_) => "token response contained neither 'token' nor 'access_token'"@,
                }
            },
        ),
{
}

/// A token that was exchanged is kept for its repository, in place of any other, and authorizes nothing else. Where none
/// was given, what is kept stays as it is.
pub proof fn law_exchanged_token_is_kept(
    transport: &mut WasmOciTransport,
    reference: &OciReference,
    credentials: OciCredentials,
    status: &Status,
    body: Result<TokenResponse, String>,
    res: Result<OciCredentials, Error>,
)
    requires
        call_ensures(
            WasmOciTransport::exchanged,
            (transport, reference, credentials, status, body),
            res,
        ),
    ensures
        final(transport).protocol == old(transport).protocol,
        res is Ok <==> 200 <= status.code <= 299 && (body matches Ok(b) && (b.token is Some
            || b.access_token is Some)),
        res matches Ok(used) ==> used == credentials,
        res matches Ok(_) ==> (body matches Ok(b) && final(transport).bearer_tokens@ == old(
            transport,
        ).bearer_tokens@.insert(
            reference.repository@,
            match b.token {
                Some(t) => t@,
                None => b.access_token->0@,
            },
        )),
        res is Err ==> final(transport).bearer_tokens@ == old(transport).bearer_tokens@,
{
}

} // verus!
