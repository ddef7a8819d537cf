//! Requests, responses and the rules that follow from a status.

use vstd::prelude::*;

use crate::error::Error;
use crate::error::ErrorView;
use crate::text::pair_texts;

verus! {

/// The number of redirects that are followed for one request.
pub const MAX_REDIRECTS: u8 = 5;

/// The method of a request.
#[derive(Clone, Copy, Debug, PartialEq, Eq, Structural)]
pub enum Method {
    Get,
    Head,
    Post,
    Put,
}

/// A request that is to be sent.
#[derive(Debug, PartialEq)]
pub struct HttpRequest {
    pub method: Method,
    pub url: String,
    pub headers: Vec<(String, String)>,
    pub body: Vec<u8>,
}

/// The contents of a request.
#[verifier::ext_equal]
pub struct HttpRequestView {
    pub method: Method,
    pub url: Seq<char>,
    pub headers: Seq<(Seq<char>, Seq<char>)>,
    pub body: Seq<u8>,
}

impl View for HttpRequest {
    type V = HttpRequestView;

    open spec fn view(&self) -> HttpRequestView {
        HttpRequestView {
            method: self.method,
            url: self.url@,
            headers: pair_texts(self.headers@),
            body: self.body@,
        }
    }
}

impl HttpRequestView {
    /// Whether one of the headers has the name.
    pub open spec fn has_header(self, name: Seq<char>) -> bool {
        exists|i: int| 0 <= i < self.headers.len() && (#[trigger] self.headers[i]).0 == name
    }
}

/// A request without headers and body.
pub open spec fn bare_request(method: Method, url: Seq<char>) -> HttpRequestView {
    HttpRequestView { method, url, headers: Seq::empty(), body: Seq::empty() }
}

impl HttpRequest {
    /// A request without headers and body.
    pub fn new(method: Method, url: String) -> (res: Self)
        ensures
            res@ == bare_request(method, url@),
    {
        let res = HttpRequest { method, url, headers: Vec::new(), body: Vec::new() };
        assert(res@ =~= bare_request(method, url@));
        res
    }

    /// Adds a header behind the others.
    pub fn add_header(&mut self, name: &str, value: String)
        ensures
            final(self)@ == (HttpRequestView {
                headers: old(self)@.headers.push((name@, value@)),
                ..old(self)@
            }),
    {
        let ghost before = self.headers@;
        let ghost v = value@;
        self.headers.push((name.to_string(), value));
        assert(pair_texts(self.headers@) =~= pair_texts(before).push((name@, v)));
    }
}

/// The status of a response: its code and the text that it is shown as.
#[derive(Debug)]
pub struct Status {
    pub code: u16,
    pub text: String,
}

/// Whether the code reports success.
pub open spec fn is_success(code: u16) -> bool {
    200 <= code < 300
}

/// Whether the code asks for a redirect.
pub open spec fn is_redirection(code: u16) -> bool {
    300 <= code < 400
}

impl Status {
    /// Whether the status reports success.
    pub fn is_success(&self) -> (res: bool)
        ensures
            res == is_success(self.code),
    {
        200 <= self.code && self.code < 300
    }

    /// Whether the status asks for a redirect.
    pub fn is_redirection(&self) -> (res: bool)
        ensures
            res == is_redirection(self.code),
    {
        300 <= self.code && self.code < 400
    }
}

/// What a response holds under the name of a header.
#[derive(Debug)]
pub enum HeaderText {
    /// The response does not have the header.
    Absent,
    /// The text of the header.
    Readable(String),
    /// The header is no text; this says why.
    Unreadable(String),
}

// ---------------------------------------------------------------------------
// Redirects
// ---------------------------------------------------------------------------

/// What follows a response to a request that was sent.
#[derive(Debug, PartialEq)]
pub enum SendAction {
    /// The response answers the request.
    Deliver,
    /// This request is to be sent in turn.
    Follow(HttpRequest),
    /// The exchange failed.
    Fail(Error),
}

/// The exchange of one request, with the redirects that it leads to.
pub struct Exchange {
    followed: u8,
}

impl Exchange {
    /// The number of redirects that were followed.
    pub closed spec fn redirects(self) -> int {
        self.followed as int
    }

    /// No more redirects are followed than are allowed.
    #[verifier::type_invariant]
    closed spec fn bounded(self) -> bool {
        self.followed <= MAX_REDIRECTS
    }

    /// An exchange whose request was not answered yet.
    pub fn new() -> (res: Self)
        ensures
            res.redirects() == 0,
    {
        Exchange { followed: 0 }
    }

    /// Takes a response. A redirect is followed by a plain GET of its target, without the headers of the
    /// request that led to it: the target of a redirect needs no authorization.
    pub fn receive(&mut self, status: &Status, location: &HeaderText) -> (res: SendAction)
        ensures
            0 <= old(self).redirects() <= MAX_REDIRECTS,
            final(self).redirects() == old(self).redirects() + (if res is Follow {
                1int
            } else {
                0
            }),
            if !is_redirection(status.code) || old(self).redirects() == MAX_REDIRECTS {
                res is Deliver
            } else {
                match location {
                    HeaderText::Absent => res matches SendAction::Fail(e) && e@
                        == ErrorView::RegistryError("redirect without Location header"@),
                    HeaderText::Unreadable(t) => res matches SendAction::Fail(e) && e@
                        == ErrorView::RegistryError(t@),
                    HeaderText::Readable(t) => res matches SendAction::Follow(r) && r@
                        == bare_request(Method::Get, t@),
                }
            },
            res is Deliver <==> status.code < 300 || status.code > 399 || old(self).redirects() >= 5,
            res matches SendAction::Follow(r) ==> r.method == Method::Get && r@.headers.len() == 0
                && r@.body.len() == 0 && (location matches HeaderText::Readable(t) && r.url@ == t@),
    {
        proof {
            use_type_invariant(&*self);
        }
        if !status.is_redirection() || self.followed >= MAX_REDIRECTS {
            return SendAction::Deliver;
        }
        match location {
            HeaderText::Absent => SendAction::Fail(
                Error::RegistryError("redirect without Location header".to_string()),
            ),
            HeaderText::Unreadable(t) => SendAction::Fail(Error::RegistryError(t.clone())),
            HeaderText::Readable(t) => {
                self.followed = self.followed + 1;
                SendAction::Follow(HttpRequest::new(Method::Get, t.clone()))
            },
        }
    }
}

// ---------------------------------------------------------------------------
// Laws
// ---------------------------------------------------------------------------

/// The codes of a success are those from 200 to 299, the codes of a redirect those from 300 to 399.
pub proof fn law_hundreds(code: u16)
    ensures
        is_success(code) <==> code as int / 100 == 2,
        is_redirection(code) <==> code as int / 100 == 3,
{
}

/// A request that is made has the method and the URL that it is made with, and nothing else.
pub proof fn law_new_request_is_bare(method: Method, url: String, res: HttpRequest)
    requires
        call_ensures(HttpRequest::new, (method, url), res),
    ensures
        res.method == method,
        res.url@ == url@,
        res.headers@.len() == 0,
        res.body@.len() == 0,
{
    assert(res@ == bare_request(method, url@));
    assert(pair_texts(res.headers@).len() == res.headers@.len());
}

/// At most five redirects are followed for one request.
pub proof fn law_five_redirects()
    ensures
        MAX_REDIRECTS == 5,
{
}

/// Whether the request has one header for authorization at most: the one with the value, where a value is given.
pub open spec fn has_authorization(req: HttpRequestView, value: Option<Seq<char>>) -> bool {
    &&& forall|i: int|
        0 <= i < req.headers.len() && (#[trigger] req.headers[i]).0 == "Authorization"@ ==> Some(
            req.headers[i].1,
        ) == value
    &&& value is Some ==> exists|i: int|
        0 <= i < req.headers.len() && (#[trigger] req.headers[i]).0 == "Authorization"@
    &&& forall|i: int, j: int|
        0 <= i < j < req.headers.len() && (#[trigger] req.headers[i]).0 == "Authorization"@ ==> (
        #[trigger] req.headers[j]).0 != "Authorization"@
}

/// Whether the request has the header with the value, and no other header of that name.
pub open spec fn has_only(req: HttpRequestView, name: Seq<char>, value: Seq<char>) -> bool {
    &&& exists|i: int| 0 <= i < req.headers.len() && (#[trigger] req.headers[i]) == (name, value)
    &&& forall|i: int|
        0 <= i < req.headers.len() && (#[trigger] req.headers[i]).0 == name ==> req.headers[i].1
            == value
}

/// A response that asks for a redirect is followed by a plain GET of its target, without headers and body, as long as
/// fewer than five were followed. Every other response answers the request, and so does a redirect behind the fifth. A
/// redirect without a target fails.
pub proof fn law_redirects_are_followed(
    exchange: &mut Exchange,
    status: &Status,
    location: &HeaderText,
    res: SendAction,
)
    requires
        call_ensures(Exchange::receive, (exchange, status, location), res),
    ensures
        res is Deliver <==> !(300 <= status.code <= 399) || old(exchange).redirects() >= 5,
        res is Follow <==> 300 <= status.code <= 399 && old(exchange).redirects() < 5
            && location is Readable,
        res matches SendAction::Follow(req) ==> req.method == Method::Get && req.url@
            == location->Readable_0@ && req@.headers.len() == 0 && req@.body.len() == 0
            && final(exchange).redirects() == old(exchange).redirects() + 1,
        !(res is Follow) ==> final(exchange).redirects() == old(exchange).redirects(),
        res matches SendAction::Fail(e) ==> e@ == ErrorView::RegistryError(
            match location {
                HeaderText::Unreadable(t) => t@,
                _ => "redirect without Location header"@,
            },
        ),
{
}

/// A header that is added goes behind the others and changes nothing else.
pub proof fn law_header_is_added(req: &mut HttpRequest, name: &str, value: String)
    requires
        call_ensures(HttpRequest::add_header, (req, name, value), ()),
    ensures
        final(req)@.headers == old(req)@.headers.push((name@, value@)),
        final(req)@.method == old(req)@.method,
        final(req)@.url == old(req)@.url,
        final(req)@.body == old(req)@.body,
{
}

/// The contents of a request are its method, its URL, its headers in their order and its body.
pub proof fn law_contents_of_a_request(req: HttpRequest)
    ensures
        req@.method == req.method,
        req@.url == req.url@,
        req@.headers == pair_texts(req.headers@),
        req@.body == req.body@,
{
}

} // verus!
