//! The metadata of a registry.

use vstd::prelude::*;

use crate::error::Error;
use crate::error::ErrorView;
use crate::text::chars_of;
use crate::text::cut;
use crate::text::find_char;
use crate::text::lemma_position;
use crate::text::lemma_position_unique;
use crate::text::position;
use crate::text::same_text;
use crate::text::slice_texts;
use crate::text::split;
use crate::text::texts;

verus! {

/// Well-Known URI (RFC 8615) path for registry metadata.
pub const REGISTRY_METADATA_PATH: &'static str = "/.well-known/wasm-pkg/registry.json";

/// A registry identifier.
///
/// This is a valid HTTP Host.
#[derive(Debug, PartialEq)]
pub struct Registry {
    pub authority: String,
}

/// What stands behind the user information of an authority.
pub open spec fn host_and_port(authority: Seq<char>) -> Seq<char> {
    split(authority, '@').last()
}

/// The host of an authority, without the port. A host in brackets keeps them.
pub open spec fn host_of(authority: Seq<char>) -> Seq<char> {
    let rest = host_and_port(authority);
    if rest[0] == '[' {
        rest.take(position(rest, ']') + 1)
    } else {
        rest.take(position(rest, ':'))
    }
}

/// Whether the authority has a host, and a closing bracket where it has an opening one.
pub open spec fn has_host(authority: Seq<char>) -> bool {
    let rest = host_and_port(authority);
    rest.len() > 0 && (rest[0] == '[' ==> position(rest, ']') < rest.len())
}

impl Registry {
    /// The registry host, without port number.
    pub fn host(&self) -> (res: &str)
        requires
            has_host(self.authority@),
        ensures
            res@ == host_of(self.authority@),
    {
        let pieces = cut(self.authority.as_str(), '@');
        let rest = pieces[pieces.len() - 1];
        assert(slice_texts(pieces@).last() == rest@);
        assert(rest@ == host_and_port(self.authority@));
        let chars = chars_of(rest);
        proof {
            lemma_position(rest@, ']');
            lemma_position(rest@, ':');
        }
        if chars[0] == '[' {
            let end: usize = find_char(&chars, ']');
            assert(end < chars.len());
            let res = rest.substring_char(0, end + 1);
            assert(res@ =~= rest@.take(end + 1));
            res
        } else {
            let end: usize = find_char(&chars, ':');
            let res = rest.substring_char(0, end);
            assert(res@ =~= rest@.take(end as int));
            res
        }
    }

    /// Whether the authority has a host.
    pub fn has_host(&self) -> (res: bool)
        ensures
            res == has_host(self.authority@),
    {
        let pieces = cut(self.authority.as_str(), '@');
        let rest = pieces[pieces.len() - 1];
        assert(slice_texts(pieces@).last() == rest@);
        let chars = chars_of(rest);
        chars.len() > 0 && (chars[0] != '[' || find_char(&chars, ']') < chars.len())
    }

    /// The URL of the metadata of the registry. A registry on the local host is asked without
    /// encryption.
    pub fn metadata_url(&self) -> (res: String)
        requires
            has_host(self.authority@),
        ensures
            res@ == (if host_of(self.authority@) == "localhost"@ {
                "http"@
            } else {
                "https"@
            }) + "://"@ + self.authority@ + REGISTRY_METADATA_PATH@,
    {
        let mut url = if same_text(self.host(), "localhost") {
            "http"
        } else {
            "https"
        }.to_string();
        url.append("://");
        url.append(self.authority.as_str());
        url.append(REGISTRY_METADATA_PATH);
        url
    }
}

// ---------------------------------------------------------------------------
// Fetching
// ---------------------------------------------------------------------------

/// What `<str as std::fmt::Debug>::fmt` writes for the text.
pub uninterp spec fn debug_text(text: Seq<char>) -> Seq<char>;

/// Whether all characters of the text are printable ASCII characters other than the quote and the
/// backslash.
pub open spec fn is_plain(text: Seq<char>) -> bool {
    forall|i: int|
        0 <= i < text.len() ==> ' ' <= #[trigger] text[i] <= '~' && text[i] != '"' && text[i] != '\\'
}

/// The text in quotes, with what cannot be shown escaped.
pub open spec fn quoted_text(text: Seq<char>) -> Seq<char> {
    if is_plain(text) {
        "\""@ + text + "\""@
    } else {
        debug_text(text)
    }
}

/// `<str as std::fmt::Debug>::fmt` puts the text in quotes and escapes what it cannot show. On printable
/// ASCII characters other than the quote and the backslash it escapes nothing; on other text what it
/// writes is named, not spelt out.
#[verifier::external_body]
fn quoted(text: &str) -> (res: String)
    ensures
        res@ == (if is_plain(text@) {
            "\""@ + text@ + "\""@
        } else {
            debug_text(text@)
        }),
{
    format!("{text:?}")
}

/// What became of the attempt to fetch the metadata at the URL. `reply` is what the server answered:
/// nothing, where it has no metadata, or the metadata, as far as it could be read. Where something went wrong,
/// it is said what, and what caused that, the nearest cause first.
pub fn fetch<T>(url: &str, reply: Result<Option<Result<T, Vec<String>>>, Vec<String>>) -> (res: Result<
    Option<T>,
    Error,
>)
    ensures
        match reply {
            Err(causes) => res matches Err(e) && e@ == ErrorView::RegistryMetadataError(
                "error fetching registry metadata from "@ + quoted_text(url@),
                texts(causes@),
            ),
            Ok(None) => res == Ok::<Option<T>, Error>(None),
            Ok(Some(Err(causes))) => res matches Err(e) && e@ == ErrorView::RegistryMetadataError(
                "error parsing registry metadata from "@ + quoted_text(url@),
                texts(causes@),
            ),
            Ok(Some(Ok(meta))) => res == Ok::<Option<T>, Error>(Some(meta)),
        },
{
    match reply {
        Err(causes) => {
            let mut text = "error fetching registry metadata from ".to_string();
            text.append(quoted(url).as_str());
            Err(Error::RegistryMetadataError(text, causes))
        },
        Ok(None) => Ok(None),
        Ok(Some(Err(causes))) => {
            let mut text = "error parsing registry metadata from ".to_string();
            text.append(quoted(url).as_str());
            Err(Error::RegistryMetadataError(text, causes))
        },
        Ok(Some(Ok(meta))) => Ok(Some(meta)),
    }
}

/// The metadata that was fetched, or else the default.
pub fn fetch_or_default<T>(fetched: Result<Option<T>, Error>, default: T) -> (res: T)
    ensures
        res == (match fetched {
            Ok(Some(meta)) => meta,
            _ => default,
        }),
{
    match fetched {
        Ok(Some(meta)) => meta,
        _ => default,
    }
}

// ---------------------------------------------------------------------------
// Laws
// ---------------------------------------------------------------------------

/// The host of an authority is what is left without user information and port.
pub proof fn law_host_is_without_user_and_port(user: Seq<char>, host: Seq<char>, port: Seq<char>)
    requires
        host.len() > 0,
        host[0] != '[',
        !host.contains(':'),
        !host.contains('@'),
        !port.contains('@'),
    ensures
        host_of(host) == host,
        host_of(host + ":"@ + port) == host,
        host_of(user + "@"@ + host) == host,
        host_of(user + "@"@ + (host + ":"@ + port)) == host,
        has_host(host),
        has_host(host + ":"@ + port),
        has_host(user + "@"@ + host),
        has_host(user + "@"@ + (host + ":"@ + port)),
{
    reveal_strlit(":");
    let full = host + ":"@ + port;
    assert(!full.contains('@')) by {
        if full.contains('@') {
            let i = choose|i: int| 0 <= i < full.len() && full[i] == '@';
            if i < host.len() {
                assert(host[i] == '@');
            } else if i > host.len() {
                assert(port[i - host.len() - 1] == '@');
            }
        }
    }
    lemma_behind_user(user, host);
    lemma_behind_user(user, full);
    assert forall|i: int| 0 <= i < host.len() implies host[i] != ':' by {
        assert(host.contains(host[i]));
    }
    lemma_position_unique(host, ':', host.len() as int);
    assert forall|i: int| 0 <= i < host.len() implies full[i] != ':' by {
        assert(full[i] == host[i]);
    }
    assert(full[host.len() as int] == ':');
    lemma_position_unique(full, ':', host.len() as int);
    assert(full[0] == host[0]);
    assert(host.take(host.len() as int) =~= host);
    assert(full.take(host.len() as int) =~= host);
}

/// A host in brackets keeps them, whatever port follows.
pub proof fn law_host_in_brackets(inner: Seq<char>, rest: Seq<char>)
    requires
        !inner.contains(']'),
        !inner.contains('@'),
        !rest.contains('@'),
    ensures
        host_of("["@ + inner + "]"@ + rest) == "["@ + inner + "]"@,
        has_host("["@ + inner + "]"@ + rest),
{
    reveal_strlit("[");
    reveal_strlit("]");
    let full = "["@ + inner + "]"@ + rest;
    let n = inner.len() as int;
    assert(!full.contains('@')) by {
        if full.contains('@') {
            let i = choose|i: int| 0 <= i < full.len() && full[i] == '@';
            if 1 <= i <= n {
                assert(inner[i - 1] == '@');
            } else if i > n + 1 {
                assert(rest[i - n - 2] == '@');
            }
        }
    }
    lemma_behind_user(Seq::empty(), full);
    assert forall|i: int| 0 <= i < n + 1 implies full[i] != ']' by {
        if i > 0 {
            assert(full[i] == inner[i - 1]);
            assert(inner.contains(inner[i - 1]));
        }
    }
    assert(full[n + 1] == ']');
    lemma_position_unique(full, ']', n + 1);
    assert(full.take(n + 2) =~= "["@ + inner + "]"@);
}

/// What stands behind user information is what has no more of it.
proof fn lemma_behind_user(user: Seq<char>, rest: Seq<char>)
    requires
        !rest.contains('@'),
    ensures
        host_and_port(rest) == rest,
        host_and_port(user + "@"@ + rest) == rest,
    decreases user.len(),
{
    reveal_strlit("@");
    assert forall|i: int| 0 <= i < rest.len() implies rest[i] != '@' by {
        assert(rest.contains(rest[i]));
    }
    lemma_position_unique(rest, '@', rest.len() as int);
    assert(split(rest, '@') == seq![rest]);
    let full = user + "@"@ + rest;
    lemma_position(full, '@');
    let p = position(full, '@');
    assert(full[user.len() as int] == '@');
    assert(p <= user.len());
    let tail = full.skip(p + 1);
    if p == user.len() {
        assert(tail =~= rest);
        assert(split(full, '@').last() == rest);
    } else {
        let less = user.skip(p + 1);
        assert(tail =~= less + "@"@ + rest);
        lemma_behind_user(less, rest);
        assert(split(tail, '@').len() > 0) by {
            crate::text::law_pieces_join_to_the_text(tail, '@');
        }
        assert(split(full, '@').last() == split(tail, '@').last());
    }
}

/// The metadata of a registry are asked for at the well-known path, encrypted unless the host is the local one.
pub proof fn law_metadata_is_asked_for(registry: &Registry, res: String)
    requires
        call_ensures(Registry::metadata_url, (registry,), res),
    ensures
        res@ == (if host_of(registry.authority@) == "localhost"@ {
            "http://"@
        } else {
            "https://"@
        }) + registry.authority@ + "/.well-known/wasm-pkg/registry.json"@,
{
    reveal_strlit("http");
    reveal_strlit("https");
    reveal_strlit("://");
    reveal_strlit("http://");
    reveal_strlit("https://");
    assert("http"@ + "://"@ =~= "http://"@);
    assert("https"@ + "://"@ =~= "https://"@);
}

/// The metadata that a registry has are taken as they are; that it has none is no error. Where they cannot be had or
/// read, that is told with its causes and the URL in quotes, and the default stands in for them.
pub proof fn law_metadata_is_taken<T>(
    url: &str,
    reply: Result<Option<Result<T, Vec<String>>>, Vec<String>>,
    res: Result<Option<T>, Error>,
    default: T,
    used: T,
)
    requires
        call_ensures(fetch::<T>, (url, reply), res),
        call_ensures(fetch_or_default::<T>, (res, default), used),
    ensures
        reply matches Ok(Some(Ok(meta))) ==> res == Ok::<Option<T>, Error>(Some(meta)) && used == meta,
        reply matches Ok(None) ==> res == Ok::<Option<T>, Error>(None) && used == default,
        reply matches Ok(Some(Err(causes))) ==> used == default && (res matches Err(e) && (e@
            matches ErrorView::RegistryMetadataError(text, c) && c == texts(causes@)
            && "error parsing registry metadata from "@.is_prefix_of(text) && (is_plain(url@) ==> text
            == "error parsing registry metadata from "@ + ("\""@ + url@ + "\""@)))),
        reply matches Err(causes) ==> used == default && (res matches Err(e) && (e@
            matches ErrorView::RegistryMetadataError(text, c) && c == texts(causes@)
            && "error fetching registry metadata from "@.is_prefix_of(text) && (is_plain(url@) ==> text
            == "error fetching registry metadata from "@ + ("\""@ + url@ + "\""@)))),
{
    let parsing = "error parsing registry metadata from "@;
    let fetching = "error fetching registry metadata from "@;
    assert(parsing.is_prefix_of(parsing + quoted_text(url@)));
    assert(fetching.is_prefix_of(fetching + quoted_text(url@)));
}

/// Without anything behind the user information there is no host, nor is there one whose bracket is not closed.
pub proof fn law_no_host(user: Seq<char>, inner: Seq<char>)
    requires
        !inner.contains(']'),
        !inner.contains('@'),
    ensures
        !has_host(""@),
        !has_host(user + "@"@),
        !has_host("["@ + inner),
{
    reveal_strlit("");
    reveal_strlit("[");
    reveal_strlit("@");
    let nothing = Seq::<char>::empty();
    assert(""@ =~= nothing);
    lemma_behind_user(user, nothing);
    assert(user + "@"@ + nothing =~= user + "@"@);
    let open = "["@ + inner;
    assert(!open.contains('@')) by {
        if open.contains('@') {
            let i = choose|i: int| 0 <= i < open.len() && open[i] == '@';
            assert(inner[i - 1] == '@');
        }
    }
    lemma_behind_user(user, open);
    lemma_position(open, ']');
    let p = position(open, ']');
    if p < open.len() {
        assert(inner[p - 1] == ']');
    }
}

} // verus!
