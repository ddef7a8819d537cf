//! Reading the headers by which a registry asks for a token and pages its catalog.

use vstd::prelude::*;
use vstd::utf8::is_ascii_chars;

use crate::error::Error;
use crate::error::ErrorView;
use crate::text::all_in;
use crate::text::ascii_lower;
use crate::text::chars_of;
use crate::text::cut;
use crate::text::cut_once;
use crate::text::find_char;
use crate::text::joined;
use crate::text::law_cut_at_the_first;
use crate::text::law_padding_is_trimmed;
use crate::text::law_trimming_takes_the_ends;
use crate::text::lemma_position;
use crate::text::lemma_position_unique;
use crate::text::lower;
use crate::text::pair_texts;
use crate::text::position;
use crate::text::slice_texts;
use crate::text::split;
use crate::text::split_once;
use crate::text::trim;
use crate::text::trim_end;
use crate::text::trim_start;
use crate::text::same_text;
use crate::text::trimmed;
use crate::text::without_prefix;
use crate::text::CharClass;

verus! {

// ---------------------------------------------------------------------------
// Parameters of a challenge
// ---------------------------------------------------------------------------

/// The index of the first comma that stands outside quotes, or the length of the text where there is
/// none. `quoted` says whether the text starts inside quotes.
pub open spec fn unquoted_comma(s: Seq<char>, quoted: bool) -> int
    decreases s.len(),
{
    if s.len() == 0 {
        0
    } else if s[0] == '"' {
        1 + unquoted_comma(s.drop_first(), !quoted)
    } else if s[0] == ',' && !quoted {
        0
    } else {
        1 + unquoted_comma(s.drop_first(), quoted)
    }
}

/// The pieces of the text between the commas that stand outside quotes.
pub open spec fn split_unquoted(s: Seq<char>) -> Seq<Seq<char>>
    decreases s.len(),
{
    let p = unquoted_comma(s, false);
    if 0 <= p < s.len() {
        seq![s.take(p)] + split_unquoted(s.skip(p + 1))
    } else {
        seq![s]
    }
}

/// The pieces without the white space around them, as far as anything is left of them.
pub open spec fn kept_pieces(pieces: Seq<Seq<char>>) -> Seq<Seq<char>>
    decreases pieces.len(),
{
    if pieces.len() == 0 {
        Seq::empty()
    } else {
        let piece = trim(pieces.last(), CharClass::White);
        let rest = kept_pieces(pieces.drop_last());
        if piece.len() == 0 {
            rest
        } else {
            rest.push(piece)
        }
    }
}

/// The index of a comma lies within the text.
proof fn lemma_unquoted_comma(s: Seq<char>, quoted: bool)
    ensures
        0 <= unquoted_comma(s, quoted) <= s.len(),
    decreases s.len(),
{
    if s.len() > 0 {
        lemma_unquoted_comma(s.drop_first(), quoted);
        lemma_unquoted_comma(s.drop_first(), !quoted);
    }
}

/// Adds a piece without the white space around it, where anything is left of it.
fn keep_piece<'a>(out: &mut Vec<&'a str>, piece: &'a str, pieces: Ghost<Seq<Seq<char>>>)
    requires
        slice_texts(old(out)@) == kept_pieces(pieces@),
    ensures
        slice_texts(final(out)@) == kept_pieces(pieces@.push(piece@)),
{
    let part = trimmed(piece, CharClass::White);
    let ghost before = out@;
    assert(pieces@.push(piece@).drop_last() =~= pieces@);
    if !part.is_empty() {
        out.push(part);
        assert(slice_texts(out@) =~= slice_texts(before).push(part@));
    }
}

/// Splits the parameters of a challenge at the commas that stand outside quotes.
pub fn split_challenge_params<'a>(s: &'a str) -> (res: Vec<&'a str>)
    ensures
        slice_texts(res@) == kept_pieces(split_unquoted(s@)),
{
    let chars = chars_of(s);
    let n: usize = chars.len();
    let mut parts: Vec<&'a str> = Vec::new();
    let mut start: usize = 0;
    let mut in_quotes = false;
    let mut i: usize = 0;
    let ghost mut pieces: Seq<Seq<char>> = Seq::empty();
    assert(slice_texts(parts@) =~= Seq::<Seq<char>>::empty());
    assert(s@.skip(0) =~= s@);
    assert(pieces + split_unquoted(s@) =~= split_unquoted(s@));
    while i < n
        invariant
            start <= i <= n,
            n == s@.len(),
            chars@ == s@,
            slice_texts(parts@) == kept_pieces(pieces),
            pieces + split_unquoted(s@.skip(start as int)) == split_unquoted(s@),
            unquoted_comma(s@.skip(start as int), false) == (i - start) + unquoted_comma(
                s@.skip(i as int),
                in_quotes,
            ),
        decreases n - i,
    {
        let c: char = chars[i];
        let ghost rest = s@.skip(start as int);
        assert(s@.skip(i as int).drop_first() =~= s@.skip(i + 1));
        if c == '"' {
            in_quotes = !in_quotes;
        } else if c == ',' && !in_quotes {
            let piece = s.substring_char(start, i);
            keep_piece(&mut parts, piece, Ghost(pieces));
            proof {
                assert(rest.take(i - start) =~= piece@);
                assert(rest.skip(i - start + 1) =~= s@.skip(i + 1));
                assert(pieces + (seq![piece@] + split_unquoted(s@.skip(i + 1))) =~= pieces.push(
                    piece@,
                ) + split_unquoted(s@.skip(i + 1)));
                pieces = pieces.push(piece@);
            }
            start = i + 1;
        }
        i += 1;
    }
    let last = s.substring_char(start, n);
    keep_piece(&mut parts, last, Ghost(pieces));
    proof {
        assert(s@.skip(n as int).len() == 0);
        assert(last@ =~= s@.skip(start as int));
        assert(pieces + seq![last@] =~= pieces.push(last@));
    }
    parts
}

// ---------------------------------------------------------------------------
// The challenge
// ---------------------------------------------------------------------------

/// The value of a parameter without white space and quotes around it.
pub open spec fn unquoted_value(value: Seq<char>) -> Seq<char> {
    trim(trim(value, CharClass::White), CharClass::Only('"'))
}

/// The parameters among the parts of a challenge, each with its name as it is written. A part without
/// an equals sign is no parameter.
pub open spec fn written_params(parts: Seq<Seq<char>>) -> Seq<(Seq<char>, Seq<char>)>
    decreases parts.len(),
{
    if parts.len() == 0 {
        Seq::empty()
    } else {
        let rest = written_params(parts.drop_last());
        match split_once(parts.last(), '=') {
            Some((name, value)) => rest.push(
                (trim(name, CharClass::White), unquoted_value(value)),
            ),
            None => rest,
        }
    }
}

/// The parameters with their names in lower case.
pub open spec fn lowered(params: Seq<(Seq<char>, Seq<char>)>) -> Seq<(Seq<char>, Seq<char>)> {
    Seq::new(params.len(), |i: int| (lower(params[i].0), params[i].1))
}

/// The value of the last parameter named `realm`, or the empty text where there is none.
pub open spec fn realm_of(params: Seq<(Seq<char>, Seq<char>)>) -> Seq<char>
    decreases params.len(),
{
    if params.len() == 0 {
        Seq::empty()
    } else if params.last().0 == "realm"@ {
        params.last().1
    } else {
        realm_of(params.drop_last())
    }
}

/// The parameters that are not named `realm`.
pub open spec fn params_besides_realm(params: Seq<(Seq<char>, Seq<char>)>) -> Seq<
    (Seq<char>, Seq<char>),
>
    decreases params.len(),
{
    if params.len() == 0 {
        Seq::empty()
    } else {
        let rest = params_besides_realm(params.drop_last());
        if params.last().0 == "realm"@ {
            rest
        } else {
            rest.push(params.last())
        }
    }
}

/// What stands behind the word that names a bearer challenge, in any case of its letters.
pub open spec fn bearer_rest(header: Seq<char>) -> Option<Seq<char>> {
    let n = "bearer "@.len();
    if header.len() >= n && lower(header.take(n as int)) == "bearer "@ {
        Some(header.skip(n as int))
    } else {
        None
    }
}

/// Removes the word that names a bearer challenge, where the header value starts with it.
fn without_bearer<'a>(header: &'a str) -> (res: Option<&'a str>)
    ensures
        match (res, bearer_rest(header@)) {
            (Some(r), Some(e)) => r@ == e,
            (None, None) => true,
            _ => false,
        },
{
    let n: usize = header.unicode_len();
    let m: usize = "bearer ".unicode_len();
    if m <= n {
        let head = header.substring_char(0, m);
        assert(head@ =~= header@.take(m as int));
        if same_text(head.to_lowercase().as_str(), "bearer ") {
            let tail = header.substring_char(m, n);
            assert(tail@ =~= header@.skip(m as int));
            return Some(tail);
        }
    }
    None
}

/// The parameters of a bearer challenge as they are written.
pub fn challenge_params(rest: &str) -> (res: Vec<(String, String)>)
    ensures
        pair_texts(res@) == written_params(kept_pieces(split_unquoted(rest@))),
{
    let parts = split_challenge_params(rest);
    let ghost all = slice_texts(parts@);
    let mut out: Vec<(String, String)> = Vec::new();
    let mut i: usize = 0;
    assert(all.take(0) =~= Seq::<Seq<char>>::empty());
    assert(pair_texts(out@) =~= Seq::<(Seq<char>, Seq<char>)>::empty());
    while i < parts.len()
        invariant
            i <= parts.len(),
            all == slice_texts(parts@),
            pair_texts(out@) == written_params(all.take(i as int)),
        decreases parts.len() - i,
    {
        assert(all.take(i + 1).drop_last() =~= all.take(i as int));
        assert(all.take(i + 1).last() == parts@[i as int]@);
        if let Some((name, value)) = cut_once(parts[i], '=') {
            let name = trimmed(name, CharClass::White).to_string();
            let value = trimmed(
                trimmed(value, CharClass::White),
                CharClass::Only('"'),
            ).to_string();
            let ghost before = out@;
            let ghost entry = (name@, value@);
            out.push((name, value));
            assert(pair_texts(out@) =~= pair_texts(before).push(entry));
        }
        i += 1;
    }
    assert(all.take(i as int) =~= all);
    out
}

/// Takes the realm out of the parameters of a challenge, whose names are in lower case.
pub fn take_realm(params: Vec<(String, String)>) -> (res: Result<
    (String, Vec<(String, String)>),
    Error,
>)
    ensures
        if realm_of(pair_texts(params@)).len() == 0 {
            res matches Err(e) && e@ == ErrorView::RegistryError(
                "WWW-Authenticate Bearer challenge missing realm"@,
            )
        } else {
            res matches Ok(r) && r.0@ == realm_of(pair_texts(params@)) && pair_texts(r.1@)
                == params_besides_realm(pair_texts(params@))
        },
{
    let ghost all = pair_texts(params@);
    let mut realm = String::new();
    let mut rest: Vec<(String, String)> = Vec::new();
    let mut i: usize = 0;
    assert(all.take(0) =~= Seq::<(Seq<char>, Seq<char>)>::empty());
    assert(pair_texts(rest@) =~= Seq::<(Seq<char>, Seq<char>)>::empty());
    while i < params.len()
        invariant
            i <= params.len(),
            all == pair_texts(params@),
            realm@ == realm_of(all.take(i as int)),
            pair_texts(rest@) == params_besides_realm(all.take(i as int)),
        decreases params.len() - i,
    {
        assert(all.take(i + 1).drop_last() =~= all.take(i as int));
        assert(all.take(i + 1).last() == all[i as int]);
        if same_text(params[i].0.as_str(), "realm") {
            realm = params[i].1.clone();
        } else {
            let ghost before = rest@;
            rest.push((params[i].0.clone(), params[i].1.clone()));
            assert(pair_texts(rest@) =~= pair_texts(before).push(all[i as int]));
        }
        i += 1;
    }
    assert(all.take(i as int) =~= all);
    if realm.as_str().is_empty() {
        return Err(
            Error::RegistryError("WWW-Authenticate Bearer challenge missing realm".to_string()),
        );
    }
    Ok((realm, rest))
}

/// The challenge that a header value holds: its realm and its other parameters in their order, with
/// their names in lower case.
pub open spec fn challenge_of(header: Seq<char>) -> Result<
    (Seq<char>, Seq<(Seq<char>, Seq<char>)>),
    ErrorView,
> {
    match bearer_rest(header) {
        None => Err(
            ErrorView::RegistryError(
                "expected Bearer WWW-Authenticate challenge, got: "@ + header,
            ),
        ),
        Some(rest) => {
            let params = lowered(written_params(kept_pieces(split_unquoted(rest))));
            if realm_of(params).len() == 0 {
                Err(ErrorView::RegistryError("WWW-Authenticate Bearer challenge missing realm"@))
            } else {
                Ok((realm_of(params), params_besides_realm(params)))
            }
        },
    }
}

/// Parses the value of a `WWW-Authenticate` header, as in
/// `Bearer realm="...",service="...",scope="..."`, into the realm and the other parameters. The word
/// `Bearer` may stand in any case.
pub fn parse_www_authenticate(header: &str) -> (res: Result<
    (String, Vec<(String, String)>),
    Error,
>)
    ensures
        match (res, challenge_of(header@)) {
            (Ok(r), Ok(c)) => r.0@ == c.0 && pair_texts(r.1@) == c.1,
            (Err(e), Err(v)) => e@ == v,
            _ => false,
        },
{
    match without_bearer(header) {
        None => {
            let mut text = "expected Bearer WWW-Authenticate challenge, got: ".to_string();
            text.append(header);
            Err(Error::RegistryError(text))
        },
        Some(rest) => {
            let written = challenge_params(rest);
            let mut params: Vec<(String, String)> = Vec::new();
            let mut i: usize = 0;
            while i < written.len()
                invariant
                    i <= written.len(),
                    i == params.len(),
                    forall|j: int|
                        0 <= j < i ==> (#[trigger] params@[j]).0@ == lower(written@[j].0@)
                            && params@[j].1@ == written@[j].1@,
                decreases written.len() - i,
            {
                let name = written[i].0.as_str().to_lowercase();
                params.push((name, written[i].1.clone()));
                i += 1;
            }
            assert(pair_texts(params@) =~= lowered(pair_texts(written@)));
            take_realm(params)
        },
    }
}

/// Whether the header value names a bearer challenge, in any case of its letters.
pub fn is_bearer_challenge(header: &str) -> (res: bool)
    ensures
        res == "bearer "@.is_prefix_of(lower(header@)),
{
    let lower = header.to_lowercase();
    without_prefix(lower.as_str(), "bearer ").is_some()
}

// ---------------------------------------------------------------------------
// The next page of a catalog
// ---------------------------------------------------------------------------

/// The brackets of the header stand in their order, or one is missing.
pub open spec fn brackets_in_order(link: Seq<char>) -> bool {
    position(link, '<') < link.len() && position(link, '>') < link.len() ==> position(link, '<')
        < position(link, '>')
}

/// The text between the first opening and the first closing bracket.
pub open spec fn link_target(link: Seq<char>) -> Option<Seq<char>> {
    if position(link, '<') < link.len() && position(link, '>') < link.len() {
        Some(link.subrange(position(link, '<') + 1, position(link, '>')))
    } else {
        None
    }
}

/// The value of the first parameter with the name.
pub open spec fn first_value(params: Seq<Seq<char>>, name: Seq<char>) -> Option<Seq<char>>
    decreases params.len(),
{
    if params.len() == 0 {
        None
    } else {
        match split_once(params[0], '=') {
            Some((k, v)) if k == name => Some(v),
            _ => first_value(params.drop_first(), name),
        }
    }
}

/// The value of a parameter in the query of a URL, which stands between its first and its second
/// question mark.
pub open spec fn query_value(url: Seq<char>, name: Seq<char>) -> Option<Seq<char>> {
    let pieces = split(url, '?');
    if pieces.len() > 1 {
        first_value(split(pieces[1], '&'), name)
    } else {
        None
    }
}

/// Whether the brackets of a `Link` header value stand in their order, or one is missing.
pub fn link_is_ordered(link: &str) -> (res: bool)
    ensures
        res == brackets_in_order(link@),
{
    let chars = chars_of(link);
    let n: usize = chars.len();
    let open: usize = find_char(&chars, '<');
    let close: usize = find_char(&chars, '>');
    !(open < n && close < n) || open < close
}

/// Extracts the `last=` cursor from the value of a `Link` header, as in
/// `</v2/_catalog?last=foo&n=100>; rel="next"`.
pub fn parse_link_last(link: &str) -> (res: Option<String>)
    requires
        brackets_in_order(link@),
    ensures
        match (res, link_target(link@)) {
            (Some(r), Some(url)) => query_value(url, "last"@) == Some(r@),
            (None, Some(url)) => query_value(url, "last"@) is None,
            (None, None) => true,
            (Some(_), None) => false,
        },
{
    let chars = chars_of(link);
    let n: usize = chars.len();
    let open: usize = find_char(&chars, '<');
    let close: usize = find_char(&chars, '>');
    proof {
        lemma_position(link@, '<');
        lemma_position(link@, '>');
    }
    if open >= n || close >= n {
        return None;
    }
    let url = link.substring_char(open + 1, close);
    let pieces = cut(url, '?');
    assert(slice_texts(pieces@).len() == pieces@.len());
    if pieces.len() < 2 {
        return None;
    }
    assert(slice_texts(pieces@)[1] == pieces@[1]@);
    let params = cut(pieces[1], '&');
    let ghost all = slice_texts(params@);
    let mut i: usize = 0;
    assert(all.skip(0) =~= all);
    while i < params.len()
        invariant
            i <= params.len(),
            all == slice_texts(params@),
            link_target(link@) is Some,
            query_value(link_target(link@)->0, "last"@) == first_value(all, "last"@),
            first_value(all, "last"@) == first_value(all.skip(i as int), "last"@),
        decreases params.len() - i,
    {
        assert(all.skip(i as int)[0] == params@[i as int]@);
        assert(all.skip(i as int).drop_first() =~= all.skip(i + 1));
        if let Some((k, v)) = cut_once(params[i], '=') {
            if same_text(k, "last") {
                return Some(v.to_string());
            }
        }
        i += 1;
    }
    None
}

// ---------------------------------------------------------------------------
// Laws
// ---------------------------------------------------------------------------

/// Whether the text may name a parameter: it is made of ASCII characters in lower case other than white
/// space, quotes, commas and equals signs.
pub open spec fn is_param_name(name: Seq<char>) -> bool {
    name.len() > 0 && forall|i: int|
        0 <= i < name.len() ==> {
            let c = #[trigger] name[i];
            c <= '\u{7f}' && ascii_lower(c) == c && !CharClass::White.has(c) && c != '"' && c != ','
                && c != '='
        }
}

/// Whether the text may name a parameter, in any case of its letters.
pub open spec fn is_token(name: Seq<char>) -> bool {
    name.len() > 0 && forall|i: int|
        0 <= i < name.len() ==> {
            let c = #[trigger] name[i];
            c <= '\u{7f}' && !CharClass::White.has(c) && c != '"' && c != ',' && c != '='
        }
}

/// A parameter as it is written in a challenge, as in `realm="..."`.
pub open spec fn param_text(param: (Seq<char>, Seq<char>)) -> Seq<char> {
    (param.0.push('=').push('"') + param.1).push('"')
}

/// Parameters as they are written in a challenge, with commas between them.
pub open spec fn params_text(params: Seq<(Seq<char>, Seq<char>)>) -> Seq<char>
    decreases params.len(),
{
    if params.len() == 0 {
        Seq::empty()
    } else if params.len() == 1 {
        param_text(params[0])
    } else {
        param_text(params[0]).push(',') + params_text(params.drop_first())
    }
}

/// The parameters as they are written one by one.
spec fn param_list(params: Seq<(Seq<char>, Seq<char>)>) -> Seq<Seq<char>> {
    Seq::new(params.len(), |i: int| param_text(params[i]))
}

/// Whether parameters can be written in a challenge and read back.
pub open spec fn are_params(params: Seq<(Seq<char>, Seq<char>)>) -> bool {
    forall|i: int|
        0 <= i < params.len() ==> is_param_name((#[trigger] params[i]).0) && !params[i].1.contains(
            '"',
        )
}

/// Whether parameters can be written in a challenge and read back, but for the case of their names.
pub open spec fn are_tokens(params: Seq<(Seq<char>, Seq<char>)>) -> bool {
    forall|i: int|
        0 <= i < params.len() ==> is_token((#[trigger] params[i]).0) && !params[i].1.contains('"')
}

/// A challenge that is written with its parameters, as in `Bearer realm="...",service="...",scope="..."`,
/// is read as its realm and its other parameters, where it has a realm.
pub proof fn law_challenge_reads_back(params: Seq<(Seq<char>, Seq<char>)>)
    requires
        are_params(params),
        realm_of(params).len() > 0,
    ensures
        challenge_of("Bearer "@ + params_text(params)) == Ok::<
            (Seq<char>, Seq<(Seq<char>, Seq<char>)>),
            ErrorView,
        >((realm_of(params), params_besides_realm(params))),
{
    let text = params_text(params);
    let header = "Bearer "@ + text;
    assert(bearer_rest(header) == Some(text)) by {
        reveal_strlit("Bearer ");
        reveal_strlit("bearer ");
        assert(header.take(7) =~= "Bearer "@);
        assert("Bearer "@.map_values(|c: char| ascii_lower(c)) =~= "bearer "@);
        assert(header.skip(7) =~= text);
    }
    assert forall|i: int| 0 <= i < params.len() implies is_token((#[trigger] params[i]).0)
        && !params[i].1.contains('"') by {
        assert(is_param_name(params[i].0));
    }
    lemma_params_split(params);
    lemma_params_kept(params);
    lemma_params_read(params);
    assert(lowered(params) =~= params) by {
        assert forall|i: int| 0 <= i < params.len() implies lowered(params)[i] == #[trigger] params[i] by {
            let name = params[i].0;
            assert forall|j: int| 0 <= j < name.len() implies '\0' <= #[trigger] name[j] <= '\u{7f}' by {
            }
            assert(name.map_values(|c: char| ascii_lower(c)) =~= name);
        }
    }
}

/// A header value of ASCII characters is recognized as a bearer challenge, in any case of its letters, if and
/// only if it is read as one.
pub proof fn law_bearer_challenge_is_read(header: Seq<char>)
    requires
        is_ascii_chars(header),
    ensures
        "bearer "@.is_prefix_of(lower(header)) <==> bearer_rest(header) is Some,
{
    let n = "bearer "@.len() as int;
    if header.len() >= n {
        let head = header.take(n);
        assert forall|i: int| 0 <= i < head.len() implies '\0' <= #[trigger] head[i] <= '\u{7f}' by {
            assert(head[i] == header[i]);
        }
        assert(lower(header).take(n) =~= lower(head));
    }
}

/// What has no quote, and no comma unless it stands inside quotes, is passed over.
proof fn lemma_passed_over(a: Seq<char>, b: Seq<char>, quoted: bool)
    requires
        !a.contains('"'),
        quoted || !a.contains(','),
    ensures
        unquoted_comma(a + b, quoted) == a.len() + unquoted_comma(b, quoted),
    decreases a.len(),
{
    if a.len() == 0 {
        assert(a + b =~= b);
    } else {
        let rest = a.drop_first();
        assert(a.contains(a[0]));
        assert forall|c: char| rest.contains(c) implies a.contains(c) by {
            let i = choose|i: int| 0 <= i < rest.len() && rest[i] == c;
            assert(a[i + 1] == c);
        }
        lemma_passed_over(rest, b, quoted);
        assert((a + b)[0] == a[0]);
        assert((a + b).drop_first() =~= rest + b);
    }
}

/// A parameter that is written holds no comma outside its quotes.
proof fn lemma_param_passed_over(param: (Seq<char>, Seq<char>), rest: Seq<char>)
    requires
        is_token(param.0),
        !param.1.contains('"'),
    ensures
        unquoted_comma(param_text(param) + rest, false) == param_text(param).len() + unquoted_comma(
            rest,
            false,
        ),
{
    let head = param.0.push('=');
    let tail = seq!['"'] + rest;
    let inside = param.1 + tail;
    let value = seq!['"'] + inside;
    assert(param_text(param) + rest =~= head + value);
    assert forall|c: char| head.contains(c) implies c != '"' && c != ',' by {
        let i = choose|i: int| 0 <= i < head.len() && head[i] == c;
        if i < param.0.len() {
            assert(head[i] == param.0[i]);
        }
    }
    lemma_passed_over(head, value, false);
    assert(value.drop_first() =~= inside);
    lemma_passed_over(param.1, tail, true);
    assert(tail.drop_first() =~= rest);
}

/// Parameters that are written are split into themselves.
proof fn lemma_params_split(params: Seq<(Seq<char>, Seq<char>)>)
    requires
        are_tokens(params),
        params.len() > 0,
    ensures
        split_unquoted(params_text(params)) == param_list(params),
    decreases params.len(),
{
    let first = param_text(params[0]);
    let text = params_text(params);
    if params.len() == 1 {
        lemma_param_passed_over(params[0], Seq::empty());
        assert(first + Seq::<char>::empty() =~= first);
        assert(param_list(params) =~= seq![first]);
    } else {
        let rest = params.drop_first();
        assert forall|i: int| 0 <= i < rest.len() implies is_token((#[trigger] rest[i]).0)
            && !rest[i].1.contains('"') by {
            assert(rest[i] == params[i + 1]);
        }
        lemma_params_split(rest);
        let behind = seq![','] + params_text(rest);
        lemma_param_passed_over(params[0], behind);
        assert(text =~= first + behind);
        assert(unquoted_comma(text, false) == first.len());
        assert(text.take(first.len() as int) =~= first);
        assert(text.skip(first.len() as int + 1) =~= params_text(rest));
        assert(param_list(params) =~= seq![first] + param_list(rest));
    }
}

/// What starts and ends with other characters is not trimmed.
proof fn lemma_not_trimmed(s: Seq<char>, class: CharClass)
    requires
        s.len() > 0,
        !class.has(s[0]),
        !class.has(s.last()),
    ensures
        trim(s, class) == s,
{
}

/// Parameters that are written are kept as they are.
proof fn lemma_params_kept(params: Seq<(Seq<char>, Seq<char>)>)
    requires
        are_tokens(params),
    ensures
        kept_pieces(param_list(params)) == param_list(params),
    decreases params.len(),
{
    let list = param_list(params);
    if params.len() == 0 {
        assert(kept_pieces(list) =~= list);
    } else {
        let rest = params.drop_last();
        assert forall|i: int| 0 <= i < rest.len() implies is_token((#[trigger] rest[i]).0)
            && !rest[i].1.contains('"') by {
            assert(rest[i] == params[i]);
        }
        lemma_params_kept(rest);
        assert(list.drop_last() =~= param_list(rest));
        let last = params[params.len() - 1];
        assert(list.last() == param_text(last));
        assert(param_text(last)[0] == last.0[0]);
        lemma_not_trimmed(param_text(last), CharClass::White);
        assert(list =~= param_list(rest).push(param_text(last)));
    }
}

/// The quotes around a value that holds none are trimmed, and nothing else is.
proof fn lemma_quotes_trimmed(value: Seq<char>)
    requires
        !value.contains('"'),
    ensures
        unquoted_value(seq!['"'] + value.push('"')) == value,
{
    let class = CharClass::Only('"');
    let s = seq!['"'] + value.push('"');
    lemma_not_trimmed(s, CharClass::White);
    assert(s.drop_first() =~= value.push('"'));
    if value.len() == 0 {
        assert(value.push('"').drop_first() =~= Seq::<char>::empty());
        assert(trim_start(value.push('"'), class) == trim_start(Seq::<char>::empty(), class));
        assert(trim(s, class) =~= value);
    } else {
        assert(value.contains(value[0]));
        assert(value.push('"')[0] == value[0]);
        assert(trim_start(value.push('"'), class) == value.push('"'));
        assert(trim_start(s, class) == value.push('"'));
        assert(value.push('"').drop_last() =~= value);
        assert(value.contains(value.last()));
        assert(trim_end(value, class) == value);
    }
}

/// Parameters that are written are read back.
proof fn lemma_params_read(params: Seq<(Seq<char>, Seq<char>)>)
    requires
        are_tokens(params),
    ensures
        written_params(param_list(params)) == params,
    decreases params.len(),
{
    let list = param_list(params);
    if params.len() == 0 {
        assert(written_params(list) =~= params);
    } else {
        let rest = params.drop_last();
        assert forall|i: int| 0 <= i < rest.len() implies is_token((#[trigger] rest[i]).0)
            && !rest[i].1.contains('"') by {
            assert(rest[i] == params[i]);
        }
        lemma_params_read(rest);
        assert(list.drop_last() =~= param_list(rest));
        let last = params[params.len() - 1];
        let text = param_text(last);
        let n = last.0.len() as int;
        assert forall|i: int| 0 <= i < n implies text[i] != '=' by {
            assert(text[i] == last.0[i]);
        }
        assert(text[n] == '=');
        lemma_position_unique(text, '=', n);
        assert(text.take(n) =~= last.0);
        assert(text.skip(n + 1) =~= seq!['"'] + last.1.push('"'));
        lemma_not_trimmed(last.0, CharClass::White);
        lemma_quotes_trimmed(last.1);
        assert(params =~= rest.push(last));
    }
}

/// The query of a URL with the given parameters.
pub open spec fn query_text(params: Seq<Seq<char>>) -> Seq<char>
    decreases params.len(),
{
    if params.len() == 0 {
        Seq::empty()
    } else if params.len() == 1 {
        params[0]
    } else {
        params[0].push('&') + query_text(params.drop_first())
    }
}

/// Whether the text can be a parameter of a URL in a `Link` header.
pub open spec fn is_link_param(text: Seq<char>) -> bool {
    !text.contains('>') && !text.contains('?') && !text.contains('&')
}

/// Whether the parameter has the name.
pub open spec fn is_named(param: Seq<char>, name: Seq<char>) -> bool {
    split_once(param, '=') matches Some((k, _)) && k == name
}

/// A `Link` header that holds a URL.
pub open spec fn link_text(url: Seq<char>, rest: Seq<char>) -> Seq<char> {
    seq!['<'] + url + seq!['>'] + rest
}

/// A `Link` header that is written with a cursor, as in `</v2/_catalog?last=foo&n=100>; rel="next"` or in
/// `</v2/_catalog?n=100&last=foo>; rel="next"`, is read as that cursor, whatever parameters stand before it
/// under other names and behind it.
pub proof fn law_link_reads_back(
    path: Seq<char>,
    params: Seq<Seq<char>>,
    at: int,
    last: Seq<char>,
    rest: Seq<char>,
)
    requires
        !path.contains('>'),
        !path.contains('?'),
        forall|i: int| 0 <= i < params.len() ==> is_link_param(#[trigger] params[i]),
        0 <= at < params.len(),
        params[at] == "last="@ + last,
        forall|i: int| 0 <= i < at ==> !is_named(#[trigger] params[i], "last"@),
    ensures
        brackets_in_order(link_text(path.push('?') + query_text(params), rest)),
        link_target(link_text(path.push('?') + query_text(params), rest)) == Some(
            path.push('?') + query_text(params),
        ),
        query_value(path.push('?') + query_text(params), "last"@) == Some(last),
{
    let query = query_text(params);
    let url = path.push('?') + query;
    lemma_query_characters(params);
    assert(!url.contains('>')) by {
        if url.contains('>') {
            let i = choose|i: int| 0 <= i < url.len() && url[i] == '>';
            if i < path.len() {
                assert(url[i] == path[i]);
            } else if i > path.len() {
                assert(url[i] == query[i - path.len() - 1]);
            }
        }
    }
    lemma_link_target(url, rest);
    lemma_query_found(path, query);
    lemma_query_split(params);
    lemma_cursor_found(params, at, last);
}

/// The characters of a query are those of its parameters and what joins them.
proof fn lemma_query_characters(params: Seq<Seq<char>>)
    requires
        forall|i: int| 0 <= i < params.len() ==> is_link_param(#[trigger] params[i]),
    ensures
        !query_text(params).contains('>'),
        !query_text(params).contains('?'),
    decreases params.len(),
{
    if params.len() > 1 {
        let tail = params.drop_first();
        assert forall|i: int| 0 <= i < tail.len() implies is_link_param(#[trigger] tail[i]) by {
            assert(tail[i] == params[i + 1]);
        }
        lemma_query_characters(tail);
        let head = params[0].push('&');
        let query = head + query_text(tail);
        assert(is_link_param(params[0]));
        assert forall|i: int| 0 <= i < query.len() implies query[i] != '>' && query[i] != '?' by {
            if i < params[0].len() {
                assert(query[i] == params[0][i]);
                assert(params[0].contains(params[0][i]));
            } else if i > params[0].len() {
                assert(query[i] == query_text(tail)[i - head.len()]);
                assert(query_text(tail).contains(query_text(tail)[i - head.len()]));
            }
        }
    } else if params.len() == 1 {
        assert(is_link_param(params[0]));
    }
}

/// The URL of a `Link` header is found between the brackets.
proof fn lemma_link_target(url: Seq<char>, rest: Seq<char>)
    requires
        !url.contains('>'),
    ensures
        brackets_in_order(link_text(url, rest)),
        link_target(link_text(url, rest)) == Some(url),
{
    let link = link_text(url, rest);
    let end = 1 + url.len() as int;
    assert(link[0] == '<');
    assert(link[end] == '>');
    assert forall|i: int| 0 <= i < end implies link[i] != '>' by {
        if i > 0 {
            assert(link[i] == url[i - 1]);
            assert(url.contains(url[i - 1]));
        }
    }
    lemma_position_unique(link, '<', 0);
    lemma_position_unique(link, '>', end);
    assert(link.subrange(1, end) =~= url);
}

/// The query of a URL is what stands behind its only question mark.
proof fn lemma_query_found(path: Seq<char>, query: Seq<char>)
    requires
        !path.contains('?'),
        !query.contains('?'),
    ensures
        split(path.push('?') + query, '?').len() == 2,
        split(path.push('?') + query, '?')[1] == query,
{
    let url = path.push('?') + query;
    let n = path.len() as int;
    assert forall|i: int| 0 <= i < n implies url[i] != '?' by {
        assert(url[i] == path[i]);
        assert(path.contains(path[i]));
    }
    assert(url[n] == '?');
    lemma_position_unique(url, '?', n);
    assert(url.skip(n + 1) =~= query);
    assert forall|i: int| 0 <= i < query.len() implies query[i] != '?' by {
        assert(query.contains(query[i]));
    }
    lemma_position_unique(query, '?', query.len() as int);
    assert(split(query, '?') == seq![query]);
    assert(split(url, '?') =~= seq![url.take(n), query]);
}

/// A query is cut into its parameters.
proof fn lemma_query_split(params: Seq<Seq<char>>)
    requires
        params.len() > 0,
        forall|i: int| 0 <= i < params.len() ==> is_link_param(#[trigger] params[i]),
    ensures
        split(query_text(params), '&') == params,
    decreases params.len(),
{
    let first = params[0];
    let query = query_text(params);
    let n = first.len() as int;
    assert(is_link_param(first));
    assert forall|i: int| 0 <= i < n implies query[i] != '&' by {
        assert(query[i] == first[i]);
        assert(first.contains(first[i]));
    }
    lemma_position_unique(query, '&', n);
    if params.len() == 1 {
        assert(split(query, '&') =~= params);
    } else {
        let tail = params.drop_first();
        assert forall|i: int| 0 <= i < tail.len() implies is_link_param(#[trigger] tail[i]) by {
            assert(tail[i] == params[i + 1]);
        }
        lemma_query_split(tail);
        assert(query.take(n) =~= first);
        assert(query.skip(n + 1) =~= query_text(tail));
        assert(seq![first] + tail =~= params);
    }
}

/// A cursor is found behind parameters with other names.
proof fn lemma_cursor_found(params: Seq<Seq<char>>, at: int, last: Seq<char>)
    requires
        0 <= at < params.len(),
        params[at] == "last="@ + last,
        forall|i: int| 0 <= i < at ==> !is_named(#[trigger] params[i], "last"@),
    ensures
        first_value(params, "last"@) == Some(last),
    decreases params.len(),
{
    if at == 0 {
        reveal_strlit("last=");
        reveal_strlit("last");
        let kv = params[0];
        assert(kv[4] == '=');
        lemma_position_unique(kv, '=', 4);
        assert(kv.take(4) =~= "last"@);
        assert(kv.skip(5) =~= last);
    } else {
        let tail = params.drop_first();
        assert(!is_named(params[0], "last"@));
        assert forall|i: int| 0 <= i < at - 1 implies !is_named(#[trigger] tail[i], "last"@) by {
            assert(tail[i] == params[i + 1]);
        }
        lemma_cursor_found(tail, at - 1, last);
    }
}

/// The parameters as they are written in a challenge: `name="value"` each, with commas between them.
pub open spec fn challenge_text(params: Seq<(Seq<char>, Seq<char>)>) -> Seq<char> {
    joined(Seq::new(params.len(), |i: int| params[i].0 + "=\""@ + params[i].1 + "\""@), ',')
}

/// Parameters that are joined are written.
proof fn lemma_challenge_text(params: Seq<(Seq<char>, Seq<char>)>)
    ensures
        challenge_text(params) == params_text(params),
    decreases params.len(),
{
    reveal_strlit("=\"");
    reveal_strlit("\"");
    let all = Seq::new(params.len(), |i: int| params[i].0 + "=\""@ + params[i].1 + "\""@);
    if params.len() > 0 {
        assert(all[0] =~= param_text(params[0]));
        let rest = params.drop_first();
        lemma_challenge_text(rest);
        assert(all.drop_first() =~= Seq::new(
            rest.len(),
            |i: int| rest[i].0 + "=\""@ + rest[i].1 + "\""@,
        ));
    }
}

/// A challenge that is written with its parameters is read as the value of the one that is named `realm` and all the
/// others in their order, their names in lower case. Names and the word `Bearer` may be written in any case.
pub proof fn law_written_challenge_is_read(
    word: Seq<char>,
    params: Seq<(Seq<char>, Seq<char>)>,
    at: int,
)
    requires
        word.len() == 7,
        lower(word) == "bearer "@,
        are_tokens(params),
        0 <= at < params.len(),
        lower(params[at].0) == "realm"@,
        params[at].1.len() > 0,
        forall|i: int| 0 <= i < params.len() && i != at ==> lower((#[trigger] params[i]).0) != "realm"@,
    ensures
        challenge_of(word + challenge_text(params)) matches Ok(c) && {
            &&& c.0 == params[at].1
            &&& c.1.len() == params.len() - 1
            &&& forall|i: int|
                0 <= i < at ==> (#[trigger] c.1[i]) == (lower(params[i].0), params[i].1)
            &&& forall|i: int|
                at <= i < params.len() - 1 ==> (#[trigger] c.1[i]) == (
                    lower(params[i + 1].0),
                    params[i + 1].1,
                )
        },
{
    let text = challenge_text(params);
    let header = word + text;
    lemma_challenge_text(params);
    reveal_strlit("bearer ");
    assert(header.take(7) =~= word);
    assert(header.skip(7) =~= text);
    assert(bearer_rest(header) == Some(text));
    lemma_params_split(params);
    lemma_params_kept(params);
    lemma_params_read(params);
    let low = lowered(params);
    assert(written_params(kept_pieces(split_unquoted(text))) == params);
    let last = low.take(at + 1);
    assert(last.last() == (lower(params[at].0), params[at].1));
    lemma_realm_found(low, at);
    assert(params_besides_realm(low) == low.remove(at));
}

/// The only parameter named `realm` is the realm, and all others are left.
proof fn lemma_realm_found(params: Seq<(Seq<char>, Seq<char>)>, at: int)
    requires
        0 <= at < params.len(),
        params[at].0 == "realm"@,
        forall|i: int| 0 <= i < params.len() && i != at ==> (#[trigger] params[i]).0 != "realm"@,
    ensures
        realm_of(params) == params[at].1,
        params_besides_realm(params) == params.remove(at),
    decreases params.len(),
{
    let rest = params.drop_last();
    if at == params.len() - 1 {
        lemma_no_realm(rest);
        assert(params.remove(at) =~= rest);
    } else {
        assert(params[params.len() - 1].0 != "realm"@);
        assert forall|i: int| 0 <= i < rest.len() && i != at implies (#[trigger] rest[i]).0 != "realm"@ by {
            assert(rest[i] == params[i]);
        }
        lemma_realm_found(rest, at);
        assert(params.remove(at) =~= rest.remove(at).push(params.last()));
    }
}

/// Where no parameter is named `realm`, all are left.
proof fn lemma_no_realm(params: Seq<(Seq<char>, Seq<char>)>)
    requires
        forall|i: int| 0 <= i < params.len() ==> (#[trigger] params[i]).0 != "realm"@,
    ensures
        realm_of(params).len() == 0,
        params_besides_realm(params) == params,
    decreases params.len(),
{
    if params.len() > 0 {
        let rest = params.drop_last();
        assert(params[params.len() - 1].0 != "realm"@);
        assert forall|i: int| 0 <= i < rest.len() implies (#[trigger] rest[i]).0 != "realm"@ by {
            assert(rest[i] == params[i]);
        }
        lemma_no_realm(rest);
        assert(rest.push(params.last()) =~= params);
    } else {
        assert(params_besides_realm(params) =~= params);
    }
}

/// A challenge without a realm is an error, and so is what does not start with the word `Bearer`.
pub proof fn law_no_challenge_without_realm(header: Seq<char>, params: Seq<(Seq<char>, Seq<char>)>)
    requires
        are_tokens(params),
        params.len() > 0,
        forall|i: int| 0 <= i < params.len() ==> lower((#[trigger] params[i]).0) != "realm"@,
    ensures
        challenge_of("Bearer "@ + challenge_text(params)) is Err,
        challenge_of(header) is Ok ==> header.len() >= 7 && lower(header.take(7)) == "bearer "@,
{
    let text = challenge_text(params);
    let full = "Bearer "@ + text;
    lemma_challenge_text(params);
    reveal_strlit("Bearer ");
    reveal_strlit("bearer ");
    assert(full.take(7) =~= "Bearer "@);
    assert("Bearer "@.map_values(|c: char| ascii_lower(c)) =~= "bearer "@);
    assert(full.skip(7) =~= text);
    assert(bearer_rest(full) == Some(text));
    lemma_params_split(params);
    lemma_params_kept(params);
    lemma_params_read(params);
    let low = lowered(params);
    lemma_no_realm(low);
}

/// How a parameter is written: the white space before its name, behind it, before its value and behind that, and whether
/// the value stands in quotes.
pub struct Writing {
    pub before: Seq<char>,
    pub after_name: Seq<char>,
    pub before_value: Seq<char>,
    pub behind: Seq<char>,
    pub quoted: bool,
}

/// The value of a parameter as it is written.
pub open spec fn value_text(value: Seq<char>, writing: Writing) -> Seq<char> {
    if writing.quoted {
        seq!['"'] + value.push('"')
    } else {
        value
    }
}

/// A parameter as it is written.
pub open spec fn loose_text(param: (Seq<char>, Seq<char>), writing: Writing) -> Seq<char> {
    writing.before + ((param.0 + writing.after_name).push('=') + (writing.before_value + value_text(
        param.1,
        writing,
    ))) + writing.behind
}

/// Whether a parameter can be written so and read back: its name is made of characters that a name can have, and a value
/// without quotes around it holds neither white space nor commas nor quotes.
pub open spec fn can_be_written(param: (Seq<char>, Seq<char>), writing: Writing) -> bool {
    &&& is_token(param.0)
    &&& all_in(writing.before, CharClass::White)
    &&& all_in(writing.after_name, CharClass::White)
    &&& all_in(writing.before_value, CharClass::White)
    &&& all_in(writing.behind, CharClass::White)
    &&& forall|i: int| 0 <= i < param.1.len() ==> (#[trigger] param.1[i]) != '"'
    &&& !writing.quoted ==> param.1.len() > 0 && forall|i: int|
        0 <= i < param.1.len() ==> !CharClass::White.has(#[trigger] param.1[i]) && param.1[i] != ','
}

/// The parameters as they are written, one by one.
pub open spec fn loose_texts(
    params: Seq<(Seq<char>, Seq<char>)>,
    writings: Seq<Writing>,
) -> Seq<Seq<char>> {
    Seq::new(params.len(), |i: int| loose_text(params[i], writings[i]))
}

/// White space holds no quote, no comma and no equals sign.
proof fn lemma_white(s: Seq<char>)
    requires
        all_in(s, CharClass::White),
    ensures
        !s.contains('"'),
        !s.contains(','),
        !s.contains('='),
{
    if s.contains('"') || s.contains(',') || s.contains('=') {
        let i = choose|i: int| 0 <= i < s.len() && (s[i] == '"' || s[i] == ',' || s[i] == '=');
        assert(CharClass::White.has(s[i]));
    }
}

/// A parameter holds no comma outside quotes, however it is written.
proof fn lemma_loose_passed_over(
    param: (Seq<char>, Seq<char>),
    writing: Writing,
    rest: Seq<char>,
)
    requires
        can_be_written(param, writing),
    ensures
        unquoted_comma(loose_text(param, writing) + rest, false) == loose_text(param, writing).len()
            + unquoted_comma(rest, false),
{
    let head = writing.before + (param.0 + writing.after_name).push('=') + writing.before_value;
    let text = loose_text(param, writing);
    lemma_white(writing.before);
    lemma_white(writing.after_name);
    lemma_white(writing.before_value);
    lemma_white(writing.behind);
    assert forall|i: int| 0 <= i < head.len() implies head[i] != '"' && head[i] != ',' by {
        let a = writing.before.len() as int;
        let b = a + param.0.len();
        let c = b + writing.after_name.len();
        if i < a {
            assert(head[i] == writing.before[i]);
            assert(writing.before.contains(writing.before[i]));
        } else if i < b {
            assert(head[i] == param.0[i - a]);
        } else if i < c {
            assert(head[i] == writing.after_name[i - b]);
            assert(writing.after_name.contains(writing.after_name[i - b]));
        } else if i > c {
            assert(head[i] == writing.before_value[i - c - 1]);
            assert(writing.before_value.contains(writing.before_value[i - c - 1]));
        }
    }
    let tail = writing.behind + rest;
    if writing.quoted {
        let close = seq!['"'] + tail;
        let inside = param.1 + close;
        let open = seq!['"'] + inside;
        assert(text + rest =~= head + open);
        lemma_passed_over(head, open, false);
        assert(open.drop_first() =~= inside);
        lemma_passed_over(param.1, close, true);
        assert(close.drop_first() =~= tail);
    } else {
        let value = param.1 + tail;
        assert(text + rest =~= head + value);
        lemma_passed_over(head, value, false);
        lemma_passed_over(param.1, tail, false);
    }
    lemma_passed_over(writing.behind, rest, false);
}

/// Parameters are split into themselves, however they are written.
proof fn lemma_loose_split(params: Seq<(Seq<char>, Seq<char>)>, writings: Seq<Writing>)
    requires
        params.len() > 0,
        params.len() == writings.len(),
        forall|i: int| 0 <= i < params.len() ==> can_be_written(#[trigger] params[i], writings[i]),
    ensures
        split_unquoted(joined(loose_texts(params, writings), ',')) == loose_texts(params, writings),
    decreases params.len(),
{
    let list = loose_texts(params, writings);
    let first = list[0];
    let text = joined(list, ',');
    assert(can_be_written(params[0], writings[0]));
    if params.len() == 1 {
        lemma_loose_passed_over(params[0], writings[0], Seq::empty());
        assert(first + Seq::<char>::empty() =~= first);
        assert(list =~= seq![first]);
    } else {
        let rest = params.drop_first();
        let others = writings.drop_first();
        assert forall|i: int| 0 <= i < rest.len() implies can_be_written(#[trigger] rest[i], others[i]) by {
            assert(rest[i] == params[i + 1]);
        }
        lemma_loose_split(rest, others);
        assert(list.drop_first() =~= loose_texts(rest, others));
        let behind = seq![','] + joined(loose_texts(rest, others), ',');
        lemma_loose_passed_over(params[0], writings[0], behind);
        assert(text =~= first + behind);
        assert(unquoted_comma(behind, false) == 0);
        assert(text.take(first.len() as int) =~= first);
        assert(text.skip(first.len() as int + 1) =~= joined(loose_texts(rest, others), ','));
        assert(list =~= seq![first] + loose_texts(rest, others));
    }
}

/// A parameter without the white space around it.
spec fn core_text(param: (Seq<char>, Seq<char>), writing: Writing) -> Seq<char> {
    (param.0 + writing.after_name).push('=') + (writing.before_value + value_text(param.1, writing))
}

/// A parameter is read back, however it is written.
proof fn lemma_loose_read(param: (Seq<char>, Seq<char>), writing: Writing)
    requires
        can_be_written(param, writing),
    ensures
        trim(loose_text(param, writing), CharClass::White) == core_text(param, writing),
        core_text(param, writing).len() > 0,
        split_once(core_text(param, writing), '=') matches Some((name, value)) && trim(
            name,
            CharClass::White,
        ) == param.0 && unquoted_value(value) == param.1,
{
    let core = core_text(param, writing);
    let value = value_text(param.1, writing);
    assert(core[0] == param.0[0]);
    assert(core.last() == value.last());
    assert(!CharClass::White.has(value.last()));
    law_padding_is_trimmed(writing.before, core, writing.behind, CharClass::White);
    lemma_white(writing.after_name);
    let head = param.0 + writing.after_name;
    let n = head.len() as int;
    assert forall|i: int| 0 <= i < n implies core[i] != '=' by {
        if i < param.0.len() {
            assert(core[i] == param.0[i]);
        } else {
            assert(core[i] == writing.after_name[i - param.0.len()]);
            assert(writing.after_name.contains(writing.after_name[i - param.0.len()]));
        }
    }
    assert(core[n] == '=');
    lemma_position_unique(core, '=', n);
    assert(core.take(n) =~= head);
    let tail = writing.before_value + value;
    assert(core.skip(n + 1) =~= tail);
    let none = Seq::<char>::empty();
    assert(all_in(none, CharClass::White));
    assert(none + param.0 + writing.after_name =~= head);
    law_padding_is_trimmed(none, param.0, writing.after_name, CharClass::White);
    assert(writing.before_value + value + none =~= tail);
    law_padding_is_trimmed(writing.before_value, value, none, CharClass::White);
    assert(trim(tail, CharClass::White) == value);
    if writing.quoted {
        assert(!param.1.contains('"'));
        lemma_quotes_trimmed(param.1);
        lemma_not_trimmed(value, CharClass::White);
    } else {
        assert(param.1[0] != '"');
        assert(param.1.last() != '"');
        lemma_not_trimmed(value, CharClass::Only('"'));
    }
}

/// Parameters are read back, however they are written.
proof fn lemma_loose_params(params: Seq<(Seq<char>, Seq<char>)>, writings: Seq<Writing>)
    requires
        params.len() == writings.len(),
        forall|i: int| 0 <= i < params.len() ==> can_be_written(#[trigger] params[i], writings[i]),
    ensures
        written_params(kept_pieces(loose_texts(params, writings))) == params,
    decreases params.len(),
{
    let list = loose_texts(params, writings);
    if params.len() == 0 {
        assert(kept_pieces(list) =~= Seq::<Seq<char>>::empty());
        assert(written_params(Seq::<Seq<char>>::empty()) =~= params);
    } else {
        let rest = params.drop_last();
        let others = writings.drop_last();
        assert forall|i: int| 0 <= i < rest.len() implies can_be_written(#[trigger] rest[i], others[i]) by {
            assert(rest[i] == params[i]);
        }
        lemma_loose_params(rest, others);
        assert(list.drop_last() =~= loose_texts(rest, others));
        let last = params[params.len() - 1];
        let writing = writings[params.len() - 1];
        assert(can_be_written(last, writing));
        assert(list.last() == loose_text(last, writing));
        lemma_loose_read(last, writing);
        let before = kept_pieces(loose_texts(rest, others));
        assert(kept_pieces(list) == before.push(core_text(last, writing)));
        assert(before.push(core_text(last, writing)).drop_last() =~= before);
        assert(params =~= rest.push(last));
    }
}

/// White space around the names and the values of a challenge does not matter, nor does it whether a plain value stands in
/// quotes: the challenge is read as the value of the parameter that is named `realm` and all the others in their order,
/// their names in lower case.
pub proof fn law_loosely_written_challenge_is_read(
    word: Seq<char>,
    params: Seq<(Seq<char>, Seq<char>)>,
    writings: Seq<Writing>,
    at: int,
)
    requires
        word.len() == 7,
        lower(word) == "bearer "@,
        params.len() == writings.len(),
        forall|i: int| 0 <= i < params.len() ==> can_be_written(#[trigger] params[i], writings[i]),
        0 <= at < params.len(),
        lower(params[at].0) == "realm"@,
        params[at].1.len() > 0,
        forall|i: int| 0 <= i < params.len() && i != at ==> lower((#[trigger] params[i]).0) != "realm"@,
    ensures
        challenge_of(word + joined(loose_texts(params, writings), ',')) matches Ok(c) && {
            &&& c.0 == params[at].1
            &&& c.1.len() == params.len() - 1
            &&& forall|i: int|
                0 <= i < at ==> (#[trigger] c.1[i]) == (lower(params[i].0), params[i].1)
            &&& forall|i: int|
                at <= i < params.len() - 1 ==> (#[trigger] c.1[i]) == (
                    lower(params[i + 1].0),
                    params[i + 1].1,
                )
        },
{
    let text = joined(loose_texts(params, writings), ',');
    let header = word + text;
    reveal_strlit("bearer ");
    assert(header.take(7) =~= word);
    assert(header.skip(7) =~= text);
    assert(bearer_rest(header) == Some(text));
    lemma_loose_split(params, writings);
    lemma_loose_params(params, writings);
    let low = lowered(params);
    lemma_realm_found(low, at);
    assert(params_besides_realm(low) == low.remove(at));
}

/// Of several parameters named `realm` the last one counts, and none of them is left among the others.
pub proof fn law_last_realm_counts(params: Seq<(Seq<char>, Seq<char>)>, realm: Seq<char>)
    ensures
        realm_of(params.push(("realm"@, realm))) == realm,
        params_besides_realm(params.push(("realm"@, realm))) == params_besides_realm(params),
        forall|i: int|
            0 <= i < params_besides_realm(params).len() ==> (#[trigger] params_besides_realm(
                params,
            )[i]).0 != "realm"@,
    decreases params.len(),
{
    let all = params.push(("realm"@, realm));
    assert(all.drop_last() =~= params);
    if params.len() > 0 {
        let rest = params.drop_last();
        law_last_realm_counts(rest, realm);
        assert forall|i: int| 0 <= i < params_besides_realm(params).len() implies (
        #[trigger] params_besides_realm(params)[i]).0 != "realm"@ by {
            if i < params_besides_realm(rest).len() {
                assert(params_besides_realm(params)[i] == params_besides_realm(rest)[i]);
            }
        }
    }
}

/// What is wrong with a header is told: that it is no bearer challenge, with the header itself, or that the realm is
/// missing.
pub proof fn law_faulty_challenge_is_told(header: &str, res: Result<(String, Vec<(String, String)>), Error>)
    requires
        call_ensures(parse_www_authenticate, (header,), res),
    ensures
        header@.len() < 7 || lower(header@.take(7)) != "bearer "@ ==> (res matches Err(e) && e@
            == ErrorView::RegistryError("expected Bearer WWW-Authenticate challenge, got: "@ + header@)),
        header@.len() >= 7 && lower(header@.take(7)) == "bearer "@ ==> (res matches Err(e) ==> e@
            == ErrorView::RegistryError("WWW-Authenticate Bearer challenge missing realm"@)),
        res matches Ok(r) ==> r.0@.len() > 0,
{
    reveal_strlit("bearer ");
}

/// The brackets of a `Link` header are out of order exactly where it has both, and the first closing one comes first.
pub proof fn law_brackets_out_of_order(link: &str, res: bool)
    requires
        call_ensures(link_is_ordered, (link,), res),
    ensures
        !link@.contains('<') || !link@.contains('>') ==> res,
        forall|i: int|
            0 <= i < link@.len() && (#[trigger] link@[i]) == '<' && !link@.take(i).contains('>') ==> res,
        forall|i: int|
            0 <= i < link@.len() && (#[trigger] link@[i]) == '>' && !link@.take(i).contains('<')
                && link@.contains('<') ==> !res,
{
    let s = link@;
    lemma_position(s, '<');
    lemma_position(s, '>');
    let a = position(s, '<');
    let b = position(s, '>');
    assert forall|i: int| 0 <= i < s.len() && (#[trigger] s[i]) == '<' && !s.take(i).contains('>') implies res by {
        if b < i {
            assert(s.take(i)[b] == '>');
        }
    }
    assert forall|i: int|
        0 <= i < s.len() && (#[trigger] s[i]) == '>' && !s.take(i).contains('<') && s.contains('<') implies !res by {
        if a < i {
            assert(s.take(i)[a] == '<');
        }
    }
}

/// A part without an equals sign is no parameter, and a piece of white space no part: neither changes what is read.
pub proof fn law_what_is_no_parameter(
    parts: Seq<Seq<char>>,
    part: Seq<char>,
    pieces: Seq<Seq<char>>,
    piece: Seq<char>,
)
    requires
        !part.contains('='),
        all_in(piece, CharClass::White),
    ensures
        written_params(parts.push(part)) == written_params(parts),
        kept_pieces(pieces.push(piece)) == kept_pieces(pieces),
{
    assert(parts.push(part).drop_last() =~= parts);
    law_cut_at_the_first(part, '=');
    if let Some((a, b)) = split_once(part, '=') {
        assert(part[a.len() as int] == '=');
    }
    assert(pieces.push(piece).drop_last() =~= pieces);
    law_trimming_takes_the_ends(piece, CharClass::White);
    let left = trim(piece, CharClass::White);
    let (a, b) = choose|a: Seq<char>, b: Seq<char>|
        #![trigger all_in(a, CharClass::White), all_in(b, CharClass::White)]
        all_in(a, CharClass::White) && all_in(b, CharClass::White) && a + left + b == piece;
    if left.len() > 0 {
        assert(piece[a.len() as int] == left[0]);
        assert(CharClass::White.has(piece[a.len() as int]));
    }
}

} // verus!
