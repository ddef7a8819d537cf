//! Digests of content.

use vstd::prelude::*;
use vstd::utf8::encode_utf8;

use crate::error::Error;
use crate::error::ErrorView;
use crate::error::InvalidDigest;
use crate::text::ascii_lower;
use crate::text::chars_of;
use crate::text::hex;
use crate::text::hex_digit;
use crate::text::law_hex_tells_bytes_apart;
use crate::text::lower;
use crate::text::strip_prefix;
use crate::text::to_hex;
use crate::text::without_prefix;

verus! {

/// The SHA-256 hash of the bytes.
pub uninterp spec fn sha256(data: Seq<u8>) -> Seq<u8>;

/// `sha2::Sha256::digest` hashes the data. The hash has 32 bytes; what they are is named, not spelt
/// out.
#[verifier::external_body]
fn sha256_hash(data: &[u8]) -> (res: Vec<u8>)
    ensures
        res@ == sha256(data@),
        res@.len() == 32,
{
    <sha2::Sha256 as sha2::Digest>::digest(data).to_vec()
}

/// The digest of the bytes, as in `sha256:<hex>`.
pub open spec fn digest_text(data: Seq<u8>) -> Seq<char> {
    "sha256:"@ + hex(sha256(data))
}

/// Writes a hash as a digest.
pub fn hash_digest(hash: &Vec<u8>) -> (res: String)
    ensures
        res@ == "sha256:"@ + hex(hash@),
{
    let mut text = "sha256:".to_string();
    text.append(to_hex(hash).as_str());
    text
}

/// Computes a `sha256:<hex>` digest for the data. It reads back as a digest with the digits of the hash.
pub fn sha256_digest(data: &[u8]) -> (res: String)
    ensures
        res@ == digest_text(data@),
        digest_of(res@) == Ok::<Seq<char>, ErrorView>(hex(sha256(data@))),
{
    let hash = sha256_hash(data);
    proof {
        law_digest_reads_back(hash@);
    }
    hash_digest(&hash)
}

/// Whether the character is a hexadecimal digit.
pub open spec fn is_hex_digit(c: char) -> bool {
    ||| '0' <= c <= '9'
    ||| 'a' <= c <= 'f'
    ||| 'A' <= c <= 'F'
}

/// Whether the text is made of 64 hexadecimal digits.
pub open spec fn is_hash_text(text: Seq<char>) -> bool {
    text.len() == 64 && forall|i: int| 0 <= i < text.len() ==> is_hex_digit(#[trigger] text[i])
}

/// The first character of the text that is no hexadecimal digit.
pub open spec fn first_not_hex(text: Seq<char>) -> Option<char>
    decreases text.len(),
{
    if text.len() == 0 {
        None
    } else if !is_hex_digit(text[0]) {
        Some(text[0])
    } else {
        first_not_hex(text.drop_first())
    }
}

/// What is wrong with the digits of a digest, which are in lower case.
pub open spec fn digits_problem(digits: Seq<char>) -> Option<InvalidDigest> {
    if encode_utf8(digits).len() != 64 {
        Some(InvalidDigest::Length(encode_utf8(digits).len() as usize))
    } else {
        match first_not_hex(digits) {
            Some(c) => Some(InvalidDigest::NotHex(c)),
            None => None,
        }
    }
}

/// The digits of the digest that the text holds. They may be written in either case, and are in lower
/// case.
pub open spec fn digest_of(text: Seq<char>) -> Result<Seq<char>, ErrorView> {
    match strip_prefix(text, "sha256:"@) {
        None => Err(ErrorView::InvalidContentDigest(InvalidDigest::MissingPrefix)),
        Some(digits) => match digits_problem(lower(digits)) {
            Some(p) => Err(ErrorView::InvalidContentDigest(p)),
            None => Ok(lower(digits)),
        },
    }
}

/// Text made of hexadecimal digits alone has no other character.
proof fn lemma_all_hex(text: Seq<char>)
    requires
        forall|i: int| 0 <= i < text.len() ==> is_hex_digit(#[trigger] text[i]),
    ensures
        first_not_hex(text) is None,
    decreases text.len(),
{
    if text.len() > 0 {
        assert(is_hex_digit(text[0]));
        assert forall|i: int| 0 <= i < text.drop_first().len() implies is_hex_digit(
            #[trigger] text.drop_first()[i],
        ) by {
            assert(text.drop_first()[i] == text[i + 1]);
        }
        lemma_all_hex(text.drop_first());
    }
}

/// A cryptographic digest (hash) of some content.
#[derive(Debug, PartialEq)]
pub enum ContentDigest {
    Sha256 { hex: String },
}

impl ContentDigest {
    /// The digits of the digest.
    pub open spec fn digits(self) -> Seq<char> {
        match self {
            ContentDigest::Sha256 { hex } => hex@,
        }
    }

    /// The digest with the given digits, which are in lower case.
    pub fn from_digits(digits: String) -> (res: Result<ContentDigest, Error>)
        ensures
            match digits_problem(digits@) {
                Some(p) => res matches Err(e) && e@ == ErrorView::InvalidContentDigest(p),
                None => res matches Ok(d) && d.digits() == digits@,
            },
    {
        let n: usize = digits.as_str().as_bytes().len();
        if n != 64 {
            return Err(Error::InvalidContentDigest(InvalidDigest::Length(n)));
        }
        let chars = chars_of(digits.as_str());
        let mut i: usize = 0;
        assert(digits@.skip(0) =~= digits@);
        while i < chars.len()
            invariant
                i <= chars.len(),
                chars@ == digits@,
                encode_utf8(digits@).len() == 64,
                first_not_hex(digits@) == first_not_hex(digits@.skip(i as int)),
            decreases chars.len() - i,
        {
            let c: char = chars[i];
            assert(digits@.skip(i as int).drop_first() =~= digits@.skip(i + 1));
            if !(('0' <= c && c <= '9') || ('a' <= c && c <= 'f') || ('A' <= c && c <= 'F')) {
                return Err(Error::InvalidContentDigest(InvalidDigest::NotHex(c)));
            }
            i += 1;
        }
        Ok(ContentDigest::Sha256 { hex: digits })
    }

    /// Parses a digest, as in `sha256:<hex>`. The digits may be in either case.
    pub fn parse(text: &str) -> (res: Result<ContentDigest, Error>)
        ensures
            match digest_of(text@) {
                Ok(digits) => res matches Ok(d) && d.digits() == digits,
                Err(v) => res matches Err(e) && e@ == v,
            },
    {
        match without_prefix(text, "sha256:") {
            None => Err(Error::InvalidContentDigest(InvalidDigest::MissingPrefix)),
            Some(digits) => {
                let low = digits.to_lowercase();
                ContentDigest::from_digits(low)
            },
        }
    }

    /// The digest as text, as in `sha256:<hex>`.
    pub fn to_text(&self) -> (res: String)
        ensures
            res@ == "sha256:"@ + self.digits(),
    {
        let mut text = "sha256:".to_string();
        match self {
            ContentDigest::Sha256 { hex } => {
                text.append(hex.as_str());
            },
        }
        text
    }
}

// ---------------------------------------------------------------------------
// Laws
// ---------------------------------------------------------------------------

/// Text made of 64 hexadecimal digits is a digest, in whatever case they are written, and its digits are in
/// lower case.
pub proof fn law_hash_text_is_digest(digits: Seq<char>)
    requires
        is_hash_text(digits),
    ensures
        digest_of("sha256:"@ + digits) == Ok::<Seq<char>, ErrorView>(
            digits.map_values(|c: char| ascii_lower(c)),
        ),
{
    let text = "sha256:"@ + digits;
    let low = digits.map_values(|c: char| ascii_lower(c));
    assert("sha256:"@.is_prefix_of(text));
    assert(text.skip("sha256:"@.len() as int) =~= digits);
    assert forall|i: int| 0 <= i < digits.len() implies '\0' <= #[trigger] digits[i] <= '\u{7f}' by {
        assert(is_hex_digit(digits[i]));
    }
    assert forall|i: int| 0 <= i < low.len() implies is_hex_digit(#[trigger] low[i]) && '\0' <= low[i]
        <= '\u{7f}' by {
        assert(is_hex_digit(digits[i]));
    }
    lemma_all_hex(low);
    vstd::utf8::is_ascii_chars_encode_utf8(low);
}

/// The digest of a hash of 32 bytes reads back as its digits.
pub proof fn law_digest_reads_back(hash: Seq<u8>)
    requires
        hash.len() == 32,
    ensures
        digest_of("sha256:"@ + hex(hash)) == Ok::<Seq<char>, ErrorView>(hex(hash)),
{
    let digits = hex(hash);
    lemma_hex_digits(hash);
    assert forall|i: int| 0 <= i < digits.len() implies is_hex_digit(#[trigger] digits[i]) by {
        assert(is_lower_hex(digits[i]));
    }
    law_hash_text_is_digest(digits);
    assert(digits.map_values(|c: char| ascii_lower(c)) =~= digits) by {
        assert forall|i: int| 0 <= i < digits.len() implies ascii_lower(#[trigger] digits[i])
            == digits[i] by {
            assert(is_lower_hex(digits[i]));
        }
    }
}

/// Whether the character is a digit of lower-case hexadecimal notation.
spec fn is_lower_hex(c: char) -> bool {
    '0' <= c <= '9' || 'a' <= c <= 'f'
}

/// The hexadecimal notation has two digits for each byte.
proof fn lemma_hex_digits(bytes: Seq<u8>)
    ensures
        hex(bytes).len() == 2 * bytes.len(),
        forall|i: int| 0 <= i < hex(bytes).len() ==> is_lower_hex(#[trigger] hex(bytes)[i]),
    decreases bytes.len(),
{
    if bytes.len() > 0 {
        lemma_hex_digits(bytes.drop_last());
        let before = hex(bytes.drop_last());
        let b = bytes.last() as nat;
        assert forall|i: int| 0 <= i < hex(bytes).len() implies is_lower_hex(
            #[trigger] hex(bytes)[i],
        ) by {
            if i < before.len() {
                assert(hex(bytes)[i] == before[i]);
            } else if i == before.len() {
                assert(hex(bytes)[i] == hex_digit(b / 16));
            } else {
                assert(hex(bytes)[i] == hex_digit(b % 16));
            }
        }
    }
}

/// A digest that is read has 64 hexadecimal digits, and the text starts with `sha256:`. Text that does not start so is no
/// digest.
pub proof fn law_digest_has_64_digits(text: &str, res: Result<ContentDigest, Error>)
    requires
        call_ensures(ContentDigest::parse, (text,), res),
    ensures
        res matches Ok(d) ==> is_hash_text(d.digits()) && "sha256:"@.is_prefix_of(text@),
        !"sha256:"@.is_prefix_of(text@) ==> (res matches Err(e) && e@
            == ErrorView::InvalidContentDigest(InvalidDigest::MissingPrefix)),
{
    if let Ok(d) = res {
        let digits = d.digits();
        lemma_none_but_hex(digits);
        assert forall|i: int| 0 <= i < digits.len() implies '\0' <= #[trigger] digits[i] <= '\u{7f}' by {
            assert(is_hex_digit(digits[i]));
        }
        vstd::utf8::is_ascii_chars_encode_utf8(digits);
    }
}

/// Text without another character is made of hexadecimal digits alone.
proof fn lemma_none_but_hex(text: Seq<char>)
    requires
        first_not_hex(text) is None,
    ensures
        forall|i: int| 0 <= i < text.len() ==> is_hex_digit(#[trigger] text[i]),
    decreases text.len(),
{
    if text.len() > 0 {
        let rest = text.drop_first();
        lemma_none_but_hex(rest);
        assert forall|i: int| 0 <= i < text.len() implies is_hex_digit(#[trigger] text[i]) by {
            if i > 0 {
                assert(rest[i - 1] == text[i]);
            }
        }
    }
}

/// The hexadecimal digits are the ten digits and the letters from `a` to `f` in either case.
pub proof fn law_hex_digits(c: char)
    ensures
        is_hex_digit(c) <==> '0' <= c <= '9' || 'a' <= c <= 'f' || 'A' <= c <= 'F',
{
}

/// The digest of data is `sha256:` and the hexadecimal digits of its hash, and reads back as such. Data with different
/// hashes have different digests.
pub proof fn law_digest_is_that_of_the_data(a: &[u8], b: &[u8], x: String, y: String)
    requires
        call_ensures(sha256_digest, (a,), x),
        call_ensures(sha256_digest, (b,), y),
    ensures
        "sha256:"@.is_prefix_of(x@),
        x@.skip(7) == hex(sha256(a@)),
        x@ == y@ ==> sha256(a@) == sha256(b@),
{
    reveal_strlit("sha256:");
    assert(x@.skip(7) =~= hex(sha256(a@)));
    assert(y@.skip(7) =~= hex(sha256(b@)));
    law_hex_tells_bytes_apart(sha256(a@), sha256(b@));
}

/// A digest is written with `sha256:` in front of its digits, and what is written reads back as it.
pub proof fn law_digest_is_written(digest: &ContentDigest, text: String)
    requires
        call_ensures(ContentDigest::to_text, (digest,), text),
    ensures
        text@ == "sha256:"@ + digest.digits(),
        is_hash_text(digest.digits()) ==> digest_of(text@) == Ok::<Seq<char>, ErrorView>(
            digest.digits().map_values(|c: char| ascii_lower(c)),
        ),
{
    if is_hash_text(digest.digits()) {
        law_hash_text_is_digest(digest.digits());
    }
}

/// What is wrong with digits of ASCII characters is that there are not 64 of them, and how many there are, or else the
/// first of them that is no hexadecimal digit.
pub proof fn law_what_is_wrong_with_digits(digits: String, at: int, res: Result<ContentDigest, Error>)
    requires
        vstd::utf8::is_ascii_chars(digits@),
        call_ensures(ContentDigest::from_digits, (digits,), res),
    ensures
        digits@.len() != 64 ==> (res matches Err(e) && e@ == ErrorView::InvalidContentDigest(
            InvalidDigest::Length(digits@.len() as usize),
        )),
        digits@.len() == 64 && 0 <= at < 64 && !is_hex_digit(digits@[at]) && (forall|i: int|
            0 <= i < at ==> is_hex_digit(#[trigger] digits@[i])) ==> (res matches Err(e) && e@
            == ErrorView::InvalidContentDigest(InvalidDigest::NotHex(digits@[at]))),
        is_hash_text(digits@) ==> (res matches Ok(d) && d.digits() == digits@),
{
    vstd::utf8::is_ascii_chars_encode_utf8(digits@);
    if is_hash_text(digits@) {
        lemma_all_hex(digits@);
    }
    if 0 <= at < digits@.len() && !is_hex_digit(digits@[at]) && (forall|i: int|
        0 <= i < at ==> is_hex_digit(#[trigger] digits@[i])) {
        lemma_first_not_hex(digits@, at);
    }
}

/// The first character that is no digit is found.
proof fn lemma_first_not_hex(text: Seq<char>, at: int)
    requires
        0 <= at < text.len(),
        !is_hex_digit(text[at]),
        forall|i: int| 0 <= i < at ==> is_hex_digit(#[trigger] text[i]),
    ensures
        first_not_hex(text) == Some(text[at]),
    decreases text.len(),
{
    if at > 0 {
        let rest = text.drop_first();
        assert(is_hex_digit(text[0]));
        assert forall|i: int| 0 <= i < at - 1 implies is_hex_digit(#[trigger] rest[i]) by {
            assert(rest[i] == text[i + 1]);
        }
        lemma_first_not_hex(rest, at - 1);
    }
}

} // verus!
