//! Operations on text, stated over sequences of characters.

use vstd::prelude::*;
use vstd::utf8::is_ascii_chars;

verus! {

/// The contents of a list of strings.
pub open spec fn texts(list: Seq<String>) -> Seq<Seq<char>> {
    Seq::new(list.len(), |i: int| list[i]@)
}

/// The contents of a list of string slices.
pub open spec fn slice_texts(list: Seq<&str>) -> Seq<Seq<char>> {
    Seq::new(list.len(), |i: int| list[i]@)
}

/// The contents of a list of pairs of strings.
pub open spec fn pair_texts(list: Seq<(String, String)>) -> Seq<(Seq<char>, Seq<char>)> {
    Seq::new(list.len(), |i: int| (list[i].0@, list[i].1@))
}

/// The contents of an optional string.
pub open spec fn opt_text(text: Option<String>) -> Option<Seq<char>> {
    match text {
        Some(t) => Some(t@),
        None => None,
    }
}

/// `String::push` appends the character to the end of the string.
pub assume_specification[ String::push ](s: &mut String, c: char)
    ensures
        final(s)@ == old(s)@.push(c),
;

/// What `str::to_lowercase` returns for the given text.
pub uninterp spec fn unicode_lower(s: Seq<char>) -> Seq<char>;

/// The lower-case form of an ASCII letter; every other character is kept.
pub open spec fn ascii_lower(c: char) -> char {
    if 'A' <= c && c <= 'Z' {
        (c as u8 + 32) as char
    } else {
        c
    }
}

/// The text in lower case.
pub open spec fn lower(s: Seq<char>) -> Seq<char> {
    if is_ascii_chars(s) {
        s.map_values(|c: char| ascii_lower(c))
    } else {
        unicode_lower(s)
    }
}

/// `str::to_lowercase` maps the text by the Unicode lower-case mapping. On text made of ASCII characters
/// alone that maps `A` to `Z` to `a` to `z` and keeps the rest; on other text what it returns is named, not
/// spelt out.
pub assume_specification[ str::to_lowercase ](s: &str) -> (res: String)
    ensures
        res@ == (if is_ascii_chars(s@) {
            s@.map_values(|c: char| ascii_lower(c))
        } else {
            unicode_lower(s@)
        }),
;

// ---------------------------------------------------------------------------
// Characters
// ---------------------------------------------------------------------------

/// The characters of the text, in order.
pub fn chars_of(s: &str) -> (res: Vec<char>)
    ensures
        res@ == s@,
{
    let mut out: Vec<char> = Vec::new();
    for c in it: s.chars()
        invariant
            out@ == it.seq().take(it.index() as int),
            it.seq() == s@,
    {
        out.push(c);
        assert(it.seq().take(it.index() as int + 1) =~= it.seq().take(it.index() as int).push(c));
    }
    assert(s@.take(s@.len() as int) =~= s@);
    out
}

/// Whether two texts hold the same characters.
pub fn same_text(a: &str, b: &str) -> (res: bool)
    ensures
        res == (a@ == b@),
{
    a.to_string() == b.to_string()
}

/// A set of characters that trimming removes.
#[derive(Clone, Copy)]
pub enum CharClass {
    /// The characters with the Unicode property `White_Space`.
    White,
    /// One character.
    Only(char),
}

impl CharClass {
    /// Whether the character belongs to the class.
    pub open spec fn has(self, c: char) -> bool {
        match self {
            CharClass::White => {
                ||| 0x09 <= c as u32 <= 0x0D
                ||| c as u32 == 0x20
                ||| c as u32 == 0x85
                ||| c as u32 == 0xA0
                ||| c as u32 == 0x1680
                ||| 0x2000 <= c as u32 <= 0x200A
                ||| c as u32 == 0x2028
                ||| c as u32 == 0x2029
                ||| c as u32 == 0x202F
                ||| c as u32 == 0x205F
                ||| c as u32 == 0x3000
            },
            CharClass::Only(d) => c == d,
        }
    }

    /// Tests membership in the class.
    pub fn contains(self, c: char) -> (res: bool)
        ensures
            res == self.has(c),
    {
        match self {
            CharClass::White => {
                let u: u32 = c as u32;
                (0x09 <= u && u <= 0x0D) || u == 0x20 || u == 0x85 || u == 0xA0 || u == 0x1680 || (
                0x2000 <= u && u <= 0x200A) || u == 0x2028 || u == 0x2029 || u == 0x202F || u
                    == 0x205F || u == 0x3000
            },
            CharClass::Only(d) => c == d,
        }
    }
}

// ---------------------------------------------------------------------------
// Searching and splitting
// ---------------------------------------------------------------------------

/// The index of the first occurrence of `c`, or the length of the text where there is none.
pub open spec fn position(s: Seq<char>, c: char) -> int
    decreases s.len(),
{
    if s.len() == 0 || s[0] == c {
        0
    } else {
        1 + position(s.drop_first(), c)
    }
}

/// Every text before the position lacks the character, and the position holds it.
pub proof fn lemma_position(s: Seq<char>, c: char)
    ensures
        0 <= position(s, c) <= s.len(),
        forall|i: int| 0 <= i < position(s, c) ==> s[i] != c,
        position(s, c) < s.len() ==> s[position(s, c)] == c,
    decreases s.len(),
{
    if s.len() > 0 && s[0] != c {
        lemma_position(s.drop_first(), c);
        assert forall|i: int| 0 <= i < position(s, c) implies s[i] != c by {
            if i > 0 {
                assert(s[i] == s.drop_first()[i - 1]);
            }
        }
    }
}

/// The position is the only index that holds the character and has none before it.
pub proof fn lemma_position_unique(s: Seq<char>, c: char, p: int)
    requires
        0 <= p <= s.len(),
        forall|i: int| 0 <= i < p ==> s[i] != c,
        p < s.len() ==> s[p] == c,
    ensures
        position(s, c) == p,
{
    lemma_position(s, c);
    let q = position(s, c);
    if q < p {
        assert(s[q] != c);
    } else if p < q {
        assert(s[p] != c);
    }
}

/// The pieces of the text between the occurrences of `c`.
pub open spec fn split(s: Seq<char>, c: char) -> Seq<Seq<char>>
    decreases s.len(),
{
    let p = position(s, c);
    if 0 <= p < s.len() {
        seq![s.take(p)] + split(s.skip(p + 1), c)
    } else {
        seq![s]
    }
}

/// The text before and the text after the first occurrence of `c`.
pub open spec fn split_once(s: Seq<char>, c: char) -> Option<(Seq<char>, Seq<char>)> {
    let p = position(s, c);
    if p < s.len() {
        Some((s.take(p), s.skip(p + 1)))
    } else {
        None
    }
}

/// The text behind the prefix, where the text starts with it.
pub open spec fn strip_prefix(s: Seq<char>, prefix: Seq<char>) -> Option<Seq<char>> {
    if prefix.is_prefix_of(s) {
        Some(s.skip(prefix.len() as int))
    } else {
        None
    }
}

/// The text without its leading characters of the class.
pub open spec fn trim_start(s: Seq<char>, class: CharClass) -> Seq<char>
    decreases s.len(),
{
    if s.len() > 0 && class.has(s[0]) {
        trim_start(s.drop_first(), class)
    } else {
        s
    }
}

/// The text without its trailing characters of the class.
pub open spec fn trim_end(s: Seq<char>, class: CharClass) -> Seq<char>
    decreases s.len(),
{
    if s.len() > 0 && class.has(s.last()) {
        trim_end(s.drop_last(), class)
    } else {
        s
    }
}

/// The text without its leading and trailing characters of the class.
pub open spec fn trim(s: Seq<char>, class: CharClass) -> Seq<char> {
    trim_end(trim_start(s, class), class)
}

/// The index of the first `c` in the text, or the length of the text where there is none.
pub fn find_char(s: &Vec<char>, c: char) -> (res: usize)
    ensures
        res == position(s@, c),
{
    let mut i: usize = 0;
    while i < s.len() && s[i] != c
        invariant
            i <= s.len(),
            forall|j: int| 0 <= j < i ==> s@[j] != c,
        decreases s.len() - i,
    {
        i += 1;
    }
    proof {
        lemma_position_unique(s@, c, i as int);
    }
    i
}

/// Whether the text holds the character.
pub fn contains_char(s: &str, c: char) -> (res: bool)
    ensures
        res == s@.contains(c),
{
    let chars = chars_of(s);
    let p: usize = find_char(&chars, c);
    proof {
        lemma_position(s@, c);
    }
    p < chars.len()
}

/// Cuts the text at the first occurrence of `c`.
pub fn cut_once<'a>(s: &'a str, c: char) -> (res: Option<(&'a str, &'a str)>)
    ensures
        match (res, split_once(s@, c)) {
            (Some(r), Some(e)) => r.0@ == e.0 && r.1@ == e.1,
            (None, None) => true,
            _ => false,
        },
{
    let chars = chars_of(s);
    let p: usize = find_char(&chars, c);
    let n: usize = chars.len();
    proof {
        lemma_position(s@, c);
    }
    if p < n {
        let left = s.substring_char(0, p);
        let right = s.substring_char(p + 1, n);
        assert(left@ =~= s@.take(p as int));
        assert(right@ =~= s@.skip(p + 1));
        Some((left, right))
    } else {
        None
    }
}

/// Cuts the text at every occurrence of `c`.
pub fn cut<'a>(s: &'a str, c: char) -> (res: Vec<&'a str>)
    ensures
        slice_texts(res@) == split(s@, c),
        res@.len() > 0,
{
    let chars = chars_of(s);
    let n: usize = chars.len();
    let mut out: Vec<&'a str> = Vec::new();
    let mut start: usize = 0;
    let mut i: usize = 0;
    assert(s@.skip(0) =~= s@);
    assert(slice_texts(out@) + split(s@, c) =~= split(s@, c));
    while i < n
        invariant
            start <= i <= n,
            n == s@.len(),
            chars@ == s@,
            forall|j: int| start <= j < i ==> s@[j] != c,
            slice_texts(out@) + split(s@.skip(start as int), c) == split(s@, c),
        decreases n - i,
    {
        if chars[i] == c {
            let piece = s.substring_char(start, i);
            let ghost before = out@;
            let ghost rest = s@.skip(start as int);
            out.push(piece);
            proof {
                lemma_position_unique(rest, c, i - start);
                assert(rest.take(i - start) =~= piece@);
                assert(rest.skip(i - start + 1) =~= s@.skip(i + 1));
                assert(slice_texts(out@) =~= slice_texts(before).push(piece@));
                assert(slice_texts(before) + (seq![piece@] + split(s@.skip(i + 1), c))
                    =~= slice_texts(out@) + split(s@.skip(i + 1), c));
            }
            start = i + 1;
        }
        i += 1;
    }
    let piece = s.substring_char(start, n);
    let ghost before = out@;
    let ghost rest = s@.skip(start as int);
    out.push(piece);
    proof {
        lemma_position_unique(rest, c, rest.len() as int);
        assert(rest =~= piece@);
        assert(slice_texts(out@) =~= slice_texts(before) + seq![piece@]);
    }
    out
}

/// Removes the prefix, where the text starts with it.
pub fn without_prefix<'a>(s: &'a str, prefix: &str) -> (res: Option<&'a str>)
    ensures
        match (res, strip_prefix(s@, prefix@)) {
            (Some(r), Some(e)) => r@ == e,
            (None, None) => true,
            _ => false,
        },
{
    let n: usize = s.unicode_len();
    let m: usize = prefix.unicode_len();
    if m <= n {
        let head = s.substring_char(0, m);
        assert(head@ == prefix@ <==> prefix@.is_prefix_of(s@)) by {
            assert(head@ =~= s@.take(m as int));
        }
        if same_text(head, prefix) {
            let tail = s.substring_char(m, n);
            assert(tail@ =~= s@.skip(m as int));
            return Some(tail);
        }
    }
    None
}

/// Where the text ends once its trailing characters of the class are gone.
proof fn lemma_trim_end_at(s: Seq<char>, class: CharClass, end: int)
    requires
        0 <= end <= s.len(),
        forall|i: int| end <= i < s.len() ==> class.has(s[i]),
        end > 0 ==> !class.has(s[end - 1]),
    ensures
        trim_end(s, class) == s.take(end),
    decreases s.len(),
{
    if end == s.len() {
        assert(s.take(end) =~= s);
    } else {
        assert(class.has(s.last()));
        lemma_trim_end_at(s.drop_last(), class, end);
        assert(s.drop_last().take(end) =~= s.take(end));
    }
}

/// Where the text starts once its leading characters of the class are gone.
proof fn lemma_trim_start_at(s: Seq<char>, class: CharClass, start: int)
    requires
        0 <= start <= s.len(),
        forall|i: int| 0 <= i < start ==> class.has(s[i]),
        start < s.len() ==> !class.has(s[start]),
    ensures
        trim_start(s, class) == s.skip(start),
    decreases s.len(),
{
    if start == 0 {
        assert(s.skip(0) =~= s);
    } else {
        assert forall|i: int| 0 <= i < start - 1 implies class.has(s.drop_first()[i]) by {
            assert(s.drop_first()[i] == s[i + 1]);
        }
        lemma_trim_start_at(s.drop_first(), class, start - 1);
        assert(s.drop_first().skip(start - 1) =~= s.skip(start));
    }
}

/// Removes the trailing characters of the class.
pub fn trimmed_end<'a>(s: &'a str, class: CharClass) -> (res: &'a str)
    ensures
        res@ == trim_end(s@, class),
{
    let chars = chars_of(s);
    let mut end: usize = chars.len();
    while end > 0 && class.contains(chars[end - 1])
        invariant
            end <= chars.len(),
            chars@ == s@,
            forall|i: int| end <= i < s@.len() ==> class.has(s@[i]),
        decreases end,
    {
        end -= 1;
    }
    let res = s.substring_char(0, end);
    proof {
        lemma_trim_end_at(s@, class, end as int);
        assert(res@ =~= s@.take(end as int));
    }
    res
}

/// Removes the leading and trailing characters of the class.
pub fn trimmed<'a>(s: &'a str, class: CharClass) -> (res: &'a str)
    ensures
        res@ == trim(s@, class),
{
    let chars = chars_of(s);
    let n: usize = chars.len();
    let mut start: usize = 0;
    while start < n && class.contains(chars[start])
        invariant
            start <= n,
            n == chars.len(),
            chars@ == s@,
            forall|i: int| 0 <= i < start ==> class.has(s@[i]),
        decreases n - start,
    {
        start += 1;
    }
    let tail = s.substring_char(start, n);
    proof {
        lemma_trim_start_at(s@, class, start as int);
        assert(tail@ =~= s@.skip(start as int));
    }
    trimmed_end(tail, class)
}

// ---------------------------------------------------------------------------
// Writing
// ---------------------------------------------------------------------------

/// The decimal digit with the given value.
pub open spec fn digit(d: nat) -> char {
    (48 + d) as char
}

/// A number in decimal notation, without leading zeros.
pub open spec fn decimal(n: nat) -> Seq<char>
    decreases n,
{
    if n < 10 {
        seq![digit(n)]
    } else {
        decimal(n / 10).push(digit(n % 10))
    }
}

/// Writes a number in decimal notation.
pub fn to_decimal(n: u64) -> (res: String)
    ensures
        res@ == decimal(n as nat),
    decreases n,
{
    let mut out: String = if n < 10 {
        String::new()
    } else {
        to_decimal(n / 10)
    };
    let d: u8 = (n % 10) as u8;
    let c: char = (48 + d) as char;
    out.push(c);
    assert(n < 10 ==> out@ =~= seq![digit(n as nat)]);
    out
}

/// The digit of lower-case hexadecimal notation with the given value.
pub open spec fn hex_digit(d: nat) -> char {
    if d < 10 {
        (48 + d) as char
    } else {
        (87 + d) as char
    }
}

/// Bytes in lower-case hexadecimal notation, two digits each.
pub open spec fn hex(bytes: Seq<u8>) -> Seq<char>
    decreases bytes.len(),
{
    if bytes.len() == 0 {
        Seq::empty()
    } else {
        hex(bytes.drop_last()) + seq![
            hex_digit(bytes.last() as nat / 16),
            hex_digit(bytes.last() as nat % 16),
        ]
    }
}

/// Writes one digit of lower-case hexadecimal notation.
fn to_hex_digit(d: u8) -> (res: char)
    requires
        d < 16,
    ensures
        res == hex_digit(d as nat),
{
    if d < 10 {
        (48 + d) as char
    } else {
        (87 + d) as char
    }
}

/// Writes bytes in lower-case hexadecimal notation.
pub fn to_hex(bytes: &Vec<u8>) -> (res: String)
    ensures
        res@ == hex(bytes@),
{
    let mut out = String::new();
    let mut i: usize = 0;
    assert(bytes@.take(0) =~= Seq::<u8>::empty());
    while i < bytes.len()
        invariant
            i <= bytes.len(),
            out@ == hex(bytes@.take(i as int)),
        decreases bytes.len() - i,
    {
        let b: u8 = bytes[i];
        let ghost before = out@;
        out.push(to_hex_digit(b / 16));
        out.push(to_hex_digit(b % 16));
        proof {
            assert(bytes@.take(i + 1).drop_last() =~= bytes@.take(i as int));
            assert(out@ =~= before + seq![hex_digit(b as nat / 16), hex_digit(b as nat % 16)]);
        }
        i += 1;
    }
    assert(bytes@.take(i as int) =~= bytes@);
    out
}

// ---------------------------------------------------------------------------
// Laws
// ---------------------------------------------------------------------------

/// The pieces one behind the other, with `c` between them.
pub open spec fn joined(pieces: Seq<Seq<char>>, c: char) -> Seq<char>
    decreases pieces.len(),
{
    if pieces.len() == 0 {
        Seq::empty()
    } else if pieces.len() == 1 {
        pieces[0]
    } else {
        pieces[0].push(c) + joined(pieces.drop_first(), c)
    }
}

/// Splitting a text loses nothing: joined again, the pieces are the text, and no piece holds what it was split at.
pub proof fn law_pieces_join_to_the_text(s: Seq<char>, c: char)
    ensures
        split(s, c).len() > 0,
        joined(split(s, c), c) == s,
        forall|i: int| 0 <= i < split(s, c).len() ==> !(#[trigger] split(s, c)[i]).contains(c),
    decreases s.len(),
{
    lemma_position(s, c);
    let p = position(s, c);
    let pieces = split(s, c);
    if p < s.len() {
        let rest = s.skip(p + 1);
        law_pieces_join_to_the_text(rest, c);
        assert(pieces.drop_first() =~= split(rest, c));
        assert(s.take(p).push(c) + rest =~= s);
        assert forall|i: int| 0 <= i < pieces.len() implies !(#[trigger] pieces[i]).contains(c) by {
            if i > 0 {
                assert(pieces[i] == split(rest, c)[i - 1]);
            }
        }
    }
}

/// Cutting a text once finds the first place: what stands before it lacks the character, and both sides with the
/// character between them are the text. Only a text without the character is not cut.
pub proof fn law_cut_at_the_first(s: Seq<char>, c: char)
    ensures
        match split_once(s, c) {
            Some((a, b)) => !a.contains(c) && a.push(c) + b == s,
            None => !s.contains(c),
        },
{
    lemma_position(s, c);
    let p = position(s, c);
    if p < s.len() {
        assert(s.take(p).push(c) + s.skip(p + 1) =~= s);
    }
}

/// A prefix is removed exactly where the text starts with it.
pub proof fn law_prefix_is_removed(s: Seq<char>, prefix: Seq<char>, rest: Seq<char>)
    ensures
        strip_prefix(prefix + rest, prefix) == Some(rest),
        strip_prefix(s, prefix) matches Some(r) ==> prefix + r == s,
{
    assert(prefix.is_prefix_of(prefix + rest));
    assert((prefix + rest).skip(prefix.len() as int) =~= rest);
    if prefix.is_prefix_of(s) {
        assert(prefix + s.skip(prefix.len() as int) =~= s);
    }
}

/// Whether all characters of the text belong to the class.
pub open spec fn all_in(s: Seq<char>, class: CharClass) -> bool {
    forall|i: int| 0 <= i < s.len() ==> class.has(#[trigger] s[i])
}

/// Trimming takes away what belongs to the class at both ends, all of it and nothing else.
pub proof fn law_trimming_takes_the_ends(s: Seq<char>, class: CharClass)
    ensures
        exists|a: Seq<char>, b: Seq<char>|
            #![trigger all_in(a, class), all_in(b, class)]
            all_in(a, class) && all_in(b, class) && a + trim(s, class) + b == s,
        trim(s, class).len() > 0 ==> !class.has(trim(s, class)[0]) && !class.has(trim(s, class).last()),
{
    lemma_start_taken(s, class);
    let a = choose|a: Seq<char>| #[trigger] all_in(a, class) && a + trim_start(s, class) == s;
    let rest = trim_start(s, class);
    law_end_is_taken(rest, class);
    let b = choose|b: Seq<char>| #[trigger] all_in(b, class) && trim_end(rest, class) + b == rest;
    assert(a + trim(s, class) + b =~= s);
    if trim(s, class).len() > 0 {
        assert(trim(s, class)[0] == rest[0]);
    }
}

/// What is taken away at the start belongs to the class.
proof fn lemma_start_taken(s: Seq<char>, class: CharClass)
    ensures
        exists|a: Seq<char>| #[trigger] all_in(a, class) && a + trim_start(s, class) == s,
        trim_start(s, class).len() > 0 ==> !class.has(trim_start(s, class)[0]),
    decreases s.len(),
{
    if s.len() > 0 && class.has(s[0]) {
        let rest = s.drop_first();
        lemma_start_taken(rest, class);
        let a = choose|a: Seq<char>| #[trigger] all_in(a, class) && a + trim_start(rest, class) == rest;
        let b = seq![s[0]] + a;
        assert forall|i: int| 0 <= i < b.len() implies class.has(#[trigger] b[i]) by {
            if i > 0 {
                assert(b[i] == a[i - 1]);
            }
        }
        assert(all_in(b, class));
        assert(b + trim_start(s, class) =~= seq![s[0]] + rest);
        assert(seq![s[0]] + rest =~= s);
    } else {
        assert(all_in(Seq::<char>::empty(), class));
        assert(Seq::<char>::empty() + s =~= s);
    }
}

/// Trimming the end takes away what belongs to the class there, all of it and nothing else.
pub proof fn law_end_is_taken(s: Seq<char>, class: CharClass)
    ensures
        exists|b: Seq<char>| #[trigger] all_in(b, class) && trim_end(s, class) + b == s,
        trim_end(s, class).len() > 0 ==> !class.has(trim_end(s, class).last()),
    decreases s.len(),
{
    if s.len() > 0 && class.has(s.last()) {
        let rest = s.drop_last();
        law_end_is_taken(rest, class);
        let b = choose|b: Seq<char>| #[trigger] all_in(b, class) && trim_end(rest, class) + b == rest;
        let c = b.push(s.last());
        assert forall|i: int| 0 <= i < c.len() implies class.has(#[trigger] c[i]) by {
            if i < b.len() {
                assert(c[i] == b[i]);
            }
        }
        assert(all_in(c, class));
        assert(trim_end(s, class) + c =~= rest.push(s.last()));
        assert(rest.push(s.last()) =~= s);
    } else {
        assert(all_in(Seq::<char>::empty(), class));
        assert(s + Seq::<char>::empty() =~= s);
    }
}

/// Blanks, tabs and line ends are white space; no other printable ASCII character is. A class of one character has
/// that character alone.
pub proof fn law_classes(c: char, d: char)
    ensures
        c == ' ' || c == '\t' || c == '\n' || c == '\r' ==> CharClass::White.has(c),
        '!' <= c <= '~' ==> !CharClass::White.has(c),
        CharClass::Only(d).has(c) <==> c == d,
{
}

/// In lower case, a text of ASCII characters keeps its length and all but its capital letters; those become the
/// letters that follow them by 32 places, and no capital is left.
pub proof fn law_lower_case(s: Seq<char>)
    requires
        is_ascii_chars(s),
    ensures
        lower(s).len() == s.len(),
        forall|i: int|
            0 <= i < s.len() ==> (#[trigger] lower(s)[i]) as int == s[i] as int + (if 'A' <= s[i] <= 'Z' {
                32int
            } else {
                0
            }),
        lower(lower(s)) == lower(s),
{
    let low = lower(s);
    assert forall|i: int| 0 <= i < s.len() implies (#[trigger] low[i]) as int == s[i] as int + (if 'A'
        <= s[i] <= 'Z' {
        32int
    } else {
        0
    }) by {
        assert('\0' <= s[i] <= '\u{7f}');
    }
    assert forall|i: int| 0 <= i < low.len() implies '\0' <= #[trigger] low[i] <= '\u{7f}' by {
        assert('\0' <= s[i] <= '\u{7f}');
    }
    assert(lower(low) =~= low);
}

/// The number that digits stand for in decimal notation.
pub open spec fn decimal_value(digits: Seq<char>) -> int
    decreases digits.len(),
{
    if digits.len() == 0 {
        0
    } else {
        decimal_value(digits.drop_last()) * 10 + (digits.last() as int - '0' as int)
    }
}

/// A number in decimal notation is made of digits, reads back as the number, and does not start with a zero, unless
/// it is zero.
pub proof fn law_decimal_reads_back(n: nat)
    ensures
        decimal(n).len() > 0,
        forall|i: int| 0 <= i < decimal(n).len() ==> '0' <= #[trigger] decimal(n)[i] <= '9',
        decimal_value(decimal(n)) == n,
        n > 0 ==> decimal(n)[0] != '0',
        n == 0 ==> decimal(n) == seq!['0'],
    decreases n,
{
    if n < 10 {
        assert(decimal(n).drop_last() =~= Seq::<char>::empty());
        assert(decimal_value(Seq::<char>::empty()) == 0);
    } else {
        law_decimal_reads_back(n / 10);
        let before = decimal(n / 10);
        assert(decimal(n).drop_last() =~= before);
        assert forall|i: int| 0 <= i < decimal(n).len() implies '0' <= #[trigger] decimal(n)[i] <= '9' by {
            if i < before.len() {
                assert(decimal(n)[i] == before[i]);
            }
        }
        assert(decimal(n)[0] == before[0]);
    }
}

/// The value of a digit of lower-case hexadecimal notation.
pub open spec fn hex_value(c: char) -> int {
    if '0' <= c <= '9' {
        c as int - '0' as int
    } else {
        c as int - 'a' as int + 10
    }
}

/// Bytes in hexadecimal notation have two digits each, all of them in lower case, and read back as the bytes.
pub proof fn law_hex_reads_back(bytes: Seq<u8>)
    ensures
        hex(bytes).len() == 2 * bytes.len(),
        forall|i: int|
            0 <= i < hex(bytes).len() ==> '0' <= (#[trigger] hex(bytes)[i]) <= '9' || 'a' <= hex(
                bytes,
            )[i] <= 'f',
        forall|i: int|
            0 <= i < bytes.len() ==> (#[trigger] bytes[i]) as int == 16 * hex_value(hex(bytes)[2 * i])
                + hex_value(hex(bytes)[2 * i + 1]),
    decreases bytes.len(),
{
    if bytes.len() > 0 {
        let rest = bytes.drop_last();
        law_hex_reads_back(rest);
        let before = hex(rest);
        let b = bytes.last() as nat;
        assert forall|i: int| 0 <= i < hex(bytes).len() implies '0' <= (#[trigger] hex(bytes)[i]) <= '9'
            || 'a' <= hex(bytes)[i] <= 'f' by {
            if i < before.len() {
                assert(hex(bytes)[i] == before[i]);
            } else if i == before.len() {
                assert(hex(bytes)[i] == hex_digit(b / 16));
            } else {
                assert(hex(bytes)[i] == hex_digit(b % 16));
            }
        }
        assert forall|i: int| 0 <= i < bytes.len() implies (#[trigger] bytes[i]) as int == 16 * hex_value(
            hex(bytes)[2 * i],
        ) + hex_value(hex(bytes)[2 * i + 1]) by {
            if i < rest.len() {
                assert(rest[i] == bytes[i]);
                assert(hex(bytes)[2 * i] == before[2 * i]);
                assert(hex(bytes)[2 * i + 1] == before[2 * i + 1]);
            } else {
                assert(hex(bytes)[2 * i] == hex_digit(b / 16));
                assert(hex(bytes)[2 * i + 1] == hex_digit(b % 16));
                assert(hex_value(hex_digit(b / 16)) == b / 16);
                assert(hex_value(hex_digit(b % 16)) == b % 16);
            }
        }
    }
}

/// Different bytes have different hexadecimal notations.
pub proof fn law_hex_tells_bytes_apart(a: Seq<u8>, b: Seq<u8>)
    ensures
        hex(a) == hex(b) ==> a == b,
{
    law_hex_reads_back(a);
    law_hex_reads_back(b);
    if hex(a) == hex(b) {
        assert forall|i: int| 0 <= i < a.len() implies a[i] == b[i] by {
            assert(a[i] as int == b[i] as int);
        }
        assert(a =~= b);
    }
}

/// A piece that is added goes behind the others.
pub proof fn lemma_joined_push(pieces: Seq<Seq<char>>, piece: Seq<char>, c: char)
    ensures
        pieces.len() == 0 ==> joined(pieces.push(piece), c) == piece,
        pieces.len() > 0 ==> joined(pieces.push(piece), c) == joined(pieces, c).push(c) + piece,
    decreases pieces.len(),
{
    let all = pieces.push(piece);
    if pieces.len() == 1 {
        assert(all.drop_first() =~= seq![piece]);
        assert(joined(seq![piece], c) == piece);
    } else if pieces.len() > 1 {
        let rest = pieces.drop_first();
        lemma_joined_push(rest, piece, c);
        assert(all.drop_first() =~= rest.push(piece));
        assert(joined(all, c) == pieces[0].push(c) + joined(rest.push(piece), c));
        assert(pieces[0].push(c) + (joined(rest, c).push(c) + piece) =~= (pieces[0].push(c) + joined(
            rest,
            c,
        )).push(c) + piece);
    }
}

/// What stands between characters of the class, and neither starts nor ends with one, is what trimming leaves.
pub proof fn law_padding_is_trimmed(a: Seq<char>, text: Seq<char>, b: Seq<char>, class: CharClass)
    requires
        all_in(a, class),
        all_in(b, class),
        text.len() > 0,
        !class.has(text[0]),
        !class.has(text.last()),
    ensures
        trim(a + text + b, class) == text,
{
    let whole = a + text + b;
    let n = a.len() as int;
    assert forall|i: int| 0 <= i < n implies class.has(whole[i]) by {
        assert(whole[i] == a[i]);
    }
    assert(whole[n] == text[0]);
    lemma_trim_start_at(whole, class, n);
    let rest = whole.skip(n);
    assert(rest =~= text + b);
    let m = text.len() as int;
    assert forall|i: int| m <= i < rest.len() implies class.has(rest[i]) by {
        assert(rest[i] == b[i - m]);
    }
    assert(rest[m - 1] == text.last());
    lemma_trim_end_at(rest, class, m);
    assert(rest.take(m) =~= text);
}

/// The contents of a list are those of its entries, one by one.
pub proof fn law_contents_of_lists(
    list: Seq<String>,
    pairs: Seq<(String, String)>,
    text: String,
    i: int,
)
    ensures
        texts(list).len() == list.len(),
        0 <= i < list.len() ==> texts(list)[i] == list[i]@,
        pair_texts(pairs).len() == pairs.len(),
        0 <= i < pairs.len() ==> pair_texts(pairs)[i] == (pairs[i].0@, pairs[i].1@),
        opt_text(Some(text)) == Some(text@),
        opt_text(None) is None,
{
}

} // verus!
