//! Packages, their versions and their releases.

use vstd::prelude::*;

use crate::digest::ContentDigest;
use crate::error::Error;
use crate::error::ErrorView;
use crate::error::InvalidLabel;
use crate::text::chars_of;
use crate::text::cut;
use crate::text::cut_once;
use crate::text::decimal;
use crate::text::joined;
use crate::text::law_cut_at_the_first;
use crate::text::law_decimal_reads_back;
use crate::text::lemma_joined_push;
use crate::text::lemma_position;
use crate::text::lemma_position_unique;
use crate::text::position;
use crate::text::slice_texts;
use crate::text::split;
use crate::text::split_once;
use crate::text::to_decimal;

verus! {

// ---------------------------------------------------------------------------
// Labels
// ---------------------------------------------------------------------------

/// Whether the character is a lower-case ASCII letter.
pub open spec fn is_lower(c: char) -> bool {
    'a' <= c <= 'z'
}

/// Whether the character may stand in a word behind its first place.
pub open spec fn is_word_char(c: char) -> bool {
    is_lower(c) || '0' <= c <= '9'
}

/// What is wrong with a word of a label.
pub open spec fn word_problem(word: Seq<char>) -> Option<InvalidLabel> {
    if word.len() == 0 {
        Some(InvalidLabel::EmptyWord)
    } else if !is_lower(word[0]) {
        Some(InvalidLabel::InvalidWordFirstChar)
    } else if exists|i: int| 1 <= i < word.len() && !is_word_char(#[trigger] word[i]) {
        Some(InvalidLabel::InvalidChar)
    } else {
        None
    }
}

/// What is wrong with the first faulty word.
pub open spec fn words_problem(words: Seq<Seq<char>>) -> Option<InvalidLabel>
    decreases words.len(),
{
    if words.len() == 0 {
        None
    } else {
        match word_problem(words[0]) {
            Some(p) => Some(p),
            None => words_problem(words.drop_first()),
        }
    }
}

/// What is wrong with a label. A label is made of words that are joined by dashes.
pub open spec fn label_problem(label: Seq<char>) -> Option<InvalidLabel> {
    if label.len() == 0 {
        Some(InvalidLabel::Empty)
    } else {
        words_problem(split(label, '-'))
    }
}

/// Whether the text is a kebab-case label.
pub open spec fn is_label(label: Seq<char>) -> bool {
    label_problem(label) is None
}

/// A label holds lower-case ASCII letters, ASCII digits and dashes alone.
pub proof fn law_label_characters(label: Seq<char>)
    requires
        is_label(label),
    ensures
        label.len() > 0,
        forall|i: int| 0 <= i < label.len() ==> is_word_char(#[trigger] label[i]) || label[i] == '-',
{
    lemma_words_characters(label);
}

/// Text whose words are faultless holds nothing but them and dashes.
proof fn lemma_words_characters(s: Seq<char>)
    requires
        words_problem(split(s, '-')) is None,
    ensures
        forall|i: int| 0 <= i < s.len() ==> is_word_char(#[trigger] s[i]) || s[i] == '-',
    decreases s.len(),
{
    let p = position(s, '-');
    lemma_position(s, '-');
    let words = split(s, '-');
    if p < s.len() {
        let rest = s.skip(p + 1);
        assert(words.drop_first() =~= split(rest, '-'));
        lemma_words_characters(rest);
        assert forall|i: int| 0 <= i < s.len() implies is_word_char(#[trigger] s[i]) || s[i]
            == '-' by {
            if i < p {
                assert(words[0][i] == s[i]);
            } else if i > p {
                assert(rest[i - p - 1] == s[i]);
            }
        }
    } else {
        assert(words[0] == s);
        assert forall|i: int| 0 <= i < s.len() implies is_word_char(#[trigger] s[i]) || s[i]
            == '-' by {
            assert(words[0][i] == s[i]);
        }
    }
}

/// Finds what is wrong with a word of a label.
fn check_word(word: &str) -> (res: Option<InvalidLabel>)
    ensures
        res == word_problem(word@),
{
    let chars = chars_of(word);
    if chars.len() == 0 {
        return Some(InvalidLabel::EmptyWord);
    }
    if !('a' <= chars[0] && chars[0] <= 'z') {
        return Some(InvalidLabel::InvalidWordFirstChar);
    }
    let mut i: usize = 1;
    while i < chars.len()
        invariant
            1 <= i <= chars.len(),
            chars@ == word@,
            is_lower(word@[0]),
            forall|j: int| 1 <= j < i ==> is_word_char(#[trigger] word@[j]),
        decreases chars.len() - i,
    {
        let c: char = chars[i];
        if !(('a' <= c && c <= 'z') || ('0' <= c && c <= '9')) {
            assert(!is_word_char(word@[i as int]));
            return Some(InvalidLabel::InvalidChar);
        }
        i += 1;
    }
    None
}

/// Finds what is wrong with a label.
pub fn check_label(label: &str) -> (res: Option<InvalidLabel>)
    ensures
        res == label_problem(label@),
{
    if label.is_empty() {
        return Some(InvalidLabel::Empty);
    }
    let words = cut(label, '-');
    let ghost all = slice_texts(words@);
    let mut i: usize = 0;
    assert(all.skip(0) =~= all);
    while i < words.len()
        invariant
            i <= words.len(),
            all == slice_texts(words@),
            label@.len() > 0,
            all == split(label@, '-'),
            words_problem(all) == words_problem(all.skip(i as int)),
        decreases words.len() - i,
    {
        assert(all.skip(i as int)[0] == words@[i as int]@);
        assert(all.skip(i as int).drop_first() =~= all.skip(i + 1));
        let problem = check_word(words[i]);
        if problem.is_some() {
            return problem;
        }
        i += 1;
    }
    None
}

// ---------------------------------------------------------------------------
// Package references
// ---------------------------------------------------------------------------

/// A package reference, consisting of kebab-case namespace and name.
///
/// Ex: `wasm-pkg:client`
#[derive(Debug, PartialEq)]
pub struct PackageRef {
    pub namespace: String,
    pub name: String,
}

/// The namespace and the name of a package.
pub type PackageNames = (Seq<char>, Seq<char>);

impl PackageRef {
    /// The namespace and the name.
    pub open spec fn names(self) -> PackageNames {
        (self.namespace@, self.name@)
    }

    /// Both the namespace and the name are labels.
    pub open spec fn wf(self) -> bool {
        is_label(self.namespace@) && is_label(self.name@)
    }
}

/// The package that the text refers to, as in `namespace:name`.
pub open spec fn package_of(text: Seq<char>) -> Result<PackageNames, ErrorView> {
    match split_once(text, ':') {
        None => Err(ErrorView::InvalidPackageRef("missing expected ':'"@)),
        Some((namespace, name)) => match (label_problem(namespace), label_problem(name)) {
            (Some(p), _) => Err(ErrorView::InvalidLabel(p)),
            (None, Some(p)) => Err(ErrorView::InvalidLabel(p)),
            (None, None) => Ok((namespace, name)),
        },
    }
}

impl PackageRef {
    /// Parses a package reference.
    pub fn parse(text: &str) -> (res: Result<PackageRef, Error>)
        ensures
            match (res, package_of(text@)) {
                (Ok(r), Ok(names)) => r.names() == names && r.wf(),
                (Err(e), Err(v)) => e@ == v,
                _ => false,
            },
    {
        match cut_once(text, ':') {
            None => Err(Error::InvalidPackageRef("missing expected ':'".to_string())),
            Some((namespace, name)) => {
                if let Some(p) = check_label(namespace) {
                    return Err(Error::InvalidLabel(p));
                }
                if let Some(p) = check_label(name) {
                    return Err(Error::InvalidLabel(p));
                }
                Ok(PackageRef { namespace: namespace.to_string(), name: name.to_string() })
            },
        }
    }

    /// The reference as text, as in `namespace:name`.
    pub fn to_text(&self) -> (res: String)
        ensures
            res@ == package_text(self.names()),
    {
        let mut text = self.namespace.clone();
        text.append(":");
        text.append(self.name.as_str());
        text
    }
}

/// A package reference as text.
pub open spec fn package_text(names: PackageNames) -> Seq<char> {
    names.0 + ":"@ + names.1
}

/// A namespace and a name joined by a colon refer to a package exactly if both are labels, and then to
/// the package with that namespace and that name.
pub proof fn law_package_text_reads_back(namespace: Seq<char>, name: Seq<char>)
    ensures
        package_of(package_text((namespace, name))) is Ok <==> is_label(namespace) && is_label(name),
        is_label(namespace) && is_label(name) ==> package_of(package_text((namespace, name))) == Ok::<
            PackageNames,
            ErrorView,
        >((namespace, name)),
{
    let text = package_text((namespace, name));
    reveal_strlit(":");
    assert(text[namespace.len() as int] == ':');
    lemma_position(text, ':');
    let p = position(text, ':');
    assert(p <= namespace.len());
    if is_label(namespace) {
        law_label_characters(namespace);
        assert forall|i: int| 0 <= i < namespace.len() implies text[i] != ':' by {
            assert(text[i] == namespace[i]);
            assert(is_word_char(namespace[i]) || namespace[i] == '-');
        }
        lemma_position_unique(text, ':', namespace.len() as int);
        assert(text.take(p) =~= namespace);
        assert(text.skip(p + 1) =~= name);
    } else if p < namespace.len() {
        let rest = text.skip(p + 1);
        let q = namespace.len() - p - 1;
        assert(rest[q] == ':');
        if is_label(rest) {
            law_label_characters(rest);
            assert(is_word_char(rest[q]) || rest[q] == '-');
        }
    } else {
        assert(text.take(p) =~= namespace);
    }
}

// ---------------------------------------------------------------------------
// Versions
// ---------------------------------------------------------------------------

/// A version of a package.
#[derive(Debug, PartialEq)]
pub struct Version {
    pub major: u64,
    pub minor: u64,
    pub patch: u64,
    /// The identifiers of a pre-release; empty for a release.
    pub pre: String,
    /// The build metadata; empty where there is none.
    pub build: String,
}

/// The parts of a version: the three numbers, the pre-release and the build metadata.
pub type VersionParts = (u64, u64, u64, Seq<char>, Seq<char>);

impl Version {
    /// The parts of the version.
    pub open spec fn parts(self) -> VersionParts {
        (self.major, self.minor, self.patch, self.pre@, self.build@)
    }
}

impl Clone for Version {
    fn clone(&self) -> (res: Self)
        ensures
            res == *self,
    {
        Version {
            major: self.major,
            minor: self.minor,
            patch: self.patch,
            pre: self.pre.clone(),
            build: self.build.clone(),
        }
    }
}

/// A version as text, as in `1.2.3-pre+build`.
pub open spec fn version_text(parts: VersionParts) -> Seq<char> {
    let numbers = decimal(parts.0 as nat) + "."@ + decimal(parts.1 as nat) + "."@ + decimal(
        parts.2 as nat,
    );
    let released = if parts.3.len() == 0 {
        numbers
    } else {
        numbers + "-"@ + parts.3
    };
    if parts.4.len() == 0 {
        released
    } else {
        released + "+"@ + parts.4
    }
}

/// The version that `semver::Version::parse` reads from the text, where it is one.
pub uninterp spec fn semver_parts(text: Seq<char>) -> Option<VersionParts>;

/// `semver::Version::parse` reads a version. Which texts are versions is named, not spelt out; but every
/// number has to be written without leading zeros, and the rest is kept as it stands, so that the
/// version written out is the text that was read.
#[verifier::external_body]
fn parse_semver(text: &str) -> (res: Option<Version>)
    ensures
        match res {
            Some(v) => semver_parts(text@) == Some(v.parts()) && version_text(v.parts()) == text@,
            None => semver_parts(text@) is None,
        },
{
    match semver::Version::parse(text) {
        Ok(v) => Some(
            Version {
                major: v.major,
                minor: v.minor,
                patch: v.patch,
                pre: v.pre.to_string(),
                build: v.build.to_string(),
            },
        ),
        Err(_) => None,
    }
}

impl Version {
    /// Reads a version.
    pub fn parse(text: &str) -> (res: Option<Version>)
        ensures
            match res {
                Some(v) => semver_parts(text@) == Some(v.parts()) && version_text(v.parts())
                    == text@,
                None => semver_parts(text@) is None,
            },
    {
        parse_semver(text)
    }

    /// The version as text.
    pub fn to_text(&self) -> (res: String)
        ensures
            res@ == version_text(self.parts()),
    {
        let mut text = to_decimal(self.major);
        text.append(".");
        text.append(to_decimal(self.minor).as_str());
        text.append(".");
        text.append(to_decimal(self.patch).as_str());
        if !self.pre.as_str().is_empty() {
            text.append("-");
            text.append(self.pre.as_str());
        }
        if !self.build.as_str().is_empty() {
            text.append("+");
            text.append(self.build.as_str());
        }
        text
    }
}

/// A version that a registry offers.
#[derive(Debug, PartialEq)]
pub struct VersionInfo {
    pub version: Version,
    pub yanked: bool,
}

/// A release of a package: its version and the digest of its content.
#[derive(Debug, PartialEq)]
pub struct Release {
    pub version: Version,
    pub content_digest: ContentDigest,
}

// ---------------------------------------------------------------------------
// Laws
// ---------------------------------------------------------------------------

/// Whether the text is made of lower-case ASCII letters, ASCII digits and dashes, with a letter at its start and behind
/// every dash.
pub open spec fn is_kebab(text: Seq<char>) -> bool {
    &&& text.len() > 0
    &&& 'a' <= text[0] <= 'z'
    &&& forall|i: int|
        0 <= i < text.len() ==> 'a' <= (#[trigger] text[i]) <= 'z' || '0' <= text[i] <= '9' || text[i]
            == '-'
    &&& text.last() != '-'
    &&& forall|i: int, j: int|
        0 <= i < text.len() && j == i + 1 && j < text.len() && (#[trigger] text[i]) == '-' ==> 'a' <= (
        #[trigger] text[j]) <= 'z'
}

/// A label is made of lower-case ASCII letters, ASCII digits and dashes, with a letter at its start and behind every dash,
/// and all such text is a label.
pub proof fn law_labels_are_kebab_case(label: Seq<char>)
    ensures
        is_label(label) <==> is_kebab(label),
        label_problem(label) == Some(InvalidLabel::Empty) <==> label.len() == 0,
{
    lemma_kebab(label);
    if label.len() > 0 {
        lemma_not_empty(split(label, '-'));
    }
}

/// What is wrong with words is never that there is no label.
proof fn lemma_not_empty(words: Seq<Seq<char>>)
    ensures
        words_problem(words) != Some(InvalidLabel::Empty),
    decreases words.len(),
{
    if words.len() > 0 {
        lemma_not_empty(words.drop_first());
    }
}

/// A word is faultless exactly if it is in kebab case and holds no dash.
proof fn lemma_word(word: Seq<char>)
    requires
        forall|i: int| 0 <= i < word.len() ==> (#[trigger] word[i]) != '-',
    ensures
        word_problem(word) is None <==> is_kebab(word),
{
    if word_problem(word) is None {
        assert forall|i: int| 0 <= i < word.len() implies 'a' <= (#[trigger] word[i]) <= 'z' || '0'
            <= word[i] <= '9' || word[i] == '-' by {
            assert(i == 0 || is_word_char(word[i]));
        }
    }
    if is_kebab(word) {
        assert forall|i: int| 1 <= i < word.len() implies is_word_char(#[trigger] word[i]) by {
            assert(word[i] != '-');
        }
    }
}

/// A text with a dash is in kebab case exactly if both sides of the dash are.
proof fn lemma_joined_kebab(word: Seq<char>, rest: Seq<char>)
    ensures
        is_kebab(word.push('-') + rest) <==> is_kebab(word) && is_kebab(rest),
{
    let s = word.push('-') + rest;
    let p = word.len() as int;
    assert forall|i: int| 0 <= i < p implies #[trigger] s[i] == word[i] by {
    }
    assert(s[p] == '-');
    assert forall|i: int| 0 <= i < rest.len() implies #[trigger] rest[i] == s[i + p + 1] by {
    }
    if is_kebab(word) && is_kebab(rest) {
        assert(s[0] == word[0]);
        assert(s.last() == rest.last());
        assert forall|i: int| 0 <= i < s.len() implies 'a' <= (#[trigger] s[i]) <= 'z' || '0' <= s[i]
            <= '9' || s[i] == '-' by {
            if i < p {
                assert(s[i] == word[i]);
            } else if i > p {
                assert(rest[i - p - 1] == s[i]);
            }
        }
        assert forall|i: int, j: int|
            0 <= i < s.len() && j == i + 1 && j < s.len() && (#[trigger] s[i]) == '-' implies 'a' <= (
        #[trigger] s[j]) <= 'z' by {
            if i < p {
                assert(word[i] == '-');
                if j < p {
                    assert(s[j] == word[j]);
                } else {
                    assert(word.last() == word[i]);
                }
            } else if i == p {
                assert(rest[0] == s[j]);
            } else {
                assert(rest[i - p - 1] == s[i]);
                assert(rest[j - p - 1] == s[j]);
            }
        }
    }
    if is_kebab(s) {
        assert(s[0] != '-');
        assert(p > 0);
        assert(s[0] == word[0]);
        assert(rest.len() > 0) by {
            if rest.len() == 0 {
                assert(s.last() == s[p]);
            }
        }
        assert(s[p + 1] == rest[0]);
        assert(s.last() == rest.last());
        assert(word.last() == s[p - 1]);
        assert(word.last() != '-') by {
            if s[p - 1] == '-' {
                assert('a' <= s[p] <= 'z');
            }
        }
        assert forall|i: int| 0 <= i < word.len() implies 'a' <= (#[trigger] word[i]) <= 'z' || '0'
            <= word[i] <= '9' || word[i] == '-' by {
            assert(word[i] == s[i]);
        }
        assert forall|i: int, j: int|
            0 <= i < word.len() && j == i + 1 && j < word.len() && (#[trigger] word[i]) == '-' implies 'a'
            <= (#[trigger] word[j]) <= 'z' by {
            assert(s[i] == '-');
            assert(s[j] == word[j]);
        }
        assert forall|i: int| 0 <= i < rest.len() implies 'a' <= (#[trigger] rest[i]) <= 'z' || '0'
            <= rest[i] <= '9' || rest[i] == '-' by {
            assert(rest[i] == s[i + p + 1]);
        }
        assert forall|i: int, j: int|
            0 <= i < rest.len() && j == i + 1 && j < rest.len() && (#[trigger] rest[i]) == '-' implies 'a'
            <= (#[trigger] rest[j]) <= 'z' by {
            assert(s[i + p + 1] == '-');
            assert(s[j + p + 1] == rest[j]);
        }
    }
}

/// The words of a text are faultless exactly if it is in kebab case.
proof fn lemma_kebab(s: Seq<char>)
    ensures
        words_problem(split(s, '-')) is None <==> is_kebab(s),
    decreases s.len(),
{
    let p = position(s, '-');
    lemma_position(s, '-');
    let words = split(s, '-');
    if p < s.len() {
        let rest = s.skip(p + 1);
        let word = s.take(p);
        assert(words[0] == word);
        assert(words.drop_first() =~= split(rest, '-'));
        lemma_kebab(rest);
        assert forall|i: int| 0 <= i < word.len() implies (#[trigger] word[i]) != '-' by {
            assert(word[i] == s[i]);
        }
        lemma_word(word);
        lemma_joined_kebab(word, rest);
        assert(word.push('-') + rest =~= s);
    } else {
        assert(words =~= seq![s]);
        assert(words.drop_first() =~= Seq::<Seq<char>>::empty());
        assert(words_problem(words.drop_first()) is None);
        lemma_word(s);
    }
}

/// A text refers to a package exactly if it is a namespace, a colon and a name, both of them labels, and then to that
/// package. Without a colon it is no reference at all.
pub proof fn law_reference_is_read(text: &str, res: Result<PackageRef, Error>)
    requires
        call_ensures(PackageRef::parse, (text,), res),
    ensures
        res matches Ok(r) ==> is_kebab(r.namespace@) && is_kebab(r.name@) && text@ == r.namespace@ + ":"@
            + r.name@,
        !text@.contains(':') ==> (res matches Err(e) && e@ is InvalidPackageRef),
        text@.contains(':') ==> (res matches Err(e) ==> e@ is InvalidLabel),
        forall|namespace: Seq<char>, name: Seq<char>|
            is_kebab(namespace) && is_kebab(name) && text@ == #[trigger] (namespace + ":"@ + name) ==> (
            res matches Ok(r) && r.namespace@ == namespace && r.name@ == name),
{
    reveal_strlit(":");
    law_cut_at_the_first(text@, ':');
    if let Some((a, b)) = split_once(text@, ':') {
        assert(a.push(':') + b =~= a + ":"@ + b);
        law_labels_are_kebab_case(a);
        law_labels_are_kebab_case(b);
        assert(text@[a.len() as int] == ':');
        assert(text@.contains(':'));
    }
    assert forall|namespace: Seq<char>, name: Seq<char>|
        is_kebab(namespace) && is_kebab(name) && text@ == #[trigger] (namespace + ":"@ + name) implies (
    res matches Ok(r) && r.namespace@ == namespace && r.name@ == name) by {
        law_labels_are_kebab_case(namespace);
        law_labels_are_kebab_case(name);
        law_package_text_reads_back(namespace, name);
        assert(text@ == package_text((namespace, name)));
    }
}

/// A version is written with its three numbers and dots between them, then a dash and the pre-release, where there is
/// one, and then a plus sign and the build metadata, where there are any.
pub proof fn law_version_is_written(version: &Version, res: String)
    requires
        call_ensures(Version::to_text, (version,), res),
    ensures
        res@ == joined(
            seq![
                decimal(version.major as nat),
                decimal(version.minor as nat),
                decimal(version.patch as nat),
            ],
            '.',
        ) + (if version.pre@.len() == 0 {
            ""@
        } else {
            "-"@ + version.pre@
        }) + (if version.build@.len() == 0 {
            ""@
        } else {
            "+"@ + version.build@
        }),
{
    lemma_version_text(version.parts());
}

/// A version is written with its numbers joined by dots.
pub proof fn lemma_version_text(parts: VersionParts)
    ensures
        version_text(parts) == joined(
            seq![decimal(parts.0 as nat), decimal(parts.1 as nat), decimal(parts.2 as nat)],
            '.',
        ) + (if parts.3.len() == 0 {
            ""@
        } else {
            "-"@ + parts.3
        }) + (if parts.4.len() == 0 {
            ""@
        } else {
            "+"@ + parts.4
        }),
{
    reveal_strlit("");
    reveal_strlit(".");
    let a = decimal(parts.0 as nat);
    let b = decimal(parts.1 as nat);
    let c = decimal(parts.2 as nat);
    let two = seq![a].push(b);
    let three = two.push(c);
    lemma_joined_push(seq![a], b, '.');
    lemma_joined_push(two, c, '.');
    assert(three =~= seq![a, b, c]);
    assert(joined(seq![a], '.') == a);
    let numbers = a + "."@ + b + "."@ + c;
    assert((a.push('.') + b).push('.') + c =~= numbers);
    assert(numbers + ""@ =~= numbers);
    if parts.3.len() > 0 {
        assert(numbers + "-"@ + parts.3 =~= numbers + ("-"@ + parts.3));
    }
    let released = if parts.3.len() == 0 {
        numbers
    } else {
        numbers + "-"@ + parts.3
    };
    assert(released + ""@ =~= released);
    if parts.4.len() > 0 {
        assert(released + "+"@ + parts.4 =~= released + ("+"@ + parts.4));
    }
}

/// Versions that are releases are told apart by their text.
pub proof fn law_releases_are_told_apart(a: VersionParts, b: VersionParts)
    requires
        a.3.len() == 0 && a.4.len() == 0,
        b.3.len() == 0 && b.4.len() == 0,
        version_text(a) == version_text(b),
    ensures
        a.0 == b.0 && a.1 == b.1 && a.2 == b.2,
{
    lemma_numbers_split(a);
    lemma_numbers_split(b);
    let x = seq![decimal(a.0 as nat), decimal(a.1 as nat), decimal(a.2 as nat)];
    let y = seq![decimal(b.0 as nat), decimal(b.1 as nat), decimal(b.2 as nat)];
    assert(x == y);
    assert(x[0] == y[0] && x[1] == y[1] && x[2] == y[2]);
    law_decimal_reads_back(a.0 as nat);
    law_decimal_reads_back(a.1 as nat);
    law_decimal_reads_back(a.2 as nat);
    law_decimal_reads_back(b.0 as nat);
    law_decimal_reads_back(b.1 as nat);
    law_decimal_reads_back(b.2 as nat);
}

/// The text of a release splits into its numbers.
proof fn lemma_numbers_split(parts: VersionParts)
    requires
        parts.3.len() == 0 && parts.4.len() == 0,
    ensures
        split(version_text(parts), '.') == seq![
            decimal(parts.0 as nat),
            decimal(parts.1 as nat),
            decimal(parts.2 as nat),
        ],
{
    reveal_strlit(".");
    let a = decimal(parts.0 as nat);
    let b = decimal(parts.1 as nat);
    let c = decimal(parts.2 as nat);
    law_decimal_reads_back(parts.0 as nat);
    law_decimal_reads_back(parts.1 as nat);
    law_decimal_reads_back(parts.2 as nat);
    let tail = b + "."@ + c;
    let text = version_text(parts);
    assert(text =~= a + "."@ + tail);
    assert forall|i: int| 0 <= i < a.len() implies text[i] != '.' by {
        assert(text[i] == a[i]);
    }
    lemma_position_unique(text, '.', a.len() as int);
    assert(text.take(a.len() as int) =~= a);
    assert(text.skip(a.len() as int + 1) =~= tail);
    assert forall|i: int| 0 <= i < b.len() implies tail[i] != '.' by {
        assert(tail[i] == b[i]);
    }
    lemma_position_unique(tail, '.', b.len() as int);
    assert(tail.take(b.len() as int) =~= b);
    assert(tail.skip(b.len() as int + 1) =~= c);
    assert forall|i: int| 0 <= i < c.len() implies c[i] != '.' by {
        assert('0' <= c[i] <= '9');
    }
    lemma_position_unique(c, '.', c.len() as int);
    assert(split(c, '.') == seq![c]);
    assert(split(tail, '.') =~= seq![b, c]);
    assert(split(text, '.') =~= seq![a, b, c]);
}

/// What is wrong with a label is what is wrong with its first faulty word. A word has to have a character, to start with a
/// letter, and to hold nothing but letters and digits, in this order.
pub proof fn law_what_is_wrong_with_a_label(word: Seq<char>, rest: Seq<char>)
    requires
        !word.contains('-'),
    ensures
        word.len() == 0 ==> label_problem(word + seq!['-'] + rest) == Some(InvalidLabel::EmptyWord),
        word.len() > 0 && !('a' <= word[0] <= 'z') ==> label_problem(word) == Some(
            InvalidLabel::InvalidWordFirstChar,
        ) && label_problem(word + seq!['-'] + rest) == Some(InvalidLabel::InvalidWordFirstChar),
        word.len() > 0 && 'a' <= word[0] <= 'z' && !is_kebab(word) ==> label_problem(word) == Some(
            InvalidLabel::InvalidChar,
        ) && label_problem(word + seq!['-'] + rest) == Some(InvalidLabel::InvalidChar),
        is_kebab(word) ==> label_problem(word + seq!['-'] + rest) == (if rest.len() == 0 {
            Some(InvalidLabel::EmptyWord)
        } else {
            label_problem(rest)
        }),
{
    assert forall|i: int| 0 <= i < word.len() implies (#[trigger] word[i]) != '-' by {
        assert(word.contains(word[i]));
    }
    lemma_word(word);
    lemma_position_unique(word, '-', word.len() as int);
    assert(split(word, '-') == seq![word]);
    assert(seq![word].drop_first() =~= Seq::<Seq<char>>::empty());
    assert(words_problem(Seq::<Seq<char>>::empty()) is None);
    assert(words_problem(seq![word]) == word_problem(word));
    let label = word + seq!['-'] + rest;
    let n = word.len() as int;
    assert forall|i: int| 0 <= i < n implies label[i] != '-' by {
        assert(label[i] == word[i]);
    }
    assert(label[n] == '-');
    lemma_position_unique(label, '-', n);
    assert(label.take(n) =~= word);
    assert(label.skip(n + 1) =~= rest);
    assert(split(label, '-').drop_first() =~= split(rest, '-'));
    if rest.len() == 0 {
        lemma_position_unique(rest, '-', 0);
        assert(split(rest, '-') == seq![rest]);
        assert(words_problem(seq![rest]) == word_problem(rest));
    }
    if word.len() > 0 && 'a' <= word[0] <= 'z' && !is_kebab(word) {
        assert(word_problem(word) is Some);
    }
}

/// The namespace of a reference is looked at before its name.
pub proof fn law_namespace_comes_first(namespace: Seq<char>, name: Seq<char>)
    requires
        !namespace.contains(':'),
    ensures
        package_of(namespace + ":"@ + name) == (match (label_problem(namespace), label_problem(name)) {
            (Some(p), _) => Err::<PackageNames, ErrorView>(ErrorView::InvalidLabel(p)),
            (None, Some(p)) => Err(ErrorView::InvalidLabel(p)),
            (None, None) => Ok((namespace, name)),
        }),
{
    reveal_strlit(":");
    let text = namespace + ":"@ + name;
    let n = namespace.len() as int;
    assert forall|i: int| 0 <= i < n implies text[i] != ':' by {
        assert(text[i] == namespace[i]);
        assert(namespace.contains(namespace[i]));
    }
    assert(text[n] == ':');
    lemma_position_unique(text, ':', n);
    assert(text.take(n) =~= namespace);
    assert(text.skip(n + 1) =~= name);
}

/// A package is written as its namespace, a colon and its name.
pub proof fn law_package_is_written(package: &PackageRef, res: String)
    requires
        call_ensures(PackageRef::to_text, (package,), res),
    ensures
        res@ == package.namespace@ + ":"@ + package.name@,
{
}

} // verus!
