//! Versions of modules and the order among them.

use std::cmp::Ordering;
use vstd::prelude::*;
use vstd::string::*;
use crate::calls::{all_digits, bounded_digits, digits_value};
use crate::module::InputError;
use crate::ordered::{
    lemma_text_lt_irreflexive, lemma_text_lt_total, lemma_text_lt_transitive, result_view,
    text_less, text_lt,
};
use crate::text::{
    Text, char_is_ascii_alphanumeric, char_is_ascii_digit, chars_of, concat3, is_ascii_alphanumeric,
    is_ascii_digit, lemma_find_from, lemma_next_char, next_char, occurs_at, split, split_from,
    split_of, split_once, split_once_of, text_from,
};

verus! {

/// A lower-case letter first; letters, digits, `.`, `-` and `_` after it; a letter
/// or digit last.
pub open spec fn valid_module_name(name: Text) -> bool {
    &&& name.len() > 0
    &&& is_lowercase(name[0])
    &&& is_lowercase(name.last()) || is_ascii_digit(name.last())
    &&& forall|i: int| 0 < i < name.len() ==> is_module_name_char(#[trigger] name[i])
}

pub open spec fn is_lowercase(c: char) -> bool {
    'a' <= c && c <= 'z'
}

pub open spec fn is_module_name_char(c: char) -> bool {
    is_lowercase(c) || is_ascii_digit(c) || c == '.' || c == '-' || c == '_'
}

/// Whether a module may have this name.
pub fn is_valid_bzlmod_module_name(name: &str) -> (r: bool)
    ensures
        r == valid_module_name(name@),
{
    let v = chars_of(name);
    let n: usize = v.len();
    if n == 0 || !('a' <= v[0] && v[0] <= 'z') {
        return false;
    }
    let mut i: usize = 1;
    while i < n
        invariant
            v@ == name@,
            n == v@.len(),
            1 <= i <= n,
            forall|j: int| 0 < j < i ==> is_module_name_char(#[trigger] v@[j]),
        decreases n - i,
    {
        let c = v[i];
        if !(('a' <= c && c <= 'z') || char_is_ascii_digit(c) || c == '.' || c == '-' || c
            == '_') {
            return false;
        }
        i += 1;
    }
    ('a' <= v[n - 1] && v[n - 1] <= 'z') || char_is_ascii_digit(v[n - 1])
}

/// A part of a version: a number, with the digits it was written with, or other
/// text.
#[derive(Debug, PartialEq, Eq)]
pub enum BzlmodVersionIdentifier {
    Digits { number: u64, raw: String },
    Text(String),
}

/// The model of [`BzlmodVersionIdentifier`].
pub enum Identifier {
    Digits { number: int, raw: Text },
    Other { text: Text },
}

impl DeepView for BzlmodVersionIdentifier {
    type V = Identifier;

    open spec fn deep_view(&self) -> Identifier {
        match self {
            BzlmodVersionIdentifier::Digits { number, raw } => Identifier::Digits {
                number: *number as int,
                raw: raw@,
            },
            BzlmodVersionIdentifier::Text(text) => Identifier::Other { text: text@ },
        }
    }
}

/// A version: its release, and its prerelease where it has one.
#[derive(Debug, PartialEq, Eq)]
pub struct BzlmodVersion {
    pub release: Vec<BzlmodVersionIdentifier>,
    pub prerelease: Vec<BzlmodVersionIdentifier>,
}

/// The model of [`BzlmodVersion`].
pub struct Version {
    pub release: Seq<Identifier>,
    pub prerelease: Seq<Identifier>,
}

impl DeepView for BzlmodVersion {
    type V = Version;

    open spec fn deep_view(&self) -> Version {
        Version { release: self.release.deep_view(), prerelease: self.prerelease.deep_view() }
    }
}

/// The identifiers that the parts from `i` on of `value` are.
pub open spec fn identifiers(value: Text, parts: Seq<Text>, i: int, done: Seq<Identifier>) -> Result<
    Seq<Identifier>,
    Text,
>
    decreases parts.len() - i,
{
    if i < 0 || i >= parts.len() {
        Ok(done)
    } else if parts[i].len() == 0 {
        Err("empty bzlmod version identifier in `"@ + value + "`"@)
    } else if all_digits(parts[i]) {
        if digits_value(parts[i]) <= u64::MAX {
            identifiers(
                value,
                parts,
                i + 1,
                done.push(Identifier::Digits { number: digits_value(parts[i]), raw: parts[i] }),
            )
        } else {
            Err("numeric bzlmod version identifier `"@ + parts[i] + "` is too large"@)
        }
    } else {
        identifiers(value, parts, i + 1, done.push(Identifier::Other { text: parts[i] }))
    }
}

/// The identifiers that a dotted text is made of.
pub fn parse_bzlmod_version_identifiers(value: &str) -> (r: Result<
    Vec<BzlmodVersionIdentifier>,
    InputError,
>)
    ensures
        result_view(r) == identifiers(value@, split(value@, '.'), 0, seq![]),
{
    let parts = split_of(value, '.');
    let ghost model = parts.deep_view();
    let mut out: Vec<BzlmodVersionIdentifier> = Vec::new();
    let mut i: usize = 0;
    assert(out.deep_view() =~= seq![]);
    while i < parts.len()
        invariant
            model == split(value@, '.'),
            model == parts.deep_view(),
            0 <= i <= parts@.len(),
            identifiers(value@, model, 0, seq![]) == identifiers(
                value@,
                model,
                i as int,
                out.deep_view(),
            ),
        decreases parts.len() - i,
    {
        assert(model[i as int] == parts@[i as int]@);
        let ghost before = out.deep_view();
        let part = parts[i].as_str();
        if part.is_empty() {
            return Err(
                InputError {
                    message: concat3("empty bzlmod version identifier in `", value, "`"),
                },
            );
        }
        let identifier = match bounded_digits(part, u64::MAX) {
            Some(number) => BzlmodVersionIdentifier::Digits { number, raw: part.to_owned() },
            None => {
                if digits_only(part) {
                    return Err(
                        InputError {
                            message: concat3(
                                "numeric bzlmod version identifier `",
                                part,
                                "` is too large",
                            ),
                        },
                    );
                }
                BzlmodVersionIdentifier::Text(part.to_owned())
            },
        };
        let ghost g = identifier.deep_view();
        out.push(identifier);
        assert(out.deep_view() =~= before.push(g));
        i += 1;
    }
    Ok(out)
}

fn digits_only(s: &str) -> (r: bool)
    ensures
        r == all_digits(s@),
{
    let v = chars_of(s);
    let mut i: usize = 0;
    while i < v.len()
        invariant
            v@ == s@,
            0 <= i <= v@.len(),
            forall|j: int| 0 <= j < i ==> is_ascii_digit(#[trigger] v@[j]),
        decreases v.len() - i,
    {
        if !char_is_ascii_digit(v[i]) {
            return false;
        }
        i += 1;
    }
    v.len() > 0
}

/// Letters, digits and dots, and hyphens where they may stand.
pub open spec fn version_chars(s: Text, hyphens: bool) -> bool {
    forall|i: int|
        0 <= i < s.len() ==> is_ascii_alphanumeric(#[trigger] s[i]) || s[i] == '.' || (hyphens
            && s[i] == '-')
}

fn has_version_chars(s: &str, hyphens: bool) -> (r: bool)
    ensures
        r == version_chars(s@, hyphens),
{
    let v = chars_of(s);
    let mut i: usize = 0;
    while i < v.len()
        invariant
            v@ == s@,
            0 <= i <= v@.len(),
            forall|j: int|
                0 <= j < i ==> is_ascii_alphanumeric(#[trigger] v@[j]) || v@[j] == '.' || (hyphens
                    && v@[j] == '-'),
        decreases v.len() - i,
    {
        if !(char_is_ascii_alphanumeric(v[i]) || v[i] == '.' || (hyphens && v[i] == '-')) {
            return false;
        }
        i += 1;
    }
    true
}

/// The two sides of the first `sep`, the whole text and nothing where there is
/// none.
pub open spec fn sides(s: Text, sep: Text) -> (Text, Text) {
    match split_once(s, sep) {
        Some(t) => t,
        None => (s, seq![]),
    }
}

/// The version that a text is: a release, then `-` and a prerelease, then `+` and
/// build metadata that does not count. The empty text is a version without
/// release.
pub open spec fn version_of(text: Text) -> Result<Version, Text> {
    let (main, build) = sides(text, "+"@);
    let (release, prerelease) = sides(main, "-"@);
    if text.len() == 0 {
        Ok(Version { release: seq![], prerelease: seq![] })
    } else if !version_chars(build, true) {
        Err("invalid bzlmod version build metadata `"@ + build + "`"@)
    } else if release.len() == 0 || !version_chars(release, false) {
        Err("invalid bzlmod version release `"@ + release + "`"@)
    } else if !version_chars(prerelease, true) {
        Err("invalid bzlmod version prerelease `"@ + prerelease + "`"@)
    } else {
        match identifiers(release, split(release, '.'), 0, seq![]) {
            Err(message) => Err(message),
            Ok(release) => if prerelease.len() == 0 {
                Ok(Version { release, prerelease: seq![] })
            } else {
                match identifiers(prerelease, split(prerelease, '.'), 0, seq![]) {
                    Err(message) => Err(message),
                    Ok(prerelease) => Ok(Version { release, prerelease }),
                }
            },
        }
    }
}

fn sides_of<'a>(s: &'a str, sep: &str) -> (r: (&'a str, &'a str))
    ensures
        r.0@ == sides(s@, sep@).0,
        r.1@ == sides(s@, sep@).1,
{
    match split_once_of(s, sep) {
        Some(t) => t,
        None => {
            let end = text_from(s, s.unicode_len());
            assert(end@ =~= seq![]);
            (s, end)
        },
    }
}

/// The version that a text is.
pub fn parse_bzlmod_version(version: &str) -> (r: Result<BzlmodVersion, InputError>)
    ensures
        result_view(r) == version_of(version@),
{
    let none: Vec<BzlmodVersionIdentifier> = Vec::new();
    assert(none.deep_view() =~= seq![]);
    if version.is_empty() {
        let release: Vec<BzlmodVersionIdentifier> = Vec::new();
        assert(release.deep_view() =~= seq![]);
        return Ok(BzlmodVersion { release, prerelease: none });
    }
    let (main, build) = sides_of(version, "+");
    if !has_version_chars(build, true) {
        return Err(
            InputError {
                message: concat3("invalid bzlmod version build metadata `", build, "`"),
            },
        );
    }
    let (release, prerelease) = sides_of(main, "-");
    if release.is_empty() || !has_version_chars(release, false) {
        return Err(
            InputError { message: concat3("invalid bzlmod version release `", release, "`") },
        );
    }
    if !has_version_chars(prerelease, true) {
        return Err(
            InputError { message: concat3("invalid bzlmod version prerelease `", prerelease, "`") },
        );
    }
    let release = match parse_bzlmod_version_identifiers(release) {
        Ok(release) => release,
        Err(e) => {
            return Err(e);
        },
    };
    if prerelease.is_empty() {
        return Ok(BzlmodVersion { release, prerelease: none });
    }
    match parse_bzlmod_version_identifiers(prerelease) {
        Ok(prerelease) => Ok(BzlmodVersion { release, prerelease }),
        Err(e) => Err(e),
    }
}

/// `a` comes before `b`: by number, then by digits; numbers before other text;
/// other text in dictionary order.
pub open spec fn identifier_lt(a: Identifier, b: Identifier) -> bool {
    match (a, b) {
        (
            Identifier::Digits { number: m, raw: s },
            Identifier::Digits { number: n, raw: t },
        ) => m < n || (m == n && text_lt(s, t)),
        (Identifier::Digits { .. }, Identifier::Other { .. }) => true,
        (Identifier::Other { .. }, Identifier::Digits { .. }) => false,
        (Identifier::Other { text: s }, Identifier::Other { text: t }) => text_lt(s, t),
    }
}

/// `a` comes before `b` in dictionary order.
pub open spec fn identifiers_lt(a: Seq<Identifier>, b: Seq<Identifier>) -> bool
    decreases a.len(),
{
    if b.len() == 0 {
        false
    } else if a.len() == 0 {
        true
    } else if a[0] == b[0] {
        identifiers_lt(a.skip(1), b.skip(1))
    } else {
        identifier_lt(a[0], b[0])
    }
}

/// `a` is lower than `b`: by release, where one without release is the highest;
/// then by prerelease, where one without prerelease is the highest.
pub open spec fn version_lt(a: Version, b: Version) -> bool {
    if a.release.len() == 0 {
        false
    } else if b.release.len() == 0 {
        true
    } else if a.release != b.release {
        identifiers_lt(a.release, b.release)
    } else if a.prerelease.len() == 0 {
        false
    } else if b.prerelease.len() == 0 {
        true
    } else {
        identifiers_lt(a.prerelease, b.prerelease)
    }
}

/// `a` and `b` count as the same version.
pub open spec fn version_same(a: Version, b: Version) -> bool {
    !version_lt(a, b) && !version_lt(b, a)
}

proof fn lemma_identifier_lt_irreflexive(a: Identifier)
    ensures
        !identifier_lt(a, a),
{
    match a {
        Identifier::Digits { number, raw } => lemma_text_lt_irreflexive(raw),
        Identifier::Other { text } => lemma_text_lt_irreflexive(text),
    }
}

proof fn lemma_identifier_lt_total(a: Identifier, b: Identifier)
    ensures
        a == b || identifier_lt(a, b) || identifier_lt(b, a),
{
    match (a, b) {
        (
            Identifier::Digits { number: m, raw: s },
            Identifier::Digits { number: n, raw: t },
        ) => lemma_text_lt_total(s, t),
        (Identifier::Other { text: s }, Identifier::Other { text: t }) => lemma_text_lt_total(
            s,
            t,
        ),
        _ => {},
    }
}

proof fn lemma_identifier_lt_transitive(a: Identifier, b: Identifier, c: Identifier)
    requires
        identifier_lt(a, b),
        identifier_lt(b, c),
    ensures
        identifier_lt(a, c),
{
    match (a, b, c) {
        (
            Identifier::Digits { number: l, raw: r },
            Identifier::Digits { number: m, raw: s },
            Identifier::Digits { number: n, raw: t },
        ) => {
            if l == m && m == n {
                lemma_text_lt_transitive(r, s, t);
            }
        },
        (
            Identifier::Other { text: r },
            Identifier::Other { text: s },
            Identifier::Other { text: t },
        ) => {
            lemma_text_lt_transitive(r, s, t);
        },
        _ => {},
    }
}

proof fn lemma_identifiers_lt_irreflexive(a: Seq<Identifier>)
    ensures
        !identifiers_lt(a, a),
    decreases a.len(),
{
    if a.len() > 0 {
        lemma_identifiers_lt_irreflexive(a.skip(1));
    }
}

proof fn lemma_identifiers_lt_total(a: Seq<Identifier>, b: Seq<Identifier>)
    ensures
        a == b || identifiers_lt(a, b) || identifiers_lt(b, a),
    decreases a.len(),
{
    if a.len() > 0 && b.len() > 0 {
        if a[0] == b[0] {
            lemma_identifiers_lt_total(a.skip(1), b.skip(1));
            if a.skip(1) == b.skip(1) {
                assert(a =~= seq![a[0]] + a.skip(1));
                assert(b =~= seq![b[0]] + b.skip(1));
            }
        } else {
            lemma_identifier_lt_total(a[0], b[0]);
        }
    } else if a.len() == 0 && b.len() == 0 {
        assert(a =~= b);
    }
}

proof fn lemma_identifiers_lt_transitive(
    a: Seq<Identifier>,
    b: Seq<Identifier>,
    c: Seq<Identifier>,
)
    requires
        identifiers_lt(a, b),
        identifiers_lt(b, c),
    ensures
        identifiers_lt(a, c),
    decreases a.len(),
{
    if a.len() > 0 {
        if a[0] == b[0] && b[0] == c[0] {
            lemma_identifiers_lt_transitive(a.skip(1), b.skip(1), c.skip(1));
        } else if a[0] != b[0] && b[0] != c[0] {
            lemma_identifier_lt_transitive(a[0], b[0], c[0]);
            lemma_identifier_lt_irreflexive(a[0]);
        }
    }
}

/// No version is lower than itself.
pub proof fn law_version_order_irreflexive(a: Version)
    ensures
        !version_lt(a, a),
{
    lemma_identifiers_lt_irreflexive(a.prerelease);
}

/// The order of versions is transitive.
pub proof fn law_version_order_transitive(a: Version, b: Version, c: Version)
    requires
        version_lt(a, b),
        version_lt(b, c),
    ensures
        version_lt(a, c),
{
    if a.release != b.release && b.release != c.release && c.release.len() > 0 {
        lemma_identifiers_lt_transitive(a.release, b.release, c.release);
        lemma_identifiers_lt_irreflexive(a.release);
    } else if a.release == b.release && b.release == c.release && c.prerelease.len() > 0
        && b.prerelease.len() > 0 {
        lemma_identifiers_lt_transitive(a.prerelease, b.prerelease, c.prerelease);
    }
}

/// Two versions of which neither is lower agree in release and prerelease, or
/// both have no release.
pub proof fn law_version_order_total(a: Version, b: Version)
    ensures
        version_same(a, b) ==> (a.release.len() == 0 && b.release.len() == 0) || a == b,
{
    if a.release.len() > 0 && b.release.len() > 0 {
        lemma_identifiers_lt_total(a.release, b.release);
        if a.release == b.release {
            if a.prerelease.len() > 0 && b.prerelease.len() > 0 {
                lemma_identifiers_lt_total(a.prerelease, b.prerelease);
            } else if a.prerelease.len() == 0 && b.prerelease.len() == 0 {
                assert(a.prerelease =~= b.prerelease);
            }
        }
    }
}

/// A version without release is above every version that has one.
pub proof fn law_empty_version_is_highest(a: Version, b: Version)
    requires
        a.release.len() == 0,
        b.release.len() > 0,
    ensures
        version_lt(b, a),
        !version_lt(a, b),
{
}

/// A prerelease is below the release itself.
pub proof fn law_prerelease_is_lower(a: Version, b: Version)
    requires
        a.release.len() > 0,
        a.release == b.release,
        a.prerelease.len() > 0,
        b.prerelease.len() == 0,
    ensures
        version_lt(a, b),
        !version_lt(b, a),
{
}

/// How two things with a strict order stand to each other.
pub open spec fn order_of(lt: bool, gt: bool) -> Ordering {
    if lt {
        Ordering::Less
    } else if gt {
        Ordering::Greater
    } else {
        Ordering::Equal
    }
}

/// The order of two identifiers.
pub fn bzlmod_identifier_cmp(a: &BzlmodVersionIdentifier, b: &BzlmodVersionIdentifier) -> (r:
    Ordering)
    ensures
        r == order_of(
            identifier_lt(a.deep_view(), b.deep_view()),
            identifier_lt(b.deep_view(), a.deep_view()),
        ),
        r == Ordering::Equal <==> a.deep_view() == b.deep_view(),
{
    proof {
        lemma_identifier_lt_irreflexive(a.deep_view());
        lemma_identifier_lt_total(a.deep_view(), b.deep_view());
    }
    match (a, b) {
        (
            BzlmodVersionIdentifier::Digits { number: m, raw: s },
            BzlmodVersionIdentifier::Digits { number: n, raw: t },
        ) => {
            if *m < *n {
                Ordering::Less
            } else if *n < *m {
                proof {
                    lemma_text_lt_total(s@, t@);
                }
                Ordering::Greater
            } else if text_less(s.as_str(), t.as_str()) {
                Ordering::Less
            } else if text_less(t.as_str(), s.as_str()) {
                Ordering::Greater
            } else {
                Ordering::Equal
            }
        },
        (BzlmodVersionIdentifier::Digits { .. }, BzlmodVersionIdentifier::Text(_)) => {
            Ordering::Less
        },
        (BzlmodVersionIdentifier::Text(_), BzlmodVersionIdentifier::Digits { .. }) => {
            Ordering::Greater
        },
        (BzlmodVersionIdentifier::Text(s), BzlmodVersionIdentifier::Text(t)) => {
            if text_less(s.as_str(), t.as_str()) {
                Ordering::Less
            } else if text_less(t.as_str(), s.as_str()) {
                Ordering::Greater
            } else {
                Ordering::Equal
            }
        },
    }
}

/// The order of two lists of identifiers.
pub fn bzlmod_identifier_lex_cmp(
    a: &Vec<BzlmodVersionIdentifier>,
    b: &Vec<BzlmodVersionIdentifier>,
) -> (r: Ordering)
    ensures
        r == order_of(
            identifiers_lt(a.deep_view(), b.deep_view()),
            identifiers_lt(b.deep_view(), a.deep_view()),
        ),
        r == Ordering::Equal <==> a.deep_view() == b.deep_view(),
{
    let ghost x = a.deep_view();
    let ghost y = b.deep_view();
    proof {
        lemma_identifiers_lt_total(x, y);
        lemma_identifiers_lt_irreflexive(x);
        assert(x.skip(0) =~= x);
        assert(y.skip(0) =~= y);
    }
    let mut i: usize = 0;
    let ghost mut k: int = 0;
    while i < a.len() && i < b.len()
        invariant
            x == a.deep_view(),
            y == b.deep_view(),
            k == i,
            0 <= i <= a@.len(),
            i <= b@.len(),
            identifiers_lt(x, y) || identifiers_lt(y, x) || x == y,
            !identifiers_lt(x, x),
            identifiers_lt(x, y) == identifiers_lt(x.skip(k), y.skip(k)),
            identifiers_lt(y, x) == identifiers_lt(y.skip(k), x.skip(k)),
        decreases a.len() - i,
    {
        proof {
            assert(x.skip(k)[0] == a@[k].deep_view());
            assert(y.skip(k)[0] == b@[k].deep_view());
            assert(x.skip(k).skip(1) =~= x.skip(k + 1));
            assert(y.skip(k).skip(1) =~= y.skip(k + 1));
        }
        match bzlmod_identifier_cmp(&a[i], &b[i]) {
            Ordering::Equal => {},
            Ordering::Less => {
                proof {
                    lemma_identifier_lt_irreflexive(a@[k].deep_view());
                    if identifier_lt(b@[k].deep_view(), a@[k].deep_view()) {
                        lemma_identifier_lt_transitive(
                            a@[k].deep_view(),
                            b@[k].deep_view(),
                            a@[k].deep_view(),
                        );
                    }
                }
                return Ordering::Less;
            },
            Ordering::Greater => {
                return Ordering::Greater;
            },
        }
        i += 1;
        proof {
            k = k + 1;
        }
    }
    if a.len() < b.len() {
        Ordering::Less
    } else if b.len() < a.len() {
        Ordering::Greater
    } else {
        Ordering::Equal
    }
}

/// The order of two versions, or the message where one is none.
pub open spec fn version_order(a: Text, b: Text) -> Result<Ordering, Text> {
    match version_of(a) {
        Err(message) => Err(message),
        Ok(x) => match version_of(b) {
            Err(message) => Err(message),
            Ok(y) => Ok(order_of(version_lt(x, y), version_lt(y, x))),
        },
    }
}

/// The order of two versions.
pub fn bzlmod_version_cmp(a: &str, b: &str) -> (r: Result<Ordering, InputError>)
    ensures
        match version_order(a@, b@) {
            Ok(order) => r == Ok::<Ordering, InputError>(order),
            Err(message) => r matches Err(e) && e.deep_view() == message,
        },
{
    let a = match parse_bzlmod_version(a) {
        Ok(a) => a,
        Err(e) => {
            return Err(e);
        },
    };
    let b = match parse_bzlmod_version(b) {
        Ok(b) => b,
        Err(e) => {
            return Err(e);
        },
    };
    proof {
        lemma_identifiers_lt_irreflexive(a.release.deep_view());
        lemma_identifiers_lt_irreflexive(a.prerelease.deep_view());
        assert(a.release.deep_view().len() == a.release@.len());
        assert(b.release.deep_view().len() == b.release@.len());
        assert(a.prerelease.deep_view().len() == a.prerelease@.len());
        assert(b.prerelease.deep_view().len() == b.prerelease@.len());
    }
    if a.release.len() == 0 {
        if b.release.len() == 0 {
            return Ok(Ordering::Equal);
        }
        return Ok(Ordering::Greater);
    }
    if b.release.len() == 0 {
        return Ok(Ordering::Less);
    }
    match bzlmod_identifier_lex_cmp(&a.release, &b.release) {
        Ordering::Equal => {},
        Ordering::Less => {
            return Ok(Ordering::Less);
        },
        Ordering::Greater => {
            return Ok(Ordering::Greater);
        },
    }
    if a.prerelease.len() == 0 {
        if b.prerelease.len() == 0 {
            return Ok(Ordering::Equal);
        }
        return Ok(Ordering::Greater);
    }
    if b.prerelease.len() == 0 {
        return Ok(Ordering::Less);
    }
    Ok(bzlmod_identifier_lex_cmp(&a.prerelease, &b.prerelease))
}

proof fn lemma_next_char_shared(f: Text, g: Text, c: char, n: int, i: int)
    requires
        0 <= i < n <= f.len(),
        n <= g.len(),
        f.take(n) == g.take(n),
        f[n - 1] == c,
    ensures
        next_char(f, c, i) == next_char(g, c, i),
        i <= next_char(f, c, i) < n,
        f.subrange(i, next_char(f, c, i)) == g.subrange(i, next_char(f, c, i)),
    decreases n - i,
{
    assert(f[i] == f.take(n)[i] && g[i] == g.take(n)[i]);
    assert(f[n - 1] == f.take(n)[n - 1] && g[n - 1] == g.take(n)[n - 1]);
    if f[i] != c {
        lemma_next_char_shared(f, g, c, n, i + 1);
    }
    let e = next_char(f, c, i);
    assert(f.subrange(i, e) =~= f.take(n).subrange(i, e));
    assert(g.subrange(i, e) =~= g.take(n).subrange(i, e));
}

proof fn lemma_next_char_is(s: Text, c: char, i: int, e: int)
    requires
        0 <= i <= e <= s.len(),
        forall|j: int| i <= j < e ==> s[j] != c,
        e == s.len() || s[e] == c,
    ensures
        next_char(s, c, i) == e,
    decreases e - i,
{
    if i < e {
        lemma_next_char_is(s, c, i + 1, e);
    }
}

/// The piece at which two texts with the same start part, from piece `i` of that
/// start on.
proof fn lemma_pieces_part(h: Text, x: Text, s: Text, y: Text, t: Text, c: char, i: int) -> (n: int)
    requires
        h.len() == 0 || h.last() == c,
        !x.contains(c),
        !y.contains(c),
        s.len() == 0 || s[0] == c,
        t.len() == 0 || t[0] == c,
        0 <= i <= h.len(),
    ensures
        ({
            let a = split_from(h + x + s, c, i);
            let b = split_from(h + y + t, c, i);
            &&& 0 <= n < a.len()
            &&& n < b.len()
            &&& a.take(n) == b.take(n)
            &&& a[n] == x
            &&& b[n] == y
            &&& s.len() == 0 ==> n == a.len() - 1
            &&& s.len() > 0 ==> n < a.len() - 1
            &&& t.len() == 0 ==> n == b.len() - 1
            &&& t.len() > 0 ==> n < b.len() - 1
        }),
    decreases h.len() - i,
{
    let f = h + x + s;
    let g = h + y + t;
    let a = split_from(f, c, i);
    let b = split_from(g, c, i);
    if i == h.len() {
        let e = i + x.len();
        let d = i + y.len();
        assert forall|j: int| i <= j < e implies f[j] != c by {
            assert(f[j] == x[j - h.len()]);
            assert(x.contains(x[j - h.len()]));
        }
        assert forall|j: int| i <= j < d implies g[j] != c by {
            assert(g[j] == y[j - h.len()]);
            assert(y.contains(y[j - h.len()]));
        }
        if s.len() > 0 {
            assert(f[e] == s[0]);
        }
        if t.len() > 0 {
            assert(g[d] == t[0]);
        }
        lemma_next_char_is(f, c, i, e);
        lemma_next_char_is(g, c, i, d);
        assert(f.subrange(i, e) =~= x);
        assert(g.subrange(i, d) =~= y);
        assert(a.take(0) =~= b.take(0));
        if s.len() > 0 {
            lemma_next_char(f, c, e + 1);
            assert(split_from(f, c, e + 1).len() > 0);
        }
        if t.len() > 0 {
            lemma_next_char(g, c, d + 1);
            assert(split_from(g, c, d + 1).len() > 0);
        }
        0
    } else {
        let n = h.len() as int;
        assert(f.take(n) =~= h);
        assert(g.take(n) =~= h);
        assert(f[n - 1] == h.last());
        lemma_next_char_shared(f, g, c, n, i);
        let e = next_char(f, c, i);
        let m = lemma_pieces_part(h, x, s, y, t, c, e + 1);
        let a1 = split_from(f, c, e + 1);
        let b1 = split_from(g, c, e + 1);
        assert(a =~= seq![f.subrange(i, e)] + a1);
        assert(b =~= seq![g.subrange(i, e)] + b1);
        assert(a.take(m + 1) =~= seq![f.subrange(i, e)] + a1.take(m));
        assert(b.take(m + 1) =~= seq![g.subrange(i, e)] + b1.take(m));
        m + 1
    }
}

/// The identifier that a part is.
spec fn part_identifier(part: Text) -> Identifier {
    if all_digits(part) {
        Identifier::Digits { number: digits_value(part), raw: part }
    } else {
        Identifier::Other { text: part }
    }
}

proof fn lemma_identifiers(value: Text, parts: Seq<Text>, i: int, done: Seq<Identifier>)
    requires
        0 <= i <= parts.len(),
        identifiers(value, parts, i, done) is Ok,
    ensures
        identifiers(value, parts, i, done)->Ok_0 == done + Seq::new(
            (parts.len() - i) as nat,
            |j: int| part_identifier(parts[i + j]),
        ),
    decreases parts.len() - i,
{
    let rest = Seq::new((parts.len() - i) as nat, |j: int| part_identifier(parts[i + j]));
    if i < parts.len() {
        let next = done.push(part_identifier(parts[i]));
        lemma_identifiers(value, parts, i + 1, next);
        let more = Seq::new(
            (parts.len() - (i + 1)) as nat,
            |j: int| part_identifier(parts[i + 1 + j]),
        );
        assert(next + more =~= done + rest);
    } else {
        assert(done + rest =~= done);
    }
}

proof fn lemma_lists_part(a: Seq<Identifier>, b: Seq<Identifier>, n: int)
    requires
        0 <= n <= a.len(),
        n < b.len(),
        a.take(n) == b.take(n),
        n == a.len() || identifier_lt(a[n], b[n]),
    ensures
        identifiers_lt(a, b),
        !identifiers_lt(b, a),
        a != b,
    decreases n,
{
    if n == 0 {
        if a.len() > 0 {
            lemma_identifier_lt_irreflexive(a[0]);
            if identifier_lt(b[0], a[0]) {
                lemma_identifier_lt_transitive(a[0], b[0], a[0]);
            }
        }
    } else {
        assert(a[0] == a.take(n)[0] && b[0] == b.take(n)[0]);
        assert(a.skip(1).take(n - 1) =~= a.take(n).skip(1));
        assert(b.skip(1).take(n - 1) =~= b.take(n).skip(1));
        lemma_lists_part(a.skip(1), b.skip(1), n - 1);
    }
}

proof fn lemma_sides(u: Text, v: Text, c: char)
    requires
        !u.contains(c),
        v.len() == 0 || v[0] == c,
    ensures
        sides(u + v, seq![c]) == (u, v.skip(if v.len() == 0 { 0 } else { 1 })),
{
    let s = u + v;
    let p = seq![c];
    lemma_find_from(s, p, 0);
    assert forall|j: int| 0 <= j < u.len() implies !#[trigger] occurs_at(s, p, j) by {
        if occurs_at(s, p, j) {
            assert(s.subrange(j, j + 1)[0] == s[j]);
            assert(u.contains(u[j]));
        }
    }
    if v.len() == 0 {
        assert(s =~= u);
        assert(forall|j: int| 0 <= j ==> !#[trigger] occurs_at(s, p, j));
        assert(v.skip(0) =~= seq![]);
    } else {
        let n = u.len() as int;
        assert(s[n] == v[0]);
        assert(s.subrange(n, n + 1) =~= p);
        assert(occurs_at(s, p, n));
        assert(s.take(n) =~= u);
        assert(s.skip(n + 1) =~= v.skip(1));
    }
}

/// What the dotted text `l` behind `r` and before `p` is read as.
proof fn lemma_version_lists(r: Text, l: Text, p: Text)
    requires
        version_of(r + l + p) is Ok,
        !(r + l + p).contains('+'),
        l.len() > 0,
        if r.len() == 0 {
            !l.contains('-') && (p.len() == 0 || p[0] == '-')
        } else {
            r.last() == '-' && !r.drop_last().contains('-') && p.len() == 0
        },
    ensures
        ({
            let v = version_of(r + l + p)->Ok_0;
            let parts = split(l, '.');
            let list = Seq::new(parts.len(), |j: int| part_identifier(parts[j]));
            &&& v.release.len() > 0
            &&& r.len() == 0 ==> v.release == list
            &&& r.len() > 0 ==> v.prerelease == list && list.len() > 0 && Ok::<
                Seq<Identifier>,
                Text,
            >(v.release) == identifiers(r.drop_last(), split(r.drop_last(), '.'), 0, seq![])
        }),
{
    reveal_strlit("+");
    reveal_strlit("-");
    assert("+"@ =~= seq!['+']);
    assert("-"@ =~= seq!['-']);
    let e: Text = seq![];
    let a = r + l + p;
    assert(a + e =~= a);
    lemma_sides(a, e, '+');
    let parts = split(l, '.');
    lemma_next_char(l, '.', 0);
    let v = version_of(a)->Ok_0;
    let list = Seq::new(parts.len(), |j: int| part_identifier(parts[j]));
    if r.len() == 0 {
        assert(a =~= l + p);
        lemma_sides(l, p, '-');
        lemma_identifiers(l, parts, 0, seq![]);
        assert(v.release =~= list);
    } else {
        let u = r.drop_last();
        let w = seq!['-'];
        assert(a =~= u + (w + l));
        lemma_sides(u, w + l, '-');
        assert((w + l).skip(1) =~= l);
        lemma_identifiers(l, parts, 0, seq![]);
        assert(v.prerelease =~= list);
        lemma_next_char(u, '.', 0);
        lemma_identifiers(u, split(u, '.'), 0, seq![]);
    }
}

/// The order of two versions whose texts part at an identifier of the release, with
/// `-` or nothing behind what follows it, or at one of the prerelease.
proof fn lemma_versions_part(
    r: Text,
    h: Text,
    x: Text,
    s: Text,
    p: Text,
    y: Text,
    t: Text,
    q: Text,
)
    requires
        version_of(r + (h + x + s) + p) is Ok,
        version_of(r + (h + y + t) + q) is Ok,
        !(r + (h + x + s) + p).contains('+'),
        !(r + (h + y + t) + q).contains('+'),
        h.len() == 0 || h.last() == '.',
        x.len() > 0 && !x.contains('.'),
        y.len() > 0 && !y.contains('.'),
        s.len() == 0 || s[0] == '.',
        t.len() == 0 || t[0] == '.',
        if r.len() == 0 {
            &&& !(h + x + s).contains('-')
            &&& !(h + y + t).contains('-')
            &&& p.len() == 0 || p[0] == '-'
            &&& q.len() == 0 || q[0] == '-'
        } else {
            r.last() == '-' && !r.drop_last().contains('-') && p.len() == 0 && q.len() == 0
        },
        identifier_lt(part_identifier(x), part_identifier(y)),
    ensures
        version_order(r + (h + x + s) + p, r + (h + y + t) + q) == Ok::<Ordering, Text>(
            Ordering::Less,
        ),
        version_order(r + (h + y + t) + q, r + (h + x + s) + p) == Ok::<Ordering, Text>(
            Ordering::Greater,
        ),
{
    let l = h + x + s;
    let m = h + y + t;
    let n = lemma_pieces_part(h, x, s, y, t, '.', 0);
    let ap = split(l, '.');
    let bp = split(m, '.');
    lemma_version_lists(r, l, p);
    lemma_version_lists(r, m, q);
    let al = Seq::new(ap.len(), |j: int| part_identifier(ap[j]));
    let bl = Seq::new(bp.len(), |j: int| part_identifier(bp[j]));
    assert(al.take(n) =~= bl.take(n)) by {
        assert forall|j: int| 0 <= j < n implies ap[j] == bp[j] by {
            assert(ap.take(n)[j] == bp.take(n)[j]);
        }
    }
    lemma_lists_part(al, bl, n);
}

/// The identifier `x` stands in a version's text, behind `r` and `h` and before `s` and
/// `p`: in the release where `r` is empty, with the prerelease `p` behind it, or else in
/// the prerelease behind the release and the hyphen `r`. The text is a version.
pub open spec fn stands_in_version(r: Text, h: Text, x: Text, s: Text, p: Text) -> bool {
    let text = r + (h + x + s) + p;
    &&& version_of(text) is Ok
    &&& !text.contains('+')
    &&& h.len() == 0 || h.last() == '.'
    &&& x.len() > 0 && !x.contains('.')
    &&& s.len() == 0 || s[0] == '.'
    &&& if r.len() == 0 {
        !(h + x + s).contains('-') && (p.len() == 0 || p[0] == '-')
    } else {
        r.last() == '-' && !r.drop_last().contains('-') && p.len() == 0
    }
}

proof fn lemma_first_difference(x: Text, y: Text, k: int)
    requires
        0 <= k <= x.len(),
        k < y.len(),
        x.take(k) == y.take(k),
        k == x.len() || x[k] < y[k],
    ensures
        text_lt(x, y),
    decreases k,
{
    if k > 0 {
        assert(x[0] == x.take(k)[0] && y[0] == y.take(k)[0]);
        assert(x.skip(1).take(k - 1) =~= x.take(k).skip(1));
        assert(y.skip(1).take(k - 1) =~= y.take(k).skip(1));
        lemma_first_difference(x.skip(1), y.skip(1), k - 1);
    }
}

/// Two versions that part at identifiers that are no numbers stand as these do in a
/// dictionary: the one with the smaller character at the first place where they differ
/// is lower, and so is one that the other goes on from.
pub proof fn law_words_in_dictionary_order(
    r: Text,
    h: Text,
    x: Text,
    s: Text,
    p: Text,
    y: Text,
    t: Text,
    q: Text,
    k: int,
)
    requires
        stands_in_version(r, h, x, s, p),
        stands_in_version(r, h, y, t, q),
        exists|i: int| 0 <= i < x.len() && !('0' <= #[trigger] x[i] && x[i] <= '9'),
        exists|i: int| 0 <= i < y.len() && !('0' <= #[trigger] y[i] && y[i] <= '9'),
        0 <= k <= x.len(),
        k < y.len(),
        x.take(k) == y.take(k),
        k == x.len() || x[k] < y[k],
    ensures
        version_order(r + (h + x + s) + p, r + (h + y + t) + q) == Ok::<Ordering, Text>(
            Ordering::Less,
        ),
        version_order(r + (h + y + t) + q, r + (h + x + s) + p) == Ok::<Ordering, Text>(
            Ordering::Greater,
        ),
{
    lemma_first_difference(x, y, k);
    let i = choose|i: int| 0 <= i < x.len() && !('0' <= #[trigger] x[i] && x[i] <= '9');
    assert(!is_ascii_digit(x[i]));
    let j = choose|i: int| 0 <= i < y.len() && !('0' <= #[trigger] y[i] && y[i] <= '9');
    assert(!is_ascii_digit(y[j]));
    lemma_versions_part(r, h, x, s, p, y, t, q);
}

/// Of two versions that part at a number and at an identifier that is none, the one with
/// the number is lower.
pub proof fn law_numbers_below_words(
    r: Text,
    h: Text,
    x: Text,
    s: Text,
    p: Text,
    y: Text,
    t: Text,
    q: Text,
)
    requires
        stands_in_version(r, h, x, s, p),
        stands_in_version(r, h, y, t, q),
        forall|i: int| 0 <= i < x.len() ==> '0' <= #[trigger] x[i] && x[i] <= '9',
        exists|i: int| 0 <= i < y.len() && !('0' <= #[trigger] y[i] && y[i] <= '9'),
    ensures
        version_order(r + (h + x + s) + p, r + (h + y + t) + q) == Ok::<Ordering, Text>(
            Ordering::Less,
        ),
        version_order(r + (h + y + t) + q, r + (h + x + s) + p) == Ok::<Ordering, Text>(
            Ordering::Greater,
        ),
{
    assert forall|i: int| 0 <= i < x.len() implies is_ascii_digit(#[trigger] x[i]) by {}
    let j = choose|i: int| 0 <= i < y.len() && !('0' <= #[trigger] y[i] && y[i] <= '9');
    assert(!is_ascii_digit(y[j]));
    lemma_versions_part(r, h, x, s, p, y, t, q);
}

spec fn power_of_ten(n: nat) -> int
    decreases n,
{
    if n == 0 {
        1
    } else {
        10 * power_of_ten((n - 1) as nat)
    }
}

proof fn lemma_power_of_ten(m: nat, n: nat)
    requires
        m <= n,
    ensures
        1 <= power_of_ten(m) <= power_of_ten(n),
    decreases n,
{
    if n > 0 {
        if m < n {
            lemma_power_of_ten(m, (n - 1) as nat);
        } else {
            lemma_power_of_ten((m - 1) as nat, (n - 1) as nat);
        }
    }
}

proof fn lemma_digits_bounds(x: Text)
    requires
        forall|i: int| 0 <= i < x.len() ==> '0' <= #[trigger] x[i] && x[i] <= '9',
    ensures
        0 <= digits_value(x) < power_of_ten(x.len()),
        x.len() > 0 && x[0] != '0' ==> digits_value(x) >= power_of_ten((x.len() - 1) as nat),
    decreases x.len(),
{
    if x.len() > 0 {
        let before = x.drop_last();
        assert forall|i: int| 0 <= i < before.len() implies '0' <= #[trigger] before[i] && before[i]
            <= '9' by {
            assert(before[i] == x[i]);
        }
        lemma_digits_bounds(before);
        assert(x.last() == x[x.len() - 1]);
        if x.len() > 1 {
            assert(before[0] == x[0]);
        } else {
            assert(digits_value(before) == 0);
            assert(power_of_ten(0) == 1);
        }
    }
}

proof fn lemma_digits_differ(x: Text, y: Text, k: int)
    requires
        x.len() == y.len(),
        0 <= k < x.len(),
        x.take(k) == y.take(k),
        x[k] < y[k],
        forall|i: int| 0 <= i < x.len() ==> '0' <= #[trigger] x[i] && x[i] <= '9',
        forall|i: int| 0 <= i < y.len() ==> '0' <= #[trigger] y[i] && y[i] <= '9',
    ensures
        digits_value(x) < digits_value(y),
    decreases x.len(),
{
    let a = x.drop_last();
    let b = y.drop_last();
    assert(x.last() == x[x.len() - 1] && y.last() == y[y.len() - 1]);
    if k == x.len() - 1 {
        assert(a =~= x.take(k) && b =~= y.take(k));
    } else {
        assert(a.take(k) =~= x.take(k) && b.take(k) =~= y.take(k));
        assert forall|i: int| 0 <= i < a.len() implies '0' <= #[trigger] a[i] && a[i] <= '9' by {
            assert(a[i] == x[i]);
        }
        assert forall|i: int| 0 <= i < b.len() implies '0' <= #[trigger] b[i] && b[i] <= '9' by {
            assert(b[i] == y[i]);
        }
        lemma_digits_differ(a, b, k);
    }
}

proof fn lemma_fewer_digits(x: Text, y: Text)
    requires
        x.len() < y.len(),
        y[0] != '0',
        forall|i: int| 0 <= i < x.len() ==> '0' <= #[trigger] x[i] && x[i] <= '9',
        forall|i: int| 0 <= i < y.len() ==> '0' <= #[trigger] y[i] && y[i] <= '9',
    ensures
        digits_value(x) < digits_value(y),
{
    lemma_digits_bounds(x);
    lemma_digits_bounds(y);
    lemma_power_of_ten(x.len(), (y.len() - 1) as nat);
}

/// Of two versions that part at numbers, the one with the smaller number is lower: with
/// fewer digits where the longer one does not start with zero, or else with the smaller
/// digit at the first place where they differ.
pub proof fn law_numbers_by_value(
    r: Text,
    h: Text,
    x: Text,
    s: Text,
    p: Text,
    y: Text,
    t: Text,
    q: Text,
    k: int,
)
    requires
        stands_in_version(r, h, x, s, p),
        stands_in_version(r, h, y, t, q),
        forall|i: int| 0 <= i < x.len() ==> '0' <= #[trigger] x[i] && x[i] <= '9',
        forall|i: int| 0 <= i < y.len() ==> '0' <= #[trigger] y[i] && y[i] <= '9',
        ({
            ||| x.len() < y.len() && y[0] != '0'
            ||| x.len() == y.len() && 0 <= k < x.len() && x.take(k) == y.take(k) && x[k] < y[k]
        }),
    ensures
        version_order(r + (h + x + s) + p, r + (h + y + t) + q) == Ok::<Ordering, Text>(
            Ordering::Less,
        ),
        version_order(r + (h + y + t) + q, r + (h + x + s) + p) == Ok::<Ordering, Text>(
            Ordering::Greater,
        ),
{
    assert forall|i: int| 0 <= i < x.len() implies is_ascii_digit(#[trigger] x[i]) by {}
    assert forall|i: int| 0 <= i < y.len() implies is_ascii_digit(#[trigger] y[i]) by {}
    if x.len() < y.len() {
        lemma_fewer_digits(x, y);
    } else {
        lemma_digits_differ(x, y, k);
    }
    lemma_versions_part(r, h, x, s, p, y, t, q);
}

/// A version that goes on with more identifiers, in the release or in the prerelease, is
/// above the one that does not.
pub proof fn law_more_identifiers_are_higher(
    r: Text,
    h: Text,
    x: Text,
    p: Text,
    t: Text,
    q: Text,
)
    requires
        stands_in_version(r, h, x, seq![], p),
        stands_in_version(r, h, x, t, q),
        t.len() > 0,
    ensures
        version_order(r + (h + x + seq![]) + p, r + (h + x + t) + q) == Ok::<Ordering, Text>(
            Ordering::Less,
        ),
        version_order(r + (h + x + t) + q, r + (h + x + seq![]) + p) == Ok::<Ordering, Text>(
            Ordering::Greater,
        ),
{
    let n = lemma_pieces_part(h, x, seq![], x, t, '.', 0);
    let e = seq![];
    let l = h + x + e;
    let m = h + x + t;
    let ap = split(l, '.');
    let bp = split(m, '.');
    lemma_version_lists(r, l, p);
    lemma_version_lists(r, m, q);
    let va = version_of(r + l + p)->Ok_0;
    let vb = version_of(r + m + q)->Ok_0;
    let al = Seq::new(ap.len(), |j: int| part_identifier(ap[j]));
    let bl = Seq::new(bp.len(), |j: int| part_identifier(bp[j]));
    assert(al.take(n + 1) =~= bl.take(n + 1)) by {
        assert forall|j: int| 0 <= j < n implies ap[j] == bp[j] by {
            assert(ap.take(n)[j] == bp.take(n)[j]);
        }
    }
    lemma_lists_part(al, bl, n + 1);
}

/// A prerelease is below the release that it leads to.
pub proof fn law_prerelease_text_is_lower(release: Text, prerelease: Text)
    requires
        version_of(release + "-"@ + prerelease) is Ok,
        version_of(release) is Ok,
        release.len() > 0,
        prerelease.len() > 0,
        !release.contains('-'),
        !release.contains('+'),
        !prerelease.contains('+'),
    ensures
        version_order(release + "-"@ + prerelease, release) == Ok::<Ordering, Text>(Ordering::Less),
        version_order(release, release + "-"@ + prerelease) == Ok::<Ordering, Text>(
            Ordering::Greater,
        ),
{
    reveal_strlit("+");
    reveal_strlit("-");
    assert("+"@ =~= seq!['+']);
    assert("-"@ =~= seq!['-']);
    let e: Text = seq![];
    let w = release + "-"@ + prerelease;
    assert(w + e =~= w && release + e =~= release);
    assert forall|i: int| 0 <= i < w.len() implies w[i] != '+' by {
        if i < release.len() {
            assert(release.contains(release[i]));
        } else if i > release.len() {
            assert(prerelease.contains(prerelease[i - release.len() - 1]));
        }
    }
    lemma_sides(w, e, '+');
    lemma_sides(release, e, '+');
    lemma_sides(release, e, '-');
    assert(w =~= release + ("-"@ + prerelease));
    lemma_sides(release, "-"@ + prerelease, '-');
    assert(("-"@ + prerelease).skip(1) =~= prerelease);
    assert(e.skip(0) =~= e);
    let up = split(release, '.');
    lemma_next_char(release, '.', 0);
    lemma_identifiers(release, up, 0, seq![]);
    let pp = split(prerelease, '.');
    lemma_next_char(prerelease, '.', 0);
    lemma_identifiers(prerelease, pp, 0, seq![]);
}

/// What follows a `+`, made of letters, digits, dots and hyphens, does not count.
pub proof fn law_build_metadata_does_not_count(a: Text, build: Text, b: Text)
    requires
        a.len() > 0,
        !a.contains('+'),
        forall|i: int|
            0 <= i < build.len() ==> ('a' <= #[trigger] build[i] && build[i] <= 'z') || ('A'
                <= build[i] && build[i] <= 'Z') || ('0' <= build[i] && build[i] <= '9') || build[i]
                == '.' || build[i] == '-',
    ensures
        version_order(a + "+"@ + build, b) == version_order(a, b),
        version_order(b, a + "+"@ + build) == version_order(b, a),
{
    reveal_strlit("+");
    assert("+"@ =~= seq!['+']);
    let e: Text = seq![];
    assert(a + e =~= a);
    lemma_sides(a, e, '+');
    assert(a + "+"@ + build =~= a + ("+"@ + build));
    lemma_sides(a, "+"@ + build, '+');
    assert(("+"@ + build).skip(1) =~= build);
    assert(e.skip(0) =~= e);
}

/// The empty version, which an override leaves, is above every other.
pub proof fn law_empty_text_is_highest(b: Text)
    requires
        b.len() > 0,
        version_of(b) is Ok,
    ensures
        version_order(seq![], b) == Ok::<Ordering, Text>(Ordering::Greater),
        version_order(b, seq![]) == Ok::<Ordering, Text>(Ordering::Less),
        version_order(seq![], seq![]) == Ok::<Ordering, Text>(Ordering::Equal),
{
    let (main, build) = sides(b, "+"@);
    let (release, prerelease) = sides(main, "-"@);
    lemma_next_char(release, '.', 0);
    lemma_identifiers(release, split(release, '.'), 0, seq![]);
}

proof fn lemma_pieces_filled(s: Text, i: int, j: int)
    requires
        0 <= i < s.len(),
        s.last() != '.',
        s[i] != '.',
        forall|k: int| 0 <= k < s.len() - 1 ==> !(#[trigger] s[k] == '.' && s[k + 1] == '.'),
        0 <= j < split_from(s, '.', i).len(),
    ensures
        0 < split_from(s, '.', i)[j].len() <= s.len(),
    decreases s.len() - i,
{
    lemma_next_char(s, '.', i);
    let e = next_char(s, '.', i);
    if e < s.len() {
        assert(e != s.len() - 1);
        if j > 0 {
            assert(s[e] == '.');
            lemma_pieces_filled(s, e + 1, j - 1);
        }
    }
}

proof fn lemma_identifiers_read(value: Text, parts: Seq<Text>, i: int, done: Seq<Identifier>)
    requires
        0 <= i <= parts.len(),
        forall|j: int| 0 <= j < parts.len() ==> 0 < (#[trigger] parts[j]).len() <= 19,
    ensures
        identifiers(value, parts, i, done) is Ok,
    decreases parts.len() - i,
{
    if i < parts.len() {
        if all_digits(parts[i]) {
            assert forall|k: int| 0 <= k < parts[i].len() implies '0' <= #[trigger] parts[i][k]
                && parts[i][k] <= '9' by {
                assert(is_ascii_digit(parts[i][k]));
            }
            lemma_digits_bounds(parts[i]);
            lemma_power_of_ten(parts[i].len(), 19);
            reveal_with_fuel(power_of_ten, 20);
        }
        lemma_identifiers_read(value, parts, i + 1, done.push(part_identifier(parts[i])));
    }
}

/// Letters and digits with single dots between them are a version.
pub proof fn law_dotted_text_is_version(s: Text)
    requires
        0 < s.len() <= 19,
        forall|i: int|
            0 <= i < s.len() ==> ('a' <= #[trigger] s[i] && s[i] <= 'z') || ('A' <= s[i] && s[i]
                <= 'Z') || ('0' <= s[i] && s[i] <= '9') || s[i] == '.',
        s[0] != '.',
        s.last() != '.',
        forall|i: int| 0 <= i < s.len() - 1 ==> !(#[trigger] s[i] == '.' && s[i + 1] == '.'),
    ensures
        version_of(s) is Ok,
        version_order(s, s) == Ok::<Ordering, Text>(Ordering::Equal),
{
    reveal_strlit("+");
    reveal_strlit("-");
    assert("+"@ =~= seq!['+']);
    assert("-"@ =~= seq!['-']);
    let e: Text = seq![];
    assert(s + e =~= s);
    assert(e.skip(0) =~= e);
    assert(!s.contains('+') && !s.contains('-'));
    lemma_sides(s, e, '+');
    lemma_sides(s, e, '-');
    let parts = split(s, '.');
    assert forall|j: int| 0 <= j < parts.len() implies 0 < (#[trigger] parts[j]).len() <= 19 by {
        lemma_pieces_filled(s, 0, j);
    }
    lemma_identifiers_read(s, parts, 0, seq![]);
    law_version_order_irreflexive(version_of(s)->Ok_0);
}

} // verus!
