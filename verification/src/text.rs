//! Text as sequences of characters: the string operations the rest of the
//! library is stated over.
//!
//! Every operation takes `&str` and is specified on its view, a `Seq<char>`.
//! Positions are character positions.

use vstd::prelude::*;
use vstd::string::*;

verus! {

/// `String::push` appends one character at the end.
pub assume_specification[ std::string::String::push ](s: &mut std::string::String, c: char)
    ensures
        final(s)@ == old(s)@.push(c),
;

/// `==` on `str` compares the texts.
pub assume_specification[ <str as PartialEq>::eq ](a: &str, b: &str) -> (r: bool)
    ensures
        r == (a@ == b@),
;

/// A character sequence.
pub type Text = Seq<char>;

/// The characters with Unicode's `White_Space` property.
pub open spec fn is_whitespace(c: char) -> bool {
    ||| '\u{9}' <= c && c <= '\u{d}'
    ||| c == ' '
    ||| c == '\u{85}'
    ||| c == '\u{a0}'
    ||| c == '\u{1680}'
    ||| '\u{2000}' <= c && c <= '\u{200a}'
    ||| c == '\u{2028}'
    ||| c == '\u{2029}'
    ||| c == '\u{202f}'
    ||| c == '\u{205f}'
    ||| c == '\u{3000}'
}

/// `s` without its leading whitespace.
pub open spec fn trim_start(s: Text) -> Text
    decreases s.len(),
{
    if s.len() > 0 && is_whitespace(s[0]) {
        trim_start(s.skip(1))
    } else {
        s
    }
}

/// `s` without its trailing whitespace.
pub open spec fn trim_end(s: Text) -> Text
    decreases s.len(),
{
    if s.len() > 0 && is_whitespace(s.last()) {
        trim_end(s.drop_last())
    } else {
        s
    }
}

/// `s` without the whitespace around it.
pub open spec fn trim(s: Text) -> Text {
    trim_end(trim_start(s))
}

/// `p` stands in `s` at position `i`.
pub open spec fn occurs_at(s: Text, p: Text, i: int) -> bool {
    &&& 0 <= i
    &&& i + p.len() <= s.len()
    &&& s.subrange(i, i + p.len()) == p
}

/// `p` stands somewhere in `s`.
pub open spec fn contains_text(s: Text, p: Text) -> bool {
    exists|i: int| #[trigger] occurs_at(s, p, i)
}

/// The first position at or after `i` at which `p` stands in `s`.
pub open spec fn find_from(s: Text, p: Text, i: int) -> Option<int>
    decreases s.len() + 1 - i,
{
    if i < 0 || i + p.len() > s.len() {
        None
    } else if occurs_at(s, p, i) {
        Some(i)
    } else {
        find_from(s, p, i + 1)
    }
}

/// The first position at which `p` stands in `s`.
pub open spec fn find(s: Text, p: Text) -> Option<int> {
    find_from(s, p, 0)
}

/// The last position at or before `i` at which `p` stands in `s`.
pub open spec fn rfind_from(s: Text, p: Text, i: int) -> Option<int>
    decreases i + 1,
{
    if i < 0 {
        None
    } else if occurs_at(s, p, i) {
        Some(i)
    } else {
        rfind_from(s, p, i - 1)
    }
}

/// The last position at which `p` stands in `s`.
pub open spec fn rfind(s: Text, p: Text) -> Option<int> {
    rfind_from(s, p, s.len() - p.len())
}

/// What stands before and after the first `p` in `s`.
pub open spec fn split_once(s: Text, p: Text) -> Option<(Text, Text)> {
    match find(s, p) {
        Some(i) => Some((s.take(i), s.skip(i + p.len()))),
        None => None,
    }
}

/// What stands before and after the last `p` in `s`.
pub open spec fn rsplit_once(s: Text, p: Text) -> Option<(Text, Text)> {
    match rfind(s, p) {
        Some(i) => Some((s.take(i), s.skip(i + p.len()))),
        None => None,
    }
}

/// `s` without `p` in front, where it starts with `p`.
pub open spec fn strip_prefix(s: Text, p: Text) -> Option<Text> {
    if p.is_prefix_of(s) {
        Some(s.skip(p.len() as int))
    } else {
        None
    }
}

/// `s` without `p` at the end, where it ends with `p`.
pub open spec fn strip_suffix(s: Text, p: Text) -> Option<Text> {
    if p.is_suffix_of(s) {
        Some(s.take(s.len() - p.len()))
    } else {
        None
    }
}

/// The position of the first `c` at or after `i`, or the length of `s`.
pub open spec fn next_char(s: Text, c: char, i: int) -> int
    decreases s.len() - i,
{
    if i < 0 || i >= s.len() {
        s.len() as int
    } else if s[i] == c {
        i
    } else {
        next_char(s, c, i + 1)
    }
}

pub proof fn lemma_next_char(s: Text, c: char, i: int)
    requires
        0 <= i <= s.len(),
    ensures
        i <= next_char(s, c, i) <= s.len(),
        next_char(s, c, i) < s.len() ==> s[next_char(s, c, i)] == c,
        forall|j: int| i <= j < next_char(s, c, i) ==> s[j] != c,
    decreases s.len() - i,
{
    if i < s.len() && s[i] != c {
        lemma_next_char(s, c, i + 1);
    }
}

/// The pieces of `s` from position `i` on, between occurrences of `c`.
pub open spec fn split_from(s: Text, c: char, i: int) -> Seq<Text>
    decreases s.len() - i,
    when 0 <= i <= s.len()
    via split_from_decreases
{
    let e = next_char(s, c, i);
    if e >= s.len() {
        seq![s.subrange(i, s.len() as int)]
    } else {
        seq![s.subrange(i, e)] + split_from(s, c, e + 1)
    }
}

#[via_fn]
proof fn split_from_decreases(s: Text, c: char, i: int) {
    lemma_next_char(s, c, i);
}

/// The pieces of `s` between occurrences of `c`: one more than there are
/// occurrences.
pub open spec fn split(s: Text, c: char) -> Seq<Text> {
    split_from(s, c, 0)
}

/// The lines of `s`: each ends before its `\n` or `\r\n`, and nothing follows
/// the last line ending.
pub open spec fn lines_from(s: Text, i: int) -> Seq<Text>
    decreases s.len() - i,
    when 0 <= i <= s.len()
    via lines_from_decreases
{
    let e = next_char(s, '\n', i);
    if i >= s.len() {
        seq![]
    } else if e >= s.len() {
        seq![s.subrange(i, s.len() as int)]
    } else {
        let end = if i < e && s[e - 1] == '\r' {
            e - 1
        } else {
            e
        };
        seq![s.subrange(i, end)] + lines_from(s, e + 1)
    }
}

#[via_fn]
proof fn lines_from_decreases(s: Text, i: int) {
    lemma_next_char(s, '\n', i);
}

pub open spec fn lines(s: Text) -> Seq<Text> {
    lines_from(s, 0)
}

/// The parts one after another, with `sep` between neighbours.
pub open spec fn join(parts: Seq<Text>, sep: Text) -> Text
    decreases parts.len(),
{
    if parts.len() == 0 {
        seq![]
    } else if parts.len() == 1 {
        parts[0]
    } else {
        join(parts.drop_last(), sep) + sep + parts.last()
    }
}

pub open spec fn is_ascii_digit(c: char) -> bool {
    '0' <= c && c <= '9'
}

pub open spec fn is_ascii_alphabetic(c: char) -> bool {
    ('a' <= c && c <= 'z') || ('A' <= c && c <= 'Z')
}

pub open spec fn is_ascii_alphanumeric(c: char) -> bool {
    is_ascii_alphabetic(c) || is_ascii_digit(c)
}

/// The position found is the first: `p` stands there and at no earlier place.
pub proof fn lemma_find_from(s: Text, p: Text, i: int)
    requires
        0 <= i,
    ensures
        match find_from(s, p, i) {
            Some(k) => i <= k && occurs_at(s, p, k) && forall|j: int|
                i <= j < k ==> !#[trigger] occurs_at(s, p, j),
            None => forall|j: int| i <= j ==> !#[trigger] occurs_at(s, p, j),
        },
    decreases s.len() + 1 - i,
{
    if i + p.len() <= s.len() && !occurs_at(s, p, i) {
        lemma_find_from(s, p, i + 1);
    }
}

/// The position found is the last: `p` stands there and at no later place.
pub proof fn lemma_rfind_from(s: Text, p: Text, i: int)
    ensures
        match rfind_from(s, p, i) {
            Some(k) => k <= i && occurs_at(s, p, k) && forall|j: int|
                k < j <= i ==> !#[trigger] occurs_at(s, p, j),
            None => forall|j: int| j <= i ==> !#[trigger] occurs_at(s, p, j),
        },
    decreases i + 1,
{
    if i >= 0 && !occurs_at(s, p, i) {
        lemma_rfind_from(s, p, i - 1);
    }
}

pub proof fn lemma_trim_start(s: Text)
    ensures
        trim_start(s).len() <= s.len(),
        trim_start(s) == s.skip(s.len() - trim_start(s).len()),
    decreases s.len(),
{
    if s.len() > 0 && is_whitespace(s[0]) {
        lemma_trim_start(s.skip(1));
        assert(trim_start(s) =~= s.skip(s.len() - trim_start(s).len()));
    } else {
        assert(s.skip(0) =~= s);
    }
}

pub proof fn lemma_trim_end(s: Text)
    ensures
        trim_end(s).len() <= s.len(),
        trim_end(s) == s.take(trim_end(s).len() as int),
    decreases s.len(),
{
    if s.len() > 0 && is_whitespace(s.last()) {
        lemma_trim_end(s.drop_last());
        assert(trim_end(s) =~= s.take(trim_end(s).len() as int));
    } else {
        assert(s.take(s.len() as int) =~= s);
    }
}

/// Whether the two texts are the same.
pub fn same(a: &str, b: &str) -> (r: bool)
    ensures
        r == (a@ == b@),
{
    *a == *b
}

/// The characters of `s` in order.
pub fn chars_of(s: &str) -> (r: Vec<char>)
    ensures
        r@ == s@,
{
    let mut r: Vec<char> = Vec::new();
    for c in it: s.chars()
        invariant
            r@ =~= it.seq().take(it.index()),
            it.seq() == s@,
    {
        r.push(c);
    }
    r
}

/// The text of the characters from position `from` to before `to`.
pub fn text_between(v: &Vec<char>, from: usize, to: usize) -> (r: String)
    requires
        from <= to <= v@.len(),
    ensures
        r@ == v@.subrange(from as int, to as int),
{
    let mut r = String::new();
    let mut i: usize = from;
    while i < to
        invariant
            from <= i <= to <= v@.len(),
            r@ =~= v@.subrange(from as int, i as int),
        decreases to - i,
    {
        r.push(v[i]);
        i += 1;
    }
    r
}

/// The text of all the characters.
pub fn text_of(v: &Vec<char>) -> (r: String)
    ensures
        r@ == v@,
{
    let r = text_between(v, 0, v.len());
    assert(v@.subrange(0, v@.len() as int) =~= v@);
    r
}

/// `s` from character position `from` on.
pub fn text_from(s: &str, from: usize) -> (r: &str)
    requires
        from <= s@.len(),
    ensures
        r@ == s@.skip(from as int),
{
    let r = s.substring_char(from, s.unicode_len());
    assert(r@ =~= s@.skip(from as int));
    r
}

/// `s` up to character position `to`.
pub fn text_up_to(s: &str, to: usize) -> (r: &str)
    requires
        to <= s@.len(),
    ensures
        r@ == s@.take(to as int),
{
    let r = s.substring_char(0, to);
    assert(r@ =~= s@.take(to as int));
    r
}

/// The two texts one after the other.
pub fn concat(a: &str, b: &str) -> (r: String)
    ensures
        r@ == a@ + b@,
{
    let mut r = a.to_owned();
    r.append(b);
    r
}

/// The three texts one after the other.
pub fn concat3(a: &str, b: &str, c: &str) -> (r: String)
    ensures
        r@ == a@ + b@ + c@,
{
    let mut r = concat(a, b);
    r.append(c);
    r
}

/// Whether `c` is whitespace.
pub fn char_is_whitespace(c: char) -> (r: bool)
    ensures
        r == is_whitespace(c),
{
    ('\u{9}' <= c && c <= '\u{d}') || c == ' ' || c == '\u{85}' || c == '\u{a0}' || c == '\u{1680}'
        || ('\u{2000}' <= c && c <= '\u{200a}') || c == '\u{2028}' || c == '\u{2029}' || c
        == '\u{202f}' || c == '\u{205f}' || c == '\u{3000}'
}

pub fn char_is_ascii_digit(c: char) -> (r: bool)
    ensures
        r == is_ascii_digit(c),
{
    '0' <= c && c <= '9'
}

pub fn char_is_ascii_alphabetic(c: char) -> (r: bool)
    ensures
        r == is_ascii_alphabetic(c),
{
    ('a' <= c && c <= 'z') || ('A' <= c && c <= 'Z')
}

pub fn char_is_ascii_alphanumeric(c: char) -> (r: bool)
    ensures
        r == is_ascii_alphanumeric(c),
{
    char_is_ascii_alphabetic(c) || char_is_ascii_digit(c)
}

/// `s` without its leading whitespace.
pub fn trim_start_of(s: &str) -> (r: &str)
    ensures
        r@ == trim_start(s@),
{
    let v = chars_of(s);
    let mut i: usize = 0;
    assert(s@.skip(0) =~= s@);
    while i < v.len() && char_is_whitespace(v[i])
        invariant
            v@ == s@,
            0 <= i <= v@.len(),
            trim_start(s@) == trim_start(s@.skip(i as int)),
        decreases v.len() - i,
    {
        assert(s@.skip(i as int).skip(1) =~= s@.skip(i + 1));
        i += 1;
    }
    text_from(s, i)
}

/// `s` without its trailing whitespace.
pub fn trim_end_of(s: &str) -> (r: &str)
    ensures
        r@ == trim_end(s@),
{
    let v = chars_of(s);
    let mut i: usize = v.len();
    assert(s@.take(s@.len() as int) =~= s@);
    while i > 0 && char_is_whitespace(v[i - 1])
        invariant
            v@ == s@,
            0 <= i <= v@.len(),
            trim_end(s@) == trim_end(s@.take(i as int)),
        decreases i,
    {
        assert(s@.take(i as int).drop_last() =~= s@.take(i - 1));
        i -= 1;
    }
    text_up_to(s, i)
}

/// `s` without the whitespace around it.
pub fn trim_of(s: &str) -> (r: &str)
    ensures
        r@ == trim(s@),
{
    trim_end_of(trim_start_of(s))
}

/// Whether `p` stands in `v` at position `i`.
pub fn matches_at(v: &Vec<char>, p: &Vec<char>, i: usize) -> (r: bool)
    ensures
        r == occurs_at(v@, p@, i as int),
{
    let n: usize = v.len();
    if p.len() > n || i > n - p.len() {
        return false;
    }
    let mut j: usize = 0;
    while j < p.len()
        invariant
            n == v@.len(),
            i + p@.len() <= n,
            0 <= j <= p@.len(),
            forall|k: int| 0 <= k < j ==> v@[i + k] == p@[k],
        decreases p.len() - j,
    {
        if v[i + j] != p[j] {
            assert(v@.subrange(i as int, i + p@.len())[j as int] != p@[j as int]);
            return false;
        }
        j += 1;
    }
    assert(v@.subrange(i as int, i + p@.len()) =~= p@);
    true
}

/// Whether `s` starts with `p`.
pub fn starts_with(s: &str, p: &str) -> (r: bool)
    ensures
        r == p@.is_prefix_of(s@),
{
    let r = matches_at(&chars_of(s), &chars_of(p), 0);
    r
}

/// Whether `s` ends with `p`.
pub fn ends_with(s: &str, p: &str) -> (r: bool)
    ensures
        r == p@.is_suffix_of(s@),
{
    let v = chars_of(s);
    let q = chars_of(p);
    if q.len() > v.len() {
        return false;
    }
    matches_at(&v, &q, v.len() - q.len())
}

/// `s` without `p` in front, where it starts with `p`.
pub fn strip_prefix_of<'a>(s: &'a str, p: &str) -> (r: Option<&'a str>)
    ensures
        match strip_prefix(s@, p@) {
            Some(t) => r is Some && r->0@ == t,
            None => r is None,
        },
{
    if starts_with(s, p) {
        Some(text_from(s, p.unicode_len()))
    } else {
        None
    }
}

/// `s` without `p` at the end, where it ends with `p`.
pub fn strip_suffix_of<'a>(s: &'a str, p: &str) -> (r: Option<&'a str>)
    ensures
        match strip_suffix(s@, p@) {
            Some(t) => r is Some && r->0@ == t,
            None => r is None,
        },
{
    if ends_with(s, p) {
        Some(text_up_to(s, s.unicode_len() - p.unicode_len()))
    } else {
        None
    }
}

/// The first position at or after `from` at which `p` stands in `v`.
pub fn find_in_from(v: &Vec<char>, p: &Vec<char>, from: usize) -> (r: Option<usize>)
    ensures
        match find_from(v@, p@, from as int) {
            Some(i) => r == Some(i as usize) && 0 <= i <= usize::MAX,
            None => r is None,
        },
{
    if p.len() > v.len() {
        return None;
    }
    let mut i: usize = from;
    while i <= v.len() - p.len()
        invariant
            p@.len() <= v@.len(),
            find_from(v@, p@, from as int) == find_from(v@, p@, i as int),
        decreases v.len() + 1 - i,
    {
        if matches_at(v, p, i) {
            return Some(i);
        }
        if i == v.len() - p.len() {
            assert(find_from(v@, p@, i + 1) is None);
            return None;
        }
        i += 1;
    }
    None
}

/// The first position at which `p` stands in `s`.
pub fn find_of(s: &str, p: &str) -> (r: Option<usize>)
    ensures
        match find(s@, p@) {
            Some(i) => r == Some(i as usize) && 0 <= i && i + p@.len() <= s@.len() <= usize::MAX,
            None => r is None,
        },
{
    proof {
        lemma_find_from(s@, p@, 0);
    }
    let v = chars_of(s);
    let n: usize = v.len();
    assert(n == s@.len());
    find_in_from(&v, &chars_of(p), 0)
}

/// Whether `p` stands somewhere in `s`.
pub fn contains(s: &str, p: &str) -> (r: bool)
    ensures
        r == contains_text(s@, p@),
{
    proof {
        lemma_find_from(s@, p@, 0);
    }
    match find_of(s, p) {
        Some(_) => true,
        None => false,
    }
}

/// Whether `c` is one of the characters of `s`.
pub fn contains_char(s: &str, c: char) -> (r: bool)
    ensures
        r == s@.contains(c),
{
    let v = chars_of(s);
    let mut i: usize = 0;
    while i < v.len()
        invariant
            v@ == s@,
            0 <= i <= v@.len(),
            forall|j: int| 0 <= j < i ==> v@[j] != c,
        decreases v.len() - i,
    {
        if v[i] == c {
            return true;
        }
        i += 1;
    }
    false
}

/// What stands before and after the first `p` in `s`.
pub fn split_once_of<'a>(s: &'a str, p: &str) -> (r: Option<(&'a str, &'a str)>)
    ensures
        match split_once(s@, p@) {
            Some(t) => r matches Some((a, b)) && a@ == t.0 && b@ == t.1,
            None => r is None,
        },
{
    match find_of(s, p) {
        Some(i) => Some((text_up_to(s, i), text_from(s, i + p.unicode_len()))),
        None => None,
    }
}

/// What stands before and after the last `p` in `s`.
pub fn rsplit_once_of<'a>(s: &'a str, p: &str) -> (r: Option<(&'a str, &'a str)>)
    ensures
        match rsplit_once(s@, p@) {
            Some(t) => r matches Some((a, b)) && a@ == t.0 && b@ == t.1,
            None => r is None,
        },
{
    let v = chars_of(s);
    let q = chars_of(p);
    if q.len() > v.len() {
        return None;
    }
    let n: usize = v.len();
    let mut i: usize = n - q.len();
    loop
        invariant
            v@ == s@,
            q@ == p@,
            n == v@.len(),
            i + q@.len() <= n,
            rfind(s@, p@) == rfind_from(s@, p@, i as int),
        decreases i,
    {
        if matches_at(&v, &q, i) {
            return Some((text_up_to(s, i), text_from(s, i + q.len())));
        }
        if i == 0 {
            assert(rfind_from(s@, p@, -1) is None);
            return None;
        }
        i -= 1;
    }
}

/// The position of the first `c` at or after `i`, or the number of characters.
pub fn next_char_in(v: &Vec<char>, c: char, i: usize) -> (r: usize)
    requires
        i <= v@.len(),
    ensures
        r == next_char(v@, c, i as int),
        i <= r <= v@.len(),
{
    let mut j: usize = i;
    while j < v.len() && v[j] != c
        invariant
            i <= j <= v@.len(),
            next_char(v@, c, i as int) == next_char(v@, c, j as int),
        decreases v.len() - j,
    {
        j += 1;
    }
    j
}

/// The pieces of `s` between occurrences of `c`.
pub fn split_of(s: &str, c: char) -> (r: Vec<String>)
    ensures
        r.deep_view() == split(s@, c),
{
    let v = chars_of(s);
    let mut r: Vec<String> = Vec::new();
    let mut i: usize = 0;
    assert(r.deep_view() + split_from(s@, c, 0) =~= split(s@, c));
    loop
        invariant
            v@ == s@,
            0 <= i <= v@.len(),
            r.deep_view() + split_from(s@, c, i as int) =~= split(s@, c),
        decreases v.len() - i,
    {
        let e: usize = next_char_in(&v, c, i);
        let ghost before = r.deep_view();
        r.push(text_between(&v, i, e));
        proof {
            assert(r.deep_view() =~= before.push(s@.subrange(i as int, e as int)));
        }
        if e >= v.len() {
            assert(r.deep_view() =~= before + split_from(s@, c, i as int));
            return r;
        }
        proof {
            assert(split_from(s@, c, i as int) == seq![s@.subrange(i as int, e as int)]
                + split_from(s@, c, e + 1));
            assert(before + split_from(s@, c, i as int) =~= r.deep_view() + split_from(
                s@,
                c,
                e + 1,
            ));
        }
        i = e + 1;
    }
}

/// The lines of `s`.
pub fn lines_of(s: &str) -> (r: Vec<String>)
    ensures
        r.deep_view() == lines(s@),
{
    let v = chars_of(s);
    let mut r: Vec<String> = Vec::new();
    let mut i: usize = 0;
    assert(r.deep_view() + lines_from(s@, 0) =~= lines(s@));
    while i < v.len()
        invariant
            v@ == s@,
            0 <= i <= v@.len(),
            r.deep_view() + lines_from(s@, i as int) =~= lines(s@),
        decreases v.len() - i,
    {
        let e: usize = next_char_in(&v, '\n', i);
        let ghost before = r.deep_view();
        let end: usize = if e < v.len() && i < e && v[e - 1] == '\r' {
            e - 1
        } else {
            e
        };
        r.push(text_between(&v, i, end));
        proof {
            assert(r.deep_view() =~= before.push(s@.subrange(i as int, end as int)));
        }
        if e >= v.len() {
            assert(r.deep_view() =~= before + lines_from(s@, i as int));
            return r;
        }
        proof {
            assert(lines_from(s@, i as int) == seq![s@.subrange(i as int, end as int)]
                + lines_from(s@, e + 1));
            assert(before + lines_from(s@, i as int) =~= r.deep_view() + lines_from(s@, e + 1));
        }
        i = e + 1;
    }
    assert(lines_from(s@, i as int) =~= seq![]);
    r
}

/// The parts one after another, with `sep` between neighbours.
pub fn join_of(parts: &Vec<String>, sep: &str) -> (r: String)
    ensures
        r@ == join(parts.deep_view(), sep@),
{
    let mut r = String::new();
    let mut i: usize = 0;
    while i < parts.len()
        invariant
            0 <= i <= parts@.len(),
            r@ =~= join(parts.deep_view().take(i as int), sep@),
        decreases parts.len() - i,
    {
        if i > 0 {
            r.append(sep);
        }
        r.append(parts[i].as_str());
        proof {
            let t = parts.deep_view().take(i + 1);
            assert(t.drop_last() =~= parts.deep_view().take(i as int));
            assert(t.last() == parts@[i as int]@);
        }
        i += 1;
    }
    assert(parts.deep_view().take(i as int) =~= parts.deep_view());
    r
}

/// `to` before each character of `s` and at its end.
pub open spec fn interleave(s: Text, to: Text) -> Text
    decreases s.len(),
{
    if s.len() == 0 {
        to
    } else {
        interleave(s.drop_last(), to).push(s.last()) + to
    }
}

/// `s` from `i` on, with each `from` in turn replaced by `to`.
pub open spec fn replace_from(s: Text, from: Text, to: Text, i: int) -> Text
    decreases s.len() + 1 - i,
    when 0 <= i <= s.len() && from.len() > 0
    via replace_from_decreases
{
    match find_from(s, from, i) {
        Some(k) => s.subrange(i, k) + to + replace_from(s, from, to, k + from.len()),
        None => s.subrange(i, s.len() as int),
    }
}

#[via_fn]
proof fn replace_from_decreases(s: Text, from: Text, to: Text, i: int) {
    lemma_find_from(s, from, i);
}

/// `s` with each `from` replaced by `to`; an empty `from` stands before each
/// character and at the end.
pub open spec fn replace(s: Text, from: Text, to: Text) -> Text {
    if from.len() == 0 {
        interleave(s, to)
    } else {
        replace_from(s, from, to, 0)
    }
}

/// `s` with each `from` replaced by `to`.
pub fn replace_of(s: &str, from: &str, to: &str) -> (r: String)
    ensures
        r@ == replace(s@, from@, to@),
{
    let v = chars_of(s);
    let p = chars_of(from);
    let n: usize = v.len();
    let mut r = String::new();
    let mut i: usize = 0;
    if p.len() == 0 {
        r.append(to);
        assert(r@ =~= to@);
        while i < n
            invariant
                v@ == s@,
                n == v@.len(),
                0 <= i <= n,
                r@ == interleave(s@.take(i as int), to@),
            decreases n - i,
        {
            proof {
                let t = s@.take(i + 1);
                assert(t.drop_last() =~= s@.take(i as int));
                assert(t.last() == s@[i as int]);
            }
            r.push(v[i]);
            r.append(to);
            i += 1;
        }
        assert(s@.take(i as int) =~= s@);
        return r;
    }
    assert(r@ + replace_from(s@, from@, to@, 0) =~= replace(s@, from@, to@));
    loop
        invariant
            v@ == s@,
            p@ == from@,
            p@.len() > 0,
            n == v@.len(),
            0 <= i <= n,
            r@ + replace_from(s@, from@, to@, i as int) == replace(s@, from@, to@),
        decreases n - i,
    {
        proof {
            lemma_find_from(s@, from@, i as int);
        }
        let ghost before = r@;
        match find_in_from(&v, &p, i) {
            Some(k) => {
                r.append(text_between(&v, i, k).as_str());
                r.append(to);
                i = k + p.len();
                assert(r@ + replace_from(s@, from@, to@, i as int) =~= replace(s@, from@, to@));
            },
            None => {
                r.append(text_between(&v, i, n).as_str());
                return r;
            },
        }
    }
}

/// The pieces of `s` from `i` on, between occurrences of `sep`.
pub open spec fn split_text_from(s: Text, sep: Text, i: int) -> Seq<Text>
    decreases s.len() + 1 - i,
    when 0 <= i <= s.len() && sep.len() > 0
    via split_text_from_decreases
{
    match find_from(s, sep, i) {
        Some(k) => seq![s.subrange(i, k)] + split_text_from(s, sep, k + sep.len()),
        None => seq![s.subrange(i, s.len() as int)],
    }
}

#[via_fn]
proof fn split_text_from_decreases(s: Text, sep: Text, i: int) {
    lemma_find_from(s, sep, i);
}

/// The pieces of `s` between occurrences of `sep`.
pub open spec fn split_text(s: Text, sep: Text) -> Seq<Text> {
    split_text_from(s, sep, 0)
}

/// The pieces of `s` between occurrences of `sep`.
pub fn split_text_of(s: &str, sep: &str) -> (r: Vec<String>)
    requires
        sep@.len() > 0,
    ensures
        r.deep_view() == split_text(s@, sep@),
{
    let v = chars_of(s);
    let p = chars_of(sep);
    let n: usize = v.len();
    let mut r: Vec<String> = Vec::new();
    let mut i: usize = 0;
    assert(r.deep_view() + split_text_from(s@, sep@, 0) =~= split_text(s@, sep@));
    loop
        invariant
            v@ == s@,
            p@ == sep@,
            p@.len() > 0,
            n == v@.len(),
            0 <= i <= n,
            r.deep_view() + split_text_from(s@, sep@, i as int) =~= split_text(s@, sep@),
        decreases n - i,
    {
        proof {
            lemma_find_from(s@, sep@, i as int);
        }
        let ghost before = r.deep_view();
        match find_in_from(&v, &p, i) {
            Some(k) => {
                r.push(text_between(&v, i, k));
                proof {
                    let piece = s@.subrange(i as int, k as int);
                    let rest = split_text_from(s@, sep@, k + p@.len());
                    assert(r.deep_view() =~= before.push(piece));
                    assert(before + (seq![piece] + rest) =~= r.deep_view() + rest);
                }
                i = k + p.len();
            },
            None => {
                r.push(text_between(&v, i, n));
                assert(r.deep_view() =~= before + split_text_from(s@, sep@, i as int));
                return r;
            },
        }
    }
}

/// `s` without the `c`s it ends with.
pub open spec fn trim_end_char(s: Text, c: char) -> Text
    decreases s.len(),
{
    if s.len() > 0 && s.last() == c {
        trim_end_char(s.drop_last(), c)
    } else {
        s
    }
}

/// `s` without the `c`s it ends with.
pub fn trim_end_char_of(s: &str, c: char) -> (r: &str)
    ensures
        r@ == trim_end_char(s@, c),
{
    let v = chars_of(s);
    let mut i: usize = v.len();
    assert(s@.take(s@.len() as int) =~= s@);
    while i > 0 && v[i - 1] == c
        invariant
            v@ == s@,
            0 <= i <= v@.len(),
            trim_end_char(s@, c) == trim_end_char(s@.take(i as int), c),
        decreases i,
    {
        assert(s@.take(i as int).drop_last() =~= s@.take(i - 1));
        i -= 1;
    }
    text_up_to(s, i)
}

/// `s` without the `c`s it starts with.
pub open spec fn trim_start_char(s: Text, c: char) -> Text
    decreases s.len(),
{
    if s.len() > 0 && s[0] == c {
        trim_start_char(s.skip(1), c)
    } else {
        s
    }
}

/// `s` without the `c`s it starts with.
pub fn trim_start_char_of(s: &str, c: char) -> (r: &str)
    ensures
        r@ == trim_start_char(s@, c),
{
    let v = chars_of(s);
    let mut i: usize = 0;
    assert(s@.skip(0) =~= s@);
    while i < v.len() && v[i] == c
        invariant
            v@ == s@,
            0 <= i <= v@.len(),
            trim_start_char(s@, c) == trim_start_char(s@.skip(i as int), c),
        decreases v.len() - i,
    {
        assert(s@.skip(i as int).skip(1) =~= s@.skip(i + 1));
        i += 1;
    }
    text_from(s, i)
}

/// The decimal digits of a number.
pub open spec fn nat_text(n: nat) -> Text
    decreases n,
{
    if n < 10 {
        seq![('0' as u32 + n) as char]
    } else {
        nat_text(n / 10).push(('0' as u32 + n % 10) as char)
    }
}

/// A number in decimal, with a minus sign where it is negative.
pub open spec fn int_text(n: int) -> Text {
    if n < 0 {
        seq!['-'] + nat_text((-n) as nat)
    } else {
        nat_text(n as nat)
    }
}

/// The decimal digit for a number below ten.
fn digit_char(d: u128) -> (r: char)
    requires
        d < 10,
    ensures
        r == ('0' as u32 + d) as char,
{
    if d == 0 {
        '0'
    } else if d == 1 {
        '1'
    } else if d == 2 {
        '2'
    } else if d == 3 {
        '3'
    } else if d == 4 {
        '4'
    } else if d == 5 {
        '5'
    } else if d == 6 {
        '6'
    } else if d == 7 {
        '7'
    } else if d == 8 {
        '8'
    } else {
        '9'
    }
}

/// The decimal digits of a number.
pub fn decimal(n: u128) -> (r: String)
    ensures
        r@ == nat_text(n as nat),
    decreases n,
{
    if n < 10 {
        let mut r = String::new();
        r.push(digit_char(n));
        assert(r@ =~= nat_text(n as nat));
        r
    } else {
        let mut r = decimal(n / 10);
        r.push(digit_char(n % 10));
        r
    }
}

/// A number in decimal, with a minus sign where it is negative.
pub fn signed_decimal(n: i64) -> (r: String)
    requires
        n > i64::MIN,
    ensures
        r@ == int_text(n as int),
{
    if n < 0 {
        let digits = decimal((-n) as u128);
        proof {
            reveal_strlit("-");
            assert("-"@ =~= seq!['-']);
        }
        concat("-", digits.as_str())
    } else {
        decimal(n as u128)
    }
}

/// A text splits at the first `c`, behind the part that has none, and nowhere where it has
/// none.
pub proof fn lemma_split_at_char(u: Text, c: char, v: Text)
    requires
        !u.contains(c),
    ensures
        split_once(u + seq![c] + v, seq![c]) == Some((u, v)),
        split_once(u, seq![c]) is None,
{
    let s = u + seq![c] + v;
    let p = seq![c];
    let n = u.len() as int;
    lemma_find_from(s, p, 0);
    lemma_find_from(u, p, 0);
    assert forall|j: int| 0 <= j < n implies !#[trigger] occurs_at(s, p, j) by {
        if occurs_at(s, p, j) {
            assert(s.subrange(j, j + 1)[0] == s[j]);
            assert(u.contains(u[j]));
        }
    }
    assert forall|j: int| 0 <= j implies !#[trigger] occurs_at(u, p, j) by {
        if occurs_at(u, p, j) {
            assert(u.subrange(j, j + 1)[0] == u[j]);
            assert(u.contains(u[j]));
        }
    }
    assert(s.subrange(n, n + 1) =~= p);
    assert(occurs_at(s, p, n));
    assert(s.take(n) =~= u);
    assert(s.skip(n + 1) =~= v);
}

/// What is put in front of a text is taken off again.
pub proof fn lemma_strip_put_prefix(p: Text, s: Text)
    ensures
        strip_prefix(p + s, p) == Some(s),
        occurs_at(p + s, p, 0),
{
    assert((p + s).subrange(0, p.len() as int) =~= p);
    assert((p + s).skip(p.len() as int) =~= s);
    assert(p.is_prefix_of(p + s));
}

proof fn lemma_next_char_shift(s: Text, rest: Text, c: char, k: int, i: int)
    requires
        0 <= k <= s.len(),
        s.skip(k) == rest,
        0 <= i <= rest.len(),
    ensures
        next_char(s, c, k + i) == k + next_char(rest, c, i),
    decreases rest.len() - i,
{
    assert(s.len() == k + rest.len());
    if i < rest.len() {
        assert(s[k + i] == s.skip(k)[i]);
        if rest[i] != c {
            lemma_next_char_shift(s, rest, c, k, i + 1);
        }
    }
}

proof fn lemma_split_shift(s: Text, rest: Text, c: char, k: int, i: int)
    requires
        0 <= k <= s.len(),
        s.skip(k) == rest,
        0 <= i <= rest.len(),
    ensures
        split_from(s, c, k + i) == split_from(rest, c, i),
    decreases rest.len() - i,
{
    lemma_next_char_shift(s, rest, c, k, i);
    lemma_next_char(rest, c, i);
    let e = next_char(rest, c, i);
    assert(s.len() == k + rest.len());
    if e < rest.len() {
        lemma_split_shift(s, rest, c, k, e + 1);
        assert(s.subrange(k + i, k + e) =~= rest.subrange(i, e));
    } else {
        assert(s.subrange(k + i, s.len() as int) =~= rest.subrange(i, rest.len() as int));
    }
}

proof fn lemma_next_char_at(s: Text, c: char, i: int, e: int)
    requires
        0 <= i <= e <= s.len(),
        forall|j: int| i <= j < e ==> s[j] != c,
        e == s.len() || s[e] == c,
    ensures
        next_char(s, c, i) == e,
    decreases e - i,
{
    if i < e {
        lemma_next_char_at(s, c, i + 1, e);
    }
}

/// The pieces of a text are those between its marks: a text without the mark is one piece,
/// and one before a mark is the first, before the pieces of what follows.
pub proof fn law_split(a: Text, c: char, b: Text)
    requires
        !a.contains(c),
    ensures
        split(a, c) == seq![a],
        split(a + seq![c] + b, c) == seq![a] + split(b, c),
{
    let s = a + seq![c] + b;
    let n = a.len() as int;
    assert forall|j: int| 0 <= j < n implies a[j] != c by {
        assert(a.contains(a[j]));
    }
    lemma_next_char_at(a, c, 0, n);
    assert(a.subrange(0, n) =~= a);
    lemma_next_char_at(s, c, 0, n);
    assert(s.subrange(0, n) =~= a);
    assert(s.skip(n + 1) =~= b);
    lemma_split_shift(s, b, c, n + 1, 0);
}

proof fn lemma_lines_shift(s: Text, rest: Text, k: int, i: int)
    requires
        0 < k <= s.len(),
        s[k - 1] == '\n',
        s.skip(k) == rest,
        0 <= i <= rest.len(),
    ensures
        lines_from(s, k + i) == lines_from(rest, i),
    decreases rest.len() - i,
{
    lemma_next_char_shift(s, rest, '\n', k, i);
    lemma_next_char(rest, '\n', i);
    let e = next_char(rest, '\n', i);
    assert(s.len() == k + rest.len());
    if i < rest.len() {
        if e < rest.len() {
            lemma_lines_shift(s, rest, k, e + 1);
            if i < e {
                assert(s[k + e - 1] == s.skip(k)[e - 1]);
                assert(s.subrange(k + i, k + e - 1) =~= rest.subrange(i, e - 1));
            }
            assert(s.subrange(k + i, k + e) =~= rest.subrange(i, e));
        } else {
            assert(s.subrange(k + i, s.len() as int) =~= rest.subrange(i, rest.len() as int));
        }
    }
}

/// The lines of a text are those before its line endings, and what follows the last of
/// these where that is anything; a carriage return before a line ending belongs to it.
pub proof fn law_lines(line: Text, rest: Text)
    requires
        !line.contains('\n'),
        line.len() == 0 || line.last() != '\r',
    ensures
        line.len() > 0 ==> lines(line) == seq![line],
        lines(line + seq!['\n'] + rest) == seq![line] + lines(rest),
        lines(line + seq!['\r', '\n'] + rest) == seq![line] + lines(rest),
        lines(seq![]) == Seq::<Text>::empty(),
{
    let n = line.len() as int;
    assert forall|j: int| 0 <= j < n implies line[j] != '\n' by {
        assert(line.contains(line[j]));
    }
    lemma_next_char_at(line, '\n', 0, n);
    assert(line.subrange(0, n) =~= line);
    let s = line + seq!['\n'] + rest;
    lemma_next_char_at(s, '\n', 0, n);
    assert(s[n] == '\n');
    if n > 0 {
        assert(s[n - 1] == line.last());
    }
    assert(s.subrange(0, n) =~= line);
    assert(s.skip(n + 1) =~= rest);
    lemma_lines_shift(s, rest, n + 1, 0);
    let t = line + seq!['\r', '\n'] + rest;
    lemma_next_char_at(t, '\n', 0, n + 1);
    assert(t[n] == '\r' && t[n + 1] == '\n');
    assert(t.subrange(0, n) =~= line);
    assert(t.skip(n + 2) =~= rest);
    lemma_lines_shift(t, rest, n + 2, 0);
}

/// A text without whitespace at its ends stays as it is, and whitespace around it is taken
/// off.
pub proof fn law_trim(x: Text, c: char)
    requires
        x.len() > 0,
        !is_whitespace(x[0]),
        !is_whitespace(x.last()),
        is_whitespace(c),
    ensures
        trim(x) == x,
        trim(seq![c] + x) == x,
        trim(x + seq![c]) == x,
        trim(seq![c] + x + seq![c]) == x,
        trim(seq![c]).len() == 0,
{
    let e = x + seq![c];
    assert(e[0] == x[0] && e.last() == c && e.drop_last() =~= x);
    let b = seq![c] + x;
    assert(b[0] == c && b.skip(1) =~= x);
    let both = seq![c] + x + seq![c];
    assert(both[0] == c && both.skip(1) =~= e);
    let alone = seq![c];
    assert(alone[0] == c && alone.skip(1) =~= seq![]);
    reveal_with_fuel(trim_start, 3);
    reveal_with_fuel(trim_end, 3);
}

/// Joined texts have the separator between neighbours and nowhere else.
pub proof fn law_join(parts: Seq<Text>, last: Text, sep: Text)
    ensures
        join(seq![], sep) == Seq::<char>::empty(),
        join(seq![last], sep) == last,
        parts.len() > 0 ==> join(parts.push(last), sep) == join(parts, sep) + sep + last,
{
    assert(parts.push(last).drop_last() =~= parts);
}

} // verus!
