//! Scanning of Starlark source text: strings, comments, brackets, calls.
//!
//! A scan reads text from a start position outside any string. `lex` gives the
//! scanner's state before a position, `nest` the number of brackets open there.

use vstd::prelude::*;
use vstd::string::*;
use crate::text::{
    Text, char_is_ascii_alphabetic, char_is_ascii_alphanumeric, char_is_whitespace, chars_of,
    find_from, is_ascii_alphabetic, is_ascii_alphanumeric, is_whitespace, lemma_split_at_char,
    lemma_trim_end, lemma_trim_start, matches_at, occurs_at, split_once, strip_suffix, text_between,
    text_from, text_up_to, trim, trim_of, trim_start,
};

verus! {

/// Where a scan stands with respect to string literals.
#[derive(Clone, Copy)]
pub enum Lex {
    /// Outside any string.
    Code,
    /// Inside a string opened by the given quote.
    Quoted(char),
    /// Inside a string, right after a backslash.
    Escaped(char),
}

pub open spec fn is_quote(c: char) -> bool {
    c == '"' || c == '\''
}

/// The state after reading `c` in state `l`.
pub open spec fn lex_step(l: Lex, c: char) -> Lex {
    match l {
        Lex::Escaped(q) => Lex::Quoted(q),
        Lex::Quoted(q) => if c == '\\' {
            Lex::Escaped(q)
        } else if c == q {
            Lex::Code
        } else {
            Lex::Quoted(q)
        },
        Lex::Code => if is_quote(c) {
            Lex::Quoted(c)
        } else {
            Lex::Code
        },
    }
}

/// The state before position `i` of a scan of `s` that starts at `a`.
pub open spec fn lex(s: Text, a: int, i: int) -> Lex
    decreases i - a,
{
    if i <= a {
        Lex::Code
    } else {
        lex_step(lex(s, a, i - 1), s[i - 1])
    }
}

/// The character at `i` stands outside strings and opens none.
pub open spec fn code_at(s: Text, a: int, i: int) -> bool {
    a <= i < s.len() && lex(s, a, i) == Lex::Code && !is_quote(s[i])
}

pub open spec fn bracket(c: char) -> int {
    if c == '(' || c == '[' || c == '{' {
        1
    } else if c == ')' || c == ']' || c == '}' {
        -1
    } else {
        0
    }
}

/// The brackets opened less those closed between `a` and `i`, strings apart.
pub open spec fn nest(s: Text, a: int, i: int) -> int
    decreases i - a,
{
    if i <= a {
        0
    } else {
        nest(s, a, i - 1) + (if code_at(s, a, i - 1) {
            bracket(s[i - 1])
        } else {
            0
        })
    }
}

/// The parentheses open at `i`: a `)` that closes none does not count.
pub open spec fn open_parens(s: Text, a: int, i: int) -> int
    decreases i - a,
{
    if i <= a {
        0
    } else {
        let before = open_parens(s, a, i - 1);
        if code_at(s, a, i - 1) && s[i - 1] == '(' {
            before + 1
        } else if code_at(s, a, i - 1) && s[i - 1] == ')' && before > 0 {
            before - 1
        } else {
            before
        }
    }
}

pub open spec fn is_ident(c: char) -> bool {
    c == '_' || is_ascii_alphanumeric(c)
}

pub open spec fn is_identifier(s: Text) -> bool {
    &&& s.len() > 0
    &&& (s[0] == '_' || is_ascii_alphabetic(s[0]))
    &&& forall|i: int| 0 <= i < s.len() ==> is_ident(#[trigger] s[i])
}

/// `p` stands at `i`, outside strings and brackets.
pub open spec fn top_level_at(s: Text, p: Text, i: int) -> bool {
    code_at(s, 0, i) && nest(s, 0, i) == 0 && occurs_at(s, p, i)
}

/// The first position from `i` on at which `p` stands outside strings and
/// brackets.
pub open spec fn find_top_level(s: Text, p: Text, i: int) -> Option<int>
    decreases s.len() - i,
{
    if i < 0 || i >= s.len() {
        None
    } else if top_level_at(s, p, i) {
        Some(i)
    } else {
        find_top_level(s, p, i + 1)
    }
}

/// `word` stands at `i` and is not part of a longer identifier.
pub open spec fn keyword_at(s: Text, i: int, word: Text) -> bool {
    &&& occurs_at(s, word, i)
    &&& i == 0 || !is_ident(s[i - 1])
    &&& i + word.len() == s.len() || !is_ident(s[i + word.len()])
}

/// The first position from `i` on, in a scan that starts at `a`, at which the
/// keyword stands with `depth` brackets open.
pub open spec fn find_keyword(s: Text, a: int, word: Text, depth: int, i: int) -> Option<int>
    decreases s.len() - i,
{
    if i < 0 || i >= s.len() {
        None
    } else if code_at(s, a, i) && nest(s, a, i) == depth && keyword_at(s, i, word) {
        Some(i)
    } else {
        find_keyword(s, a, word, depth, i + 1)
    }
}

/// The end of the iterable of a `for` clause: the next `for`, or the bracket
/// that closes the comprehension.
pub open spec fn clause_end(s: Text, a: int, i: int) -> Option<int>
    decreases s.len() - i,
{
    if i < 0 || i >= s.len() {
        None
    } else if code_at(s, a, i) && nest(s, a, i) == 0 && (keyword_at(s, i, seq!['f', 'o', 'r'])
        || s[i] == ']') {
        Some(i)
    } else {
        clause_end(s, a, i + 1)
    }
}

/// The position after the parenthesis that closes the first one opened from `a`
/// on, looked for from `i` on.
pub open spec fn close_paren(s: Text, a: int, i: int) -> Option<int>
    decreases s.len() - i,
{
    if i < 0 || i >= s.len() {
        None
    } else if code_at(s, a, i) && s[i] == ')' && open_parens(s, a, i) == 1 {
        Some(i + 1)
    } else {
        close_paren(s, a, i + 1)
    }
}

/// The first `#` outside strings from `i` on, or the length of `s`.
pub open spec fn comment_start(s: Text, i: int) -> int
    decreases s.len() - i,
{
    if i < 0 || i >= s.len() {
        s.len() as int
    } else if code_at(s, 0, i) && s[i] == '#' {
        i
    } else {
        comment_start(s, i + 1)
    }
}

/// A line without its comment.
pub open spec fn without_comment(s: Text) -> Text {
    s.take(comment_start(s, 0))
}

/// The first position from `i` on at which the string that opens at 0 closes.
pub open spec fn close_quote(s: Text, i: int) -> Option<int>
    decreases s.len() - i,
{
    if i < 1 || i >= s.len() {
        None
    } else if lex(s, 0, i) == Lex::Quoted(s[0]) && s[i] == s[0] {
        Some(i)
    } else {
        close_quote(s, i + 1)
    }
}

/// The characters of the string that opens at 0, up to position `j`: all but
/// the backslashes that escape.
pub open spec fn literal_chars(s: Text, j: int) -> Text
    decreases j,
{
    if j <= 1 {
        seq![]
    } else if lex(s, 0, j - 1) == Lex::Quoted(s[0]) && s[j - 1] == '\\' {
        literal_chars(s, j - 1)
    } else {
        literal_chars(s, j - 1).push(s[j - 1])
    }
}

/// The string literal that `s` starts with.
pub open spec fn string_value(s: Text) -> Option<Text> {
    if s.len() > 0 && is_quote(s[0]) {
        match close_quote(s, 1) {
            Some(k) => Some(literal_chars(s, k)),
            None => None,
        }
    } else {
        None
    }
}

/// The string literal that `s` consists of, whitespace around it apart.
pub open spec fn string_literal_value(s: Text) -> Option<Text> {
    let t = trim(s);
    match close_quote(t, 1) {
        Some(k) => if is_quote(t[0]) && trim(t.skip(k + 1)).len() == 0 {
            Some(literal_chars(t, k))
        } else {
            None
        },
        None => None,
    }
}

/// The pieces of `s` from `start` on, cut at each `c` from position `i` on that
/// stands outside strings and brackets.
pub open spec fn split_top_level_from(s: Text, c: char, start: int, i: int) -> Seq<Text>
    decreases s.len() - i,
{
    if i < 0 || i >= s.len() {
        seq![s.subrange(start, s.len() as int)]
    } else if top_level_at(s, seq![c], i) && bracket(c) == 0 {
        seq![s.subrange(start, i)] + split_top_level_from(s, c, i + 1, i + 1)
    } else {
        split_top_level_from(s, c, start, i + 1)
    }
}

/// The pieces of `s` between the occurrences of `c` outside strings and
/// brackets.
pub open spec fn split_top_level(s: Text, c: char) -> Seq<Text> {
    split_top_level_from(s, c, 0, 0)
}

/// The two sides of the first `=` outside strings and brackets.
pub open spec fn assignment(s: Text) -> Option<(Text, Text)> {
    match find_top_level(s, seq!['='], 0) {
        Some(i) => Some((s.take(i), s.skip(i + 1))),
        None => None,
    }
}

/// Receiver and arguments of a call of `method` that `s` ends with.
pub open spec fn method_call(s: Text, method: Text) -> Option<(Text, Text)> {
    let t = trim(s);
    let opening = "."@ + method + "("@;
    match find_top_level(t, opening, 0) {
        Some(i) => match strip_suffix(t.skip(i + opening.len()), seq![')']) {
            Some(args) => if nest(args, 0, args.len() as int) == 0 {
                Some((trim(t.take(i)), args))
            } else {
                None
            },
            None => None,
        },
        None => None,
    }
}

/// Receiver and index of the subscript that `s` ends with.
pub open spec fn subscript(s: Text) -> Option<(Text, Text)> {
    let t = trim(s);
    match find_top_level(t, seq!['['], 0) {
        Some(i) => if t.last() == ']' && i + 1 < t.len() && nest(
            t.subrange(i + 1, t.len() - 1),
            0,
            t.len() - i - 2,
        ) == 0 {
            Some((trim(t.take(i)), t.subrange(i + 1, t.len() - 1)))
        } else {
            None
        },
        None => None,
    }
}

/// `s`, trimmed, without the parentheses around the whole of it.
pub open spec fn strip_parens(s: Text) -> Text
    decreases s.len(),
{
    let t = trim(s);
    if t.len() >= 2 && t[0] == '(' && t.last() == ')' && close_paren(t, 0, 0) == Some(
        t.len() as int,
    ) {
        proof {
            lemma_trim_len(s);
        }
        strip_parens(t.subrange(1, t.len() - 1))
    } else {
        t
    }
}

/// The value after `name =` from position `i` on, up to the end of the call.
pub open spec fn arg_value(s: Text, name: Text, i: int) -> Option<Text>
    decreases s.len() + name.len() - i,
{
    match find_from(s, name, i) {
        Some(p) => if !(i <= p < s.len()) || name.len() == 0 {
            None
        } else if keyword_at(s, p, name) && seq!['='].is_prefix_of(
            trim_start(s.skip(p + name.len())),
        ) {
            Some(trim_start(trim_start(s.skip(p + name.len())).skip(1)))
        } else {
            arg_value(s, name, p + name.len())
        },
        None => None,
    }
}

/// The arguments of a call, as written.
pub open spec fn call_args(call: Text) -> Seq<Text> {
    match split_once(call, seq!['(']) {
        Some((_, rest)) => {
            let args = trim(rest);
            split_top_level(
                match strip_suffix(args, seq![')']) {
                    Some(inner) => inner,
                    None => args,
                },
                ',',
            )
        },
        None => seq![],
    }
}

pub proof fn lemma_trim_len(s: Text)
    ensures
        trim(s).len() <= s.len(),
{
    lemma_trim_start(s);
    lemma_trim_end(trim_start(s));
}

pub proof fn lemma_close_paren_bounds(s: Text, a: int, i: int)
    ensures
        close_paren(s, a, i) matches Some(e) ==> i < e <= s.len(),
    decreases s.len() - i,
{
    if 0 <= i < s.len() {
        lemma_close_paren_bounds(s, a, i + 1);
    }
}

pub proof fn lemma_find_top_level_bounds(s: Text, p: Text, i: int)
    ensures
        find_top_level(s, p, i) matches Some(k) ==> i <= k < s.len() && top_level_at(s, p, k),
    decreases s.len() - i,
{
    if 0 <= i < s.len() {
        lemma_find_top_level_bounds(s, p, i + 1);
    }
}

pub proof fn lemma_find_keyword_bounds(s: Text, a: int, word: Text, depth: int, i: int)
    ensures
        find_keyword(s, a, word, depth, i) matches Some(k) ==> i <= k < s.len() && keyword_at(
            s,
            k,
            word,
        ),
    decreases s.len() - i,
{
    if 0 <= i < s.len() {
        lemma_find_keyword_bounds(s, a, word, depth, i + 1);
    }
}

/// The position found is the first at which `p` stands outside strings and
/// brackets.
pub proof fn law_find_top_level_first(s: Text, p: Text, i: int)
    requires
        0 <= i,
    ensures
        match find_top_level(s, p, i) {
            Some(k) => i <= k && top_level_at(s, p, k) && forall|j: int|
                i <= j < k ==> !#[trigger] top_level_at(s, p, j),
            None => forall|j: int| i <= j ==> !#[trigger] top_level_at(s, p, j),
        },
    decreases s.len() - i,
{
    if i < s.len() && !top_level_at(s, p, i) {
        law_find_top_level_first(s, p, i + 1);
    }
}

fn char_is_quote(c: char) -> (r: bool)
    ensures
        r == is_quote(c),
{
    c == '"' || c == '\''
}

fn next_lex(l: Lex, c: char) -> (r: Lex)
    ensures
        r == lex_step(l, c),
{
    match l {
        Lex::Escaped(q) => Lex::Quoted(q),
        Lex::Quoted(q) => if c == '\\' {
            Lex::Escaped(q)
        } else if c == q {
            Lex::Code
        } else {
            Lex::Quoted(q)
        },
        Lex::Code => if char_is_quote(c) {
            Lex::Quoted(c)
        } else {
            Lex::Code
        },
    }
}

/// Whether `c`, read in state `l`, is code.
fn is_code(l: Lex, c: char) -> (r: bool)
    ensures
        r == (l == Lex::Code && !is_quote(c)),
{
    match l {
        Lex::Code => !char_is_quote(c),
        _ => false,
    }
}

fn bracket_of(c: char) -> (r: i128)
    ensures
        r == bracket(c),
        -1 <= r <= 1,
{
    if c == '(' || c == '[' || c == '{' {
        1
    } else if c == ')' || c == ']' || c == '}' {
        -1
    } else {
        0
    }
}

/// A scan of a text: its state and the number of brackets open.
struct Scan {
    lex: Lex,
    nest: i128,
}

impl Scan {
    spec fn stands(&self, s: Text, a: int, i: int) -> bool {
        &&& self.lex == lex(s, a, i)
        &&& self.nest == nest(s, a, i)
        &&& a - i <= self.nest <= i - a
    }

    fn start(Ghost(s): Ghost<Text>, Ghost(a): Ghost<int>) -> (r: Self)
        ensures
            r.stands(s, a, a),
    {
        Scan { lex: Lex::Code, nest: 0 }
    }

    /// Reads the character at `i`.
    fn read(&mut self, v: &Vec<char>, Ghost(a): Ghost<int>, i: usize)
        requires
            0 <= a <= i < v@.len(),
            old(self).stands(v@, a, i as int),
        ensures
            final(self).stands(v@, a, i + 1),
    {
        let c = v[i];
        if is_code(self.lex, c) {
            self.nest = self.nest + bracket_of(c);
        }
        self.lex = next_lex(self.lex, c);
    }
}

/// Whether `ch` can be part of an identifier.
pub fn is_bzl_ident(ch: char) -> (r: bool)
    ensures
        r == is_ident(ch),
{
    ch == '_' || char_is_ascii_alphanumeric(ch)
}

/// Whether `s` is an identifier.
pub fn is_bzl_identifier(s: &str) -> (r: bool)
    ensures
        r == is_identifier(s@),
{
    let v = chars_of(s);
    if v.len() == 0 || !(v[0] == '_' || char_is_ascii_alphabetic(v[0])) {
        return false;
    }
    let mut i: usize = 0;
    while i < v.len()
        invariant
            v@ == s@,
            0 <= i <= v@.len(),
            forall|j: int| 0 <= j < i ==> is_ident(#[trigger] v@[j]),
        decreases v.len() - i,
    {
        if !is_bzl_ident(v[i]) {
            return false;
        }
        i += 1;
    }
    true
}

/// A line without its comment.
pub fn strip_bzl_comment(line: &str) -> (r: String)
    ensures
        r@ == without_comment(line@),
{
    let v = chars_of(line);
    let mut scan = Scan::start(Ghost(v@), Ghost(0int));
    let mut i: usize = 0;
    while i < v.len()
        invariant
            v@ == line@,
            0 <= i <= v@.len(),
            scan.stands(v@, 0, i as int),
            comment_start(v@, 0) == comment_start(v@, i as int),
        decreases v.len() - i,
    {
        if is_code(scan.lex, v[i]) && v[i] == '#' {
            return text_up_to(line, i).to_owned();
        }
        scan.read(&v, Ghost(0int), i);
        i += 1;
    }
    assert(line@.take(line@.len() as int) =~= line@);
    line.to_owned()
}

/// The parentheses opened less those closed in the text, strings included.
pub open spec fn paren_sum(s: Text) -> int
    decreases s.len(),
{
    if s.len() == 0 {
        0
    } else {
        paren_sum(s.drop_last()) + (if s.last() == '(' {
            1int
        } else if s.last() == ')' {
            -1int
        } else {
            0int
        })
    }
}

/// The parentheses opened less those closed in `s`.
pub fn paren_delta(s: &str) -> (r: i128)
    ensures
        r == paren_sum(s@),
        -usize::MAX <= r <= usize::MAX,
{
    let v = chars_of(s);
    let mut i: usize = 0;
    let mut r: i128 = 0;
    while i < v.len()
        invariant
            v@ == s@,
            0 <= i <= v@.len(),
            r == paren_sum(s@.take(i as int)),
            -i <= r <= i,
        decreases v.len() - i,
    {
        proof {
            let t = s@.take(i + 1);
            assert(t.drop_last() =~= s@.take(i as int));
            assert(t.last() == s@[i as int]);
        }
        if v[i] == '(' {
            r += 1;
        } else if v[i] == ')' {
            r -= 1;
        }
        i += 1;
    }
    assert(s@.take(i as int) =~= s@);
    r
}

/// The brackets opened less those closed in `s`, strings apart.
pub fn delimiter_delta(s: &str) -> (r: i128)
    ensures
        r == nest(s@, 0, s@.len() as int),
        -usize::MAX <= r <= usize::MAX,
{
    let v = chars_of(s);
    let mut scan = Scan::start(Ghost(v@), Ghost(0int));
    let mut i: usize = 0;
    while i < v.len()
        invariant
            v@ == s@,
            0 <= i <= v@.len(),
            scan.stands(v@, 0, i as int),
        decreases v.len() - i,
    {
        scan.read(&v, Ghost(0int), i);
        i += 1;
    }
    scan.nest
}

/// The first position at which `operator` stands outside strings and brackets.
pub fn bzl_find_top_level_operator(value: &str, operator: &str) -> (r: Option<usize>)
    ensures
        match find_top_level(value@, operator@, 0) {
            Some(i) => r == Some(i as usize) && 0 <= i && i + operator@.len() <= value@.len()
                <= usize::MAX,
            None => r is None,
        },
{
    let v = chars_of(value);
    let p = chars_of(operator);
    let mut scan = Scan::start(Ghost(v@), Ghost(0int));
    let mut i: usize = 0;
    let n: usize = v.len();
    while i < n
        invariant
            v@ == value@,
            p@ == operator@,
            n == v@.len(),
            0 <= i <= v@.len(),
            scan.stands(v@, 0, i as int),
            find_top_level(v@, p@, 0) == find_top_level(v@, p@, i as int),
        decreases v.len() - i,
    {
        if is_code(scan.lex, v[i]) && scan.nest == 0 && matches_at(&v, &p, i) {
            return Some(i);
        }
        scan.read(&v, Ghost(0int), i);
        i += 1;
    }
    None
}

/// The two sides of the first `=` outside strings and brackets.
pub fn bzl_top_level_assignment<'a>(arg: &'a str) -> (r: Option<(&'a str, &'a str)>)
    ensures
        match assignment(arg@) {
            Some(t) => r matches Some((a, b)) && a@ == t.0 && b@ == t.1,
            None => r is None,
        },
{
    proof {
        reveal_strlit("=");
        assert("="@ =~= seq!['=']);
    }
    match bzl_find_top_level_operator(arg, "=") {
        Some(i) => Some((text_up_to(arg, i), text_from(arg, i + 1))),
        None => None,
    }
}

/// The pieces of `s` between the occurrences of `delimiter` outside strings and
/// brackets.
pub fn bzl_split_top_level(s: &str, delimiter: char) -> (r: Vec<String>)
    ensures
        r.deep_view() == split_top_level(s@, delimiter),
        r@.len() >= 1,
{
    let v = chars_of(s);
    let mut parts: Vec<String> = Vec::new();
    let mut scan = Scan::start(Ghost(v@), Ghost(0int));
    let mut start: usize = 0;
    let mut i: usize = 0;
    assert(parts.deep_view() + split_top_level_from(s@, delimiter, 0, 0) =~= split_top_level(
        s@,
        delimiter,
    ));
    while i < v.len()
        invariant
            v@ == s@,
            0 <= start <= i <= v@.len(),
            scan.stands(v@, 0, i as int),
            parts.deep_view() + split_top_level_from(s@, delimiter, start as int, i as int)
                =~= split_top_level(s@, delimiter),
        decreases v.len() - i,
    {
        let c = v[i];
        assert(occurs_at(s@, seq![delimiter], i as int) <==> c == delimiter) by {
            let w = s@.subrange(i as int, i + 1);
            assert(w.len() == 1 && w[0] == c);
            if c == delimiter {
                assert(w =~= seq![delimiter]);
            } else {
                assert(seq![delimiter][0] == delimiter);
            }
        }
        if is_code(scan.lex, c) && scan.nest == 0 && c == delimiter && bracket_of(c) == 0 {
            let ghost before = parts.deep_view();
            parts.push(text_between(&v, start, i));
            proof {
                let piece = s@.subrange(start as int, i as int);
                assert(parts.deep_view() =~= before.push(piece));
                let rest = split_top_level_from(s@, delimiter, i + 1, i + 1);
                assert(before + (seq![piece] + rest) =~= parts.deep_view() + rest);
            }
            start = i + 1;
        }
        scan.read(&v, Ghost(0int), i);
        i += 1;
    }
    let ghost before = parts.deep_view();
    parts.push(text_between(&v, start, v.len()));
    assert(parts.deep_view() =~= before + seq![s@.subrange(start as int, s@.len() as int)]);
    parts
}

/// Whether `keyword` stands at `index` as a word of its own.
pub fn bzl_keyword_at(v: &Vec<char>, index: usize, keyword: &Vec<char>) -> (r: bool)
    ensures
        r == keyword_at(v@, index as int, keyword@),
{
    if !matches_at(v, keyword, index) {
        return false;
    }
    let n: usize = v.len();
    if index > 0 && is_bzl_ident(v[index - 1]) {
        return false;
    }
    let after: usize = index + keyword.len();
    after == n || !is_bzl_ident(v[after])
}

/// The first position from `index` on that is not whitespace.
pub open spec fn skip_whitespace(s: Text, i: int) -> int
    decreases s.len() - i,
{
    if 0 <= i < s.len() && is_whitespace(s[i]) {
        skip_whitespace(s, i + 1)
    } else {
        i
    }
}

/// The first position from `index` on that is not whitespace.
pub fn bzl_skip_whitespace(v: &Vec<char>, index: usize) -> (r: usize)
    requires
        index <= v@.len(),
    ensures
        r == skip_whitespace(v@, index as int),
        index <= r <= v@.len(),
{
    let mut i: usize = index;
    while i < v.len() && char_is_whitespace(v[i])
        invariant
            index <= i <= v@.len(),
            skip_whitespace(v@, index as int) == skip_whitespace(v@, i as int),
        decreases v.len() - i,
    {
        i += 1;
    }
    i
}

/// The first position from `index` on at which `keyword` stands with `depth`
/// more brackets open than at `index`.
pub fn bzl_find_keyword(v: &Vec<char>, index: usize, keyword: &Vec<char>, depth: i128) -> (r: Option<
    usize,
>)
    requires
        index <= v@.len(),
    ensures
        match find_keyword(v@, index as int, keyword@, depth as int, index as int) {
            Some(i) => r == Some(i as usize) && index <= i && i + keyword@.len() <= v@.len()
                <= usize::MAX,
            None => r is None,
        },
{
    let n: usize = v.len();
    let mut scan = Scan::start(Ghost(v@), Ghost(index as int));
    let mut i: usize = index;
    while i < n
        invariant
            n == v@.len(),
            index <= i <= v@.len(),
            scan.stands(v@, index as int, i as int),
            find_keyword(v@, index as int, keyword@, depth as int, index as int) == find_keyword(
                v@,
                index as int,
                keyword@,
                depth as int,
                i as int,
            ),
        decreases v.len() - i,
    {
        if is_code(scan.lex, v[i]) && scan.nest == depth && bzl_keyword_at(v, i, keyword) {
            return Some(i);
        }
        scan.read(v, Ghost(index as int), i);
        i += 1;
    }
    None
}

/// The first position from `index` on at which `keyword` stands outside strings
/// and the brackets opened there.
pub fn bzl_find_top_level_keyword(v: &Vec<char>, index: usize, keyword: &Vec<char>) -> (r: Option<
    usize,
>)
    requires
        index <= v@.len(),
    ensures
        match find_keyword(v@, index as int, keyword@, 0, index as int) {
            Some(i) => r == Some(i as usize) && index <= i && i + keyword@.len() <= v@.len()
                <= usize::MAX,
            None => r is None,
        },
{
    bzl_find_keyword(v, index, keyword, 0)
}

/// The position of the first `for` of a list comprehension.
pub open spec fn first_for(s: Text) -> Option<int> {
    find_keyword(s, 0, seq!['f', 'o', 'r'], 1, 0)
}

/// The position of the first `for` one bracket deep.
pub fn bzl_list_comprehension_first_for(v: &Vec<char>) -> (r: Option<usize>)
    ensures
        match first_for(v@) {
            Some(i) => r == Some(i as usize) && 0 <= i && i + 3 <= v@.len() <= usize::MAX,
            None => r is None,
        },
{
    let word: Vec<char> = vec!['f', 'o', 'r'];
    assert(word@ =~= seq!['f', 'o', 'r']);
    bzl_find_keyword(v, 0, &word, 1)
}

/// The end of the iterable of a `for` clause that starts at `index`.
pub fn bzl_list_comprehension_clause_expression_end(v: &Vec<char>, index: usize) -> (r: Option<usize>)
    requires
        index <= v@.len(),
    ensures
        match clause_end(v@, index as int, index as int) {
            Some(i) => r == Some(i as usize) && index <= i < v@.len() <= usize::MAX,
            None => r is None,
        },
{
    let n: usize = v.len();
    let word: Vec<char> = vec!['f', 'o', 'r'];
    assert(word@ =~= seq!['f', 'o', 'r']);
    let mut scan = Scan::start(Ghost(v@), Ghost(index as int));
    let mut i: usize = index;
    while i < n
        invariant
            n == v@.len(),
            word@ == seq!['f', 'o', 'r'],
            index <= i <= v@.len(),
            scan.stands(v@, index as int, i as int),
            clause_end(v@, index as int, index as int) == clause_end(v@, index as int, i as int),
        decreases v.len() - i,
    {
        if is_code(scan.lex, v[i]) && scan.nest == 0 && (bzl_keyword_at(v, i, &word) || v[i]
            == ']') {
            return Some(i);
        }
        scan.read(v, Ghost(index as int), i);
        i += 1;
    }
    None
}

/// The position after the parenthesis that closes the first one opened from
/// `offset` on.
fn find_close_paren(v: &Vec<char>, offset: usize) -> (r: Option<usize>)
    requires
        offset <= v@.len(),
    ensures
        match close_paren(v@, offset as int, offset as int) {
            Some(i) => r == Some(i as usize) && offset < i <= v@.len() <= usize::MAX,
            None => r is None,
        },
{
    let n: usize = v.len();
    let mut l = Lex::Code;
    let mut open: usize = 0;
    let mut i: usize = offset;
    while i < n
        invariant
            n == v@.len(),
            offset <= i <= v@.len(),
            l == lex(v@, offset as int, i as int),
            open == open_parens(v@, offset as int, i as int),
            open <= i,
            close_paren(v@, offset as int, offset as int) == close_paren(
                v@,
                offset as int,
                i as int,
            ),
        decreases v.len() - i,
    {
        let c = v[i];
        if is_code(l, c) {
            if c == ')' && open == 1 {
                return Some(i + 1);
            }
            if c == '(' {
                open += 1;
            } else if c == ')' && open > 0 {
                open -= 1;
            }
        }
        l = next_lex(l, c);
        i += 1;
    }
    None
}

/// The call that starts at a position, and where it ends.
pub open spec fn call_from(s: Text, i: int) -> Option<(Text, int)> {
    match close_paren(s, i, i) {
        Some(e) => Some((trim(s.subrange(i, e)), e)),
        None => None,
    }
}

/// The call that starts at `offset`, and the position after it.
pub fn bzl_call_from_offset(v: &Vec<char>, offset: usize) -> (r: Option<(String, usize)>)
    requires
        offset <= v@.len(),
    ensures
        match call_from(v@, offset as int) {
            Some((call, e)) => r matches Some((t, k)) && t@ == call && k == e && offset < e
                <= v@.len(),
            None => r is None,
        },
{
    match find_close_paren(v, offset) {
        Some(e) => {
            let t = text_between(v, offset, e);
            Some((trim_of(t.as_str()).to_owned(), e))
        },
        None => None,
    }
}

/// The calls that start with `function`, from position `i` of a scan that
/// starts at `a`: a call is not looked into.
pub open spec fn calls_anywhere(s: Text, function: Text, a: int, i: int) -> Seq<(int, Text)>
    decreases s.len() - i,
{
    if i < 0 || i >= s.len() {
        seq![]
    } else if code_at(s, a, i) && occurs_at(s, function, i) && (i == 0 || !is_ident(s[i - 1]))
        && call_from(s, i) is Some {
        proof {
            lemma_close_paren_bounds(s, i, i);
        }
        let (call, e) = call_from(s, i)->0;
        seq![(i, call)] + calls_anywhere(s, function, e, e)
    } else {
        calls_anywhere(s, function, a, i + 1)
    }
}

pub open spec fn positions_as_int(calls: Seq<(usize, Text)>) -> Seq<(int, Text)> {
    calls.map_values(|c: (usize, Text)| (c.0 as int, c.1))
}

/// The calls in `value` that start with `function`, each with its position.
pub fn collect_bzl_calls_anywhere_with_order(value: &str, function: &str) -> (r: Vec<(usize, String)>)
    ensures
        positions_as_int(r.deep_view()) == calls_anywhere(value@, function@, 0, 0),
{
    let v = chars_of(value);
    let p = chars_of(function);
    let mut calls: Vec<(usize, String)> = Vec::new();
    let mut l = Lex::Code;
    let mut i: usize = 0;
    let ghost mut a: int = 0;
    assert(positions_as_int(calls.deep_view()) + calls_anywhere(v@, p@, 0, 0) =~= calls_anywhere(
        v@,
        p@,
        0,
        0,
    ));
    while i < v.len()
        invariant
            v@ == value@,
            p@ == function@,
            0 <= a <= i <= v@.len(),
            l == lex(v@, a, i as int),
            positions_as_int(calls.deep_view()) + calls_anywhere(v@, p@, a, i as int)
                =~= calls_anywhere(v@, p@, 0, 0),
        decreases v.len() - i,
    {
        let c = v[i];
        if is_code(l, c) && matches_at(&v, &p, i) && (i == 0 || !is_bzl_ident(v[i - 1])) {
            match bzl_call_from_offset(&v, i) {
                Some((call, e)) => {
                    let ghost before = positions_as_int(calls.deep_view());
                    let ghost item = (i as int, call@);
                    calls.push((i, call));
                    proof {
                        assert(positions_as_int(calls.deep_view()) =~= before.push(item));
                        let rest = calls_anywhere(v@, p@, e as int, e as int);
                        assert(before + (seq![item] + rest) =~= before.push(item) + rest);
                        a = e as int;
                    }
                    l = Lex::Code;
                    i = e;
                    continue ;
                },
                None => {},
            }
        }
        l = next_lex(l, c);
        i += 1;
    }
    calls
}

/// Nothing in a plain text stands in a string or in brackets.
pub proof fn lemma_plain_code(s: Text, n: int, i: int)
    requires
        0 <= i <= n <= s.len(),
        forall|j: int| 0 <= j < n ==> !is_quote(#[trigger] s[j]) && bracket(s[j]) == 0,
    ensures
        lex(s, 0, i) == Lex::Code,
        nest(s, 0, i) == 0,
    decreases i,
{
    if i > 0 {
        lemma_plain_code(s, n, i - 1);
        assert(!is_quote(s[i - 1]));
    }
}

/// An assignment has a name and a value: a plain text before its first `=`, and all that
/// follows that.
pub proof fn law_assignment(name: Text, value: Text)
    requires
        forall|j: int|
            0 <= j < name.len() ==> #[trigger] name[j] != '=' && name[j] != '"' && name[j] != '\''
                && bracket(name[j]) == 0,
    ensures
        assignment(name + "="@ + value) == Some((name, value)),
        assignment(name) is None,
{
    reveal_strlit("=");
    assert("="@ =~= seq!['=']);
    let s = name + "="@ + value;
    let n = name.len() as int;
    let p = seq!['='];
    assert forall|j: int| 0 <= j < n implies !is_quote(#[trigger] s[j]) && bracket(s[j]) == 0 by {
        assert(s[j] == name[j]);
    }
    lemma_plain_code(s, n, n);
    assert(s.subrange(n, n + 1) =~= p);
    assert(top_level_at(s, p, n));
    assert forall|j: int| 0 <= j < n implies !#[trigger] top_level_at(s, p, j) by {
        if occurs_at(s, p, j) {
            assert(s.subrange(j, j + 1)[0] == name[j]);
        }
    }
    assert forall|j: int| 0 <= j implies !#[trigger] top_level_at(name, p, j) by {
        if occurs_at(name, p, j) {
            assert(name.subrange(j, j + 1)[0] == name[j]);
        }
    }
    law_find_top_level_first(s, p, 0);
    law_find_top_level_first(name, p, 0);
    assert(s.take(n) =~= name);
    assert(s.skip(n + 1) =~= value);
}

proof fn lemma_comment_none(s: Text, i: int)
    requires
        0 <= i <= s.len(),
        forall|j: int| 0 <= j < s.len() ==> #[trigger] s[j] != '#',
    ensures
        comment_start(s, i) == s.len(),
    decreases s.len() - i,
{
    if i < s.len() {
        assert(s[i] != '#');
        lemma_comment_none(s, i + 1);
    }
}

proof fn lemma_comment_at(s: Text, n: int, i: int)
    requires
        0 <= i <= n < s.len(),
        s[n] == '#',
        forall|j: int|
            0 <= j < n ==> #[trigger] s[j] != '#' && s[j] != '"' && s[j] != '\'' && bracket(s[j])
                == 0,
    ensures
        comment_start(s, i) == n,
    decreases n - i,
{
    lemma_plain_code(s, n, i);
    if i < n {
        assert(s[i] != '#');
        lemma_comment_at(s, n, i + 1);
    }
}

/// A line without `#` has no comment, and one that starts with plain text ends at its
/// first `#`.
pub proof fn law_comment(line: Text, comment: Text)
    requires
        forall|j: int|
            0 <= j < line.len() ==> #[trigger] line[j] != '#' && line[j] != '"' && line[j] != '\''
                && bracket(line[j]) == 0,
    ensures
        without_comment(line) == line,
        without_comment(line + "#"@ + comment) == line,
{
    reveal_strlit("#");
    let s = line + "#"@ + comment;
    let n = line.len() as int;
    lemma_comment_none(line, 0);
    assert(line.take(n) =~= line);
    assert(s[n] == '#');
    assert forall|j: int| 0 <= j < n implies #[trigger] s[j] != '#' && s[j] != '"' && s[j] != '\''
        && bracket(s[j]) == 0 by {
        assert(s[j] == line[j]);
    }
    lemma_comment_at(s, n, 0);
    assert(s.take(n) =~= line);
}

/// A line without any `#` is all code.
pub proof fn law_no_comment(line: Text)
    requires
        forall|j: int| 0 <= j < line.len() ==> #[trigger] line[j] != '#',
    ensures
        without_comment(line) == line,
{
    lemma_comment_none(line, 0);
    assert(line.take(line.len() as int) =~= line);
}

proof fn lemma_scan_shift(s: Text, rest: Text, k: int, i: int)
    requires
        0 <= k <= s.len(),
        s.skip(k) == rest,
        lex(s, 0, k) == Lex::Code,
        nest(s, 0, k) == 0,
        0 <= i <= rest.len(),
    ensures
        lex(s, 0, k + i) == lex(rest, 0, i),
        nest(s, 0, k + i) == nest(rest, 0, i),
    decreases i,
{
    if i > 0 {
        lemma_scan_shift(s, rest, k, i - 1);
        assert(s[k + i - 1] == s.skip(k)[i - 1]);
    }
}

proof fn lemma_pieces_shift(s: Text, rest: Text, c: char, k: int, start: int, i: int)
    requires
        0 <= k <= s.len(),
        s.skip(k) == rest,
        lex(s, 0, k) == Lex::Code,
        nest(s, 0, k) == 0,
        0 <= start <= i <= rest.len(),
    ensures
        split_top_level_from(s, c, k + start, k + i) == split_top_level_from(rest, c, start, i),
    decreases rest.len() - i,
{
    assert(s.len() == k + rest.len());
    let p = seq![c];
    if i < rest.len() {
        lemma_scan_shift(s, rest, k, i);
        assert(s[k + i] == rest[i]);
        assert(s.subrange(k + i, k + i + 1) =~= rest.subrange(i, i + 1));
        assert(top_level_at(s, p, k + i) == top_level_at(rest, p, i));
        assert(s.subrange(k + start, k + i) =~= rest.subrange(start, i));
        if top_level_at(rest, p, i) && bracket(c) == 0 {
            lemma_pieces_shift(s, rest, c, k, i + 1, i + 1);
        } else {
            lemma_pieces_shift(s, rest, c, k, start, i + 1);
        }
    } else {
        assert(s.subrange(k + start, s.len() as int) =~= rest.subrange(start, rest.len() as int));
    }
}

proof fn lemma_piece_before(s: Text, c: char, n: int, i: int)
    requires
        0 <= i <= n < s.len(),
        bracket(c) == 0,
        !is_quote(c),
        s[n] == c,
        forall|j: int|
            0 <= j < n ==> #[trigger] s[j] != c && !is_quote(s[j]) && bracket(s[j]) == 0,
    ensures
        split_top_level_from(s, c, 0, i) == seq![s.take(n)] + split_top_level_from(
            s,
            c,
            n + 1,
            n + 1,
        ),
    decreases n - i,
{
    let p = seq![c];
    lemma_plain_code(s, n, i);
    assert(s.subrange(i, i + 1)[0] == s[i]);
    if i < n {
        assert(!top_level_at(s, p, i));
        lemma_piece_before(s, c, n, i + 1);
    } else {
        assert(s.subrange(n, n + 1) =~= p);
        assert(top_level_at(s, p, n));
        assert(s.subrange(0, n) =~= s.take(n));
    }
}

/// Pieces are parted at each mark outside strings and brackets: a plain text before one is
/// the first piece, and the pieces of what follows are the others.
pub proof fn law_pieces_in_turn(piece: Text, mark: char, rest: Text)
    requires
        bracket(mark) == 0,
        !is_quote(mark),
        forall|j: int|
            0 <= j < piece.len() ==> #[trigger] piece[j] != mark && !is_quote(piece[j]) && bracket(
                piece[j],
            ) == 0,
    ensures
        split_top_level(piece + seq![mark] + rest, mark) == seq![piece] + split_top_level(
            rest,
            mark,
        ),
{
    let s = piece + seq![mark] + rest;
    let n = piece.len() as int;
    assert forall|j: int|
        0 <= j < n implies #[trigger] s[j] != mark && !is_quote(s[j]) && bracket(s[j]) == 0 by {
        assert(s[j] == piece[j]);
    }
    assert(s[n] == mark);
    lemma_piece_before(s, mark, n, 0);
    assert(s.take(n) =~= piece);
    assert forall|j: int| 0 <= j < n + 1 implies !is_quote(#[trigger] s[j]) && bracket(s[j])
        == 0 by {}
    lemma_plain_code(s, n + 1, n + 1);
    assert(s.skip(n + 1) =~= rest);
    lemma_pieces_shift(s, rest, mark, n + 1, 0, 0);
}

/// The arguments of a call are the pieces between its parentheses.
pub proof fn law_call_arguments(function: Text, args: Text)
    requires
        !function.contains('('),
        args.len() > 0,
        !is_whitespace(args[0]),
    ensures
        call_args(function + "("@ + args + ")"@) == split_top_level(args, ','),
{
    reveal_strlit("(");
    reveal_strlit(")");
    assert("("@ =~= seq!['('] && ")"@ =~= seq![')']);
    let rest = args + ")"@;
    assert(function + "("@ + args + ")"@ =~= function + seq!['('] + rest);
    lemma_split_at_char(function, '(', rest);
    assert(rest[0] == args[0] && rest.last() == ')');
    assert(trim(rest) == rest);
    assert(seq![')'].is_suffix_of(rest)) by {
        assert(rest.subrange(args.len() as int, rest.len() as int) =~= seq![')']);
    }
    assert(rest.take(rest.len() - 1) =~= args);
}

} // verus!
