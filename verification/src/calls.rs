//! Literals, arguments and calls of Starlark source text.

use vstd::prelude::*;
use vstd::string::*;
use crate::scan::{
    Lex, arg_value, assignment, bzl_call_from_offset, bzl_find_top_level_keyword,
    bzl_find_top_level_operator, bzl_keyword_at, bzl_split_top_level, bzl_top_level_assignment,
    call_args, close_quote, delimiter_delta, find_keyword, is_bzl_ident, is_ident, is_quote,
    lemma_find_top_level_bounds, lemma_trim_len, lex, lex_step, literal_chars, method_call,
    string_literal_value, string_value, strip_parens, subscript,
};
use crate::text::{
    Text, char_is_ascii_digit, chars_of, concat3, ends_with, find_from, find_in_from,
    is_ascii_digit, is_whitespace, lemma_find_from, occurs_at, rsplit_once, rsplit_once_of, same,
    split_once, split_once_of, starts_with, strip_prefix_of, strip_suffix_of, text_from, text_up_to,
    trim, trim_of, trim_start, trim_start_of,
};

verus! {

/// The string literal that `value` starts with.
pub fn bzl_string_value(value: &str) -> (r: Option<String>)
    ensures
        match string_value(value@) {
            Some(t) => r matches Some(x) && x@ == t,
            None => r is None,
        },
{
    let v = chars_of(value);
    match quoted_prefix(&v) {
        Some((t, _)) => Some(t),
        None => None,
    }
}

/// The string literal that the characters start with, and where it closes.
fn quoted_prefix(v: &Vec<char>) -> (r: Option<(String, usize)>)
    ensures
        v@.len() == 0 || !is_quote(v@[0]) ==> r is None,
        v@.len() > 0 && is_quote(v@[0]) ==> match close_quote(v@, 1) {
            Some(k) => r matches Some((t, e)) && t@ == literal_chars(v@, k) && e == k && k
                < v@.len(),
            None => r is None,
        },
{
    if v.len() == 0 || !(v[0] == '"' || v[0] == '\'') {
        return None;
    }
    let quote = v[0];
    let mut text = String::new();
    let mut escaped = false;
    let mut i: usize = 1;
    assert(lex(v@, 0, 1) == lex_step(lex(v@, 0, 0), v@[0]));
    while i < v.len()
        invariant
            v@.len() > 0,
            is_quote(v@[0]),
            quote == v@[0],
            1 <= i <= v@.len(),
            lex(v@, 0, i as int) == (if escaped {
                Lex::Escaped(quote)
            } else {
                Lex::Quoted(quote)
            }),
            text@ =~= literal_chars(v@, i as int),
            close_quote(v@, 1) == close_quote(v@, i as int),
        decreases v.len() - i,
    {
        let c = v[i];
        if escaped {
            text.push(c);
            escaped = false;
        } else if c == '\\' {
            escaped = true;
        } else if c == quote {
            return Some((text, i));
        } else {
            text.push(c);
        }
        i += 1;
    }
    None
}

/// The string literal that `value` consists of.
pub fn bzl_string_literal_value(value: &str) -> (r: Option<String>)
    ensures
        match string_literal_value(value@) {
            Some(t) => r matches Some(x) && x@ == t,
            None => r is None,
        },
{
    let trimmed = trim_of(value);
    let v = chars_of(trimmed);
    match quoted_prefix(&v) {
        Some((t, e)) => {
            if trim_of(text_from(trimmed, e + 1)).is_empty() {
                Some(t)
            } else {
                None
            }
        },
        None => None,
    }
}

/// `value`, trimmed, without the parentheses around the whole of it.
pub fn bzl_strip_balanced_outer_parens<'a>(value: &'a str) -> (r: &'a str)
    ensures
        r@ == strip_parens(value@),
{
    let mut current = value;
    let mut length: usize = current.unicode_len();
    loop
        invariant
            strip_parens(value@) == strip_parens(current@),
            length == current@.len(),
        decreases length,
    {
        let t = trim_of(current);
        let v = chars_of(t);
        let n: usize = v.len();
        proof {
            lemma_trim_len(current@);
        }
        if n < 2 || v[0] != '(' || v[n - 1] != ')' {
            return t;
        }
        match bzl_call_from_offset(&v, 0) {
            Some((_, e)) => {
                if e != n {
                    return t;
                }
            },
            None => {
                return t;
            },
        }
        current = t.substring_char(1, n - 1);
        length = n - 2;
    }
}

/// The positions of `if` and `else` of a conditional expression.
pub open spec fn if_else(s: Text) -> Option<(int, int)> {
    match find_keyword(s, 0, seq!['i', 'f'], 0, 0) {
        Some(i) => match find_keyword(s, i + 2, seq!['e', 'l', 's', 'e'], 0, i + 2) {
            Some(e) => Some((i, e)),
            None => None,
        },
        None => None,
    }
}

/// The positions of `if` and `else` of a conditional expression.
pub fn bzl_top_level_if_else(v: &Vec<char>) -> (r: Option<(usize, usize)>)
    ensures
        match if_else(v@) {
            Some((i, e)) => r == Some((i as usize, e as usize)) && 0 <= i && i + 2 <= e && e + 4
                <= v@.len() <= usize::MAX,
            None => r is None,
        },
{
    let if_word: Vec<char> = vec!['i', 'f'];
    let else_word: Vec<char> = vec!['e', 'l', 's', 'e'];
    assert(if_word@ =~= seq!['i', 'f']);
    assert(else_word@ =~= seq!['e', 'l', 's', 'e']);
    match bzl_find_top_level_keyword(v, 0, &if_word) {
        Some(i) => match bzl_find_top_level_keyword(v, i + 2, &else_word) {
            Some(e) => Some((i, e)),
            None => None,
        },
        None => None,
    }
}

/// Receiver and arguments of the call of `method` that `value` ends with.
pub fn bzl_top_level_method_call<'a>(value: &'a str, method: &str) -> (r: Option<
    (&'a str, &'a str),
>)
    ensures
        match method_call(value@, method@) {
            Some(t) => r matches Some((a, b)) && a@ == t.0 && b@ == t.1,
            None => r is None,
        },
{
    let trimmed = trim_of(value);
    let opening = concat3(".", method, "(");
    proof {
        reveal_strlit(")");
        assert(")"@ =~= seq![')']);
    }
    match bzl_find_top_level_operator(trimmed, opening.as_str()) {
        Some(i) => {
            let rest = text_from(trimmed, i + opening.as_str().unicode_len());
            match strip_suffix_of(rest, ")") {
                Some(args) => {
                    if delimiter_delta(args) == 0 {
                        Some((trim_of(text_up_to(trimmed, i)), args))
                    } else {
                        None
                    }
                },
                None => None,
            }
        },
        None => None,
    }
}

/// Receiver and index of the subscript that `value` ends with.
pub fn bzl_top_level_index<'a>(value: &'a str) -> (r: Option<(&'a str, &'a str)>)
    ensures
        match subscript(value@) {
            Some(t) => r matches Some((a, b)) && a@ == t.0 && b@ == t.1,
            None => r is None,
        },
{
    let trimmed = trim_of(value);
    let n: usize = trimmed.unicode_len();
    proof {
        reveal_strlit("]");
        reveal_strlit("[");
        assert("["@ =~= seq!['[']);
        if trimmed@.len() > 0 {
            let w = trimmed@.subrange(trimmed@.len() - 1, trimmed@.len() as int);
            assert(w.len() == 1 && w[0] == trimmed@.last());
            assert("]"@.is_suffix_of(trimmed@) <==> trimmed@.last() == ']') by {
                if trimmed@.last() == ']' {
                    assert(w =~= "]"@);
                } else {
                    assert("]"@[0] == ']');
                }
            }
        }
        lemma_find_top_level_bounds(trimmed@, seq!['['], 0);
    }
    if !ends_with(trimmed, "]") {
        return None;
    }
    match bzl_find_top_level_operator(trimmed, "[") {
        Some(i) => {
            proof {
                let w = trimmed@.subrange(i as int, i + 1);
                assert(w[0] == trimmed@[i as int] && w == seq!['[']);
                assert(trimmed@[i as int] == '[');
            }
            let index = trimmed.substring_char(i + 1, n - 1);
            if delimiter_delta(index) == 0 {
                Some((trim_of(text_up_to(trimmed, i)), index))
            } else {
                None
            }
        },
        None => None,
    }
}

/// The number that the decimal digits stand for.
pub open spec fn digits_value(s: Text) -> int
    decreases s.len(),
{
    if s.len() == 0 {
        0
    } else {
        digits_value(s.drop_last()) * 10 + (s.last() as int - '0' as int)
    }
}

pub open spec fn all_digits(s: Text) -> bool {
    s.len() > 0 && forall|i: int| 0 <= i < s.len() ==> is_ascii_digit(#[trigger] s[i])
}

/// The value of decimal digits where it is at most `limit`.
pub fn bounded_digits(s: &str, limit: u64) -> (r: Option<u64>)
    ensures
        match r {
            Some(n) => all_digits(s@) && n == digits_value(s@) && n <= limit,
            None => !all_digits(s@) || digits_value(s@) > limit,
        },
{
    let v = chars_of(s);
    if v.len() == 0 {
        return None;
    }
    let mut i: usize = 0;
    let mut n: u128 = 0;
    let mut over = false;
    assert(s@.take(0).len() == 0);
    while i < v.len()
        invariant
            v@ == s@,
            v@.len() > 0,
            0 <= i <= v@.len(),
            forall|j: int| 0 <= j < i ==> is_ascii_digit(#[trigger] s@[j]),
            over ==> digits_value(s@.take(i as int)) > limit,
            !over ==> n == digits_value(s@.take(i as int)) && n <= limit,
        decreases v.len() - i,
    {
        if !char_is_ascii_digit(v[i]) {
            assert(!is_ascii_digit(s@[i as int]));
            return None;
        }
        proof {
            let t = s@.take(i + 1);
            assert(t.drop_last() =~= s@.take(i as int));
            assert(t.last() == s@[i as int]);
        }
        if !over {
            let d: u32 = v[i] as u32 - '0' as u32;
            n = n * 10 + d as u128;
            if n > limit as u128 {
                over = true;
            }
        }
        i += 1;
    }
    assert(s@.take(i as int) =~= s@);
    if over {
        None
    } else {
        Some(n as u64)
    }
}

/// The integer that `s` is written as: an optional sign and decimal digits, in
/// the range of 32 bits.
pub open spec fn integer_value(s: Text) -> Option<int> {
    let negative = s.len() > 0 && s[0] == '-';
    let digits = if s.len() > 0 && (s[0] == '-' || s[0] == '+') {
        s.skip(1)
    } else {
        s
    };
    let n = if negative {
        -digits_value(digits)
    } else {
        digits_value(digits)
    };
    if all_digits(digits) && i32::MIN <= n <= i32::MAX {
        Some(n)
    } else {
        None
    }
}

/// The integer that `value` is written as.
pub fn bzl_integer_expression_value(value: &str) -> (r: Option<i32>)
    ensures
        match integer_value(trim(value@)) {
            Some(n) => r == Some(n as i32),
            None => r is None,
        },
{
    let t = trim_of(value);
    proof {
        reveal_strlit("-");
        reveal_strlit("+");
        assert("-"@ =~= seq!['-']);
        assert("+"@ =~= seq!['+']);
        if t@.len() > 0 {
            let w = t@.subrange(0, 1);
            assert(w.len() == 1 && w[0] == t@[0]);
            if t@[0] == '-' {
                assert(w =~= "-"@);
            } else {
                assert("-"@[0] == '-');
            }
            if t@[0] == '+' {
                assert(w =~= "+"@);
            } else {
                assert("+"@[0] == '+');
            }
        }
    }
    if starts_with(t, "-") {
        match bounded_digits(text_from(t, 1), 2147483648) {
            Some(n) => Some((-(n as i64)) as i32),
            None => None,
        }
    } else {
        let digits = if starts_with(t, "+") {
            text_from(t, 1)
        } else {
            t
        };
        match bounded_digits(digits, 2147483647) {
            Some(n) => Some(n as i32),
            None => None,
        }
    }
}

/// The value after `arg =` in a call, up to the call's end.
pub fn bzl_arg_value<'a>(call: &'a str, arg: &str) -> (r: Option<&'a str>)
    ensures
        match arg_value(call@, arg@, 0) {
            Some(t) => r matches Some(x) && x@ == t,
            None => r is None,
        },
{
    let v = chars_of(call);
    let p = chars_of(arg);
    let n: usize = v.len();
    let mut i: usize = 0;
    if p.len() == 0 {
        return None;
    }
    proof {
        reveal_strlit("=");
        assert("="@ =~= seq!['=']);
    }
    loop
        invariant
            arg@.len() > 0,
            v@ == call@,
            p@ == arg@,
            n == v@.len(),
            0 <= i <= n,
            "="@ == seq!['='],
            arg_value(call@, arg@, 0) == arg_value(call@, arg@, i as int),
        decreases n - i,
    {
        proof {
            lemma_find_from(v@, p@, i as int);
        }
        match find_in_from(&v, &p, i) {
            Some(at) => {
                let end: usize = at + p.len();
                if bzl_keyword_at(&v, at, &p) {
                    match strip_prefix_of(trim_start_of(text_from(call, end)), "=") {
                        Some(rest) => {
                            return Some(trim_start_of(rest));
                        },
                        None => {},
                    }
                }
                i = end;
            },
            None => {
                return None;
            },
        }
    }
}

/// The string literal after `arg =` in a call.
pub open spec fn string_arg(call: Text, arg: Text) -> Option<Text> {
    match arg_value(call, arg, 0) {
        Some(value) => string_value(value),
        None => None,
    }
}

/// The string literal after `arg =` in a call.
pub fn bzl_string_arg(call: &str, arg: &str) -> (r: Option<String>)
    ensures
        match string_arg(call@, arg@) {
            Some(t) => r matches Some(x) && x@ == t,
            None => r is None,
        },
{
    match bzl_arg_value(call, arg) {
        Some(value) => bzl_string_value(value),
        None => None,
    }
}

/// `word` stands at the start of `s` and no identifier character follows.
pub open spec fn starts_with_word(s: Text, word: Text) -> bool {
    word.is_prefix_of(s) && (s.len() == word.len() || !is_ident(s[word.len() as int]))
}

/// Whether `arg = True` stands in a call.
pub open spec fn bool_arg(call: Text, arg: Text) -> bool {
    match arg_value(call, arg, 0) {
        Some(value) => starts_with_word(trim_start(value), "True"@),
        None => false,
    }
}

/// Whether `arg = True` stands in the call.
pub fn bzl_bool_arg(call: &str, arg: &str) -> (r: bool)
    ensures
        r == bool_arg(call@, arg@),
{
    match bzl_arg_value(call, arg) {
        Some(value) => {
            let value = trim_start_of(value);
            if !starts_with(value, "True") {
                return false;
            }
            let v = chars_of(value);
            let n: usize = "True".unicode_len();
            v.len() == n || !is_bzl_ident(v[n])
        },
        None => false,
    }
}

/// Whether `arg = None` stands in a call.
pub open spec fn arg_is_none(call: Text, arg: Text) -> bool {
    match arg_value(call, arg, 0) {
        Some(value) => "None"@.is_prefix_of(value),
        None => false,
    }
}

/// Whether `arg = None` stands in the call.
pub fn bzl_arg_is_none(call: &str, arg: &str) -> (r: bool)
    ensures
        r == arg_is_none(call@, arg@),
{
    match bzl_arg_value(call, arg) {
        Some(value) => starts_with(value, "None"),
        None => false,
    }
}

/// The repository name that a `bazel_dep` gives a module: none for `None`, the
/// module's own name where the argument is absent or empty.
pub open spec fn repo_name_arg(call: Text, module_name: Text) -> Option<Text> {
    if arg_is_none(call, "repo_name"@) {
        None
    } else {
        match string_arg(call, "repo_name"@) {
            Some(name) if name.len() > 0 => Some(name),
            _ => Some(module_name),
        }
    }
}

/// The repository name that a call gives the module.
pub fn bzl_repo_name_arg(call: &str, module_name: &str) -> (r: Option<String>)
    ensures
        match repo_name_arg(call@, module_name@) {
            Some(t) => r matches Some(x) && x@ == t,
            None => r is None,
        },
{
    if bzl_arg_is_none(call, "repo_name") {
        None
    } else {
        match bzl_string_arg(call, "repo_name") {
            Some(name) => if name.as_str().is_empty() {
                Some(module_name.to_owned())
            } else {
                Some(name)
            },
            None => Some(module_name.to_owned()),
        }
    }
}

/// The string literal that a call's arguments start with.
pub open spec fn first_string_arg(call: Text) -> Option<Text> {
    match split_once(call, seq!['(']) {
        Some((_, args)) => string_value(trim_start(args)),
        None => None,
    }
}

/// The string literal that the call's arguments start with.
pub fn bzl_first_string_arg(call: &str) -> (r: Option<String>)
    ensures
        match first_string_arg(call@) {
            Some(t) => r matches Some(x) && x@ == t,
            None => r is None,
        },
{
    proof {
        reveal_strlit("(");
        assert("("@ =~= seq!['(']);
    }
    match split_once_of(call, "(") {
        Some((_, args)) => bzl_string_value(trim_start_of(args)),
        None => None,
    }
}

/// The arguments of a call, as written.
pub fn bzl_call_args(call: &str) -> (r: Vec<String>)
    ensures
        r.deep_view() == call_args(call@),
{
    proof {
        reveal_strlit("(");
        reveal_strlit(")");
        assert("("@ =~= seq!['(']);
        assert(")"@ =~= seq![')']);
    }
    match split_once_of(call, "(") {
        Some((_, rest)) => {
            let args = trim_of(rest);
            let inner = match strip_suffix_of(args, ")") {
                Some(inner) => inner,
                None => args,
            };
            bzl_split_top_level(inner, ',')
        },
        None => {
            let r: Vec<String> = Vec::new();
            assert(r.deep_view() =~= seq![]);
            r
        },
    }
}

/// The value of the named argument among arguments as written, from `i` on.
pub open spec fn named_arg(args: Seq<Text>, name: Text, i: int) -> Option<Text>
    decreases args.len() - i,
{
    if i < 0 || i >= args.len() {
        None
    } else {
        match assignment(args[i]) {
            Some((n, value)) if trim(n) == name => Some(trim(value)),
            _ => named_arg(args, name, i + 1),
        }
    }
}

/// The value of the named argument of the call.
pub fn bzl_call_named_arg_value(call: &str, arg: &str) -> (r: Option<String>)
    ensures
        match named_arg(call_args(call@), arg@, 0) {
            Some(t) => r matches Some(x) && x@ == t,
            None => r is None,
        },
{
    let args = bzl_call_args(call);
    let mut i: usize = 0;
    while i < args.len()
        invariant
            args.deep_view() == call_args(call@),
            0 <= i <= args@.len(),
            named_arg(call_args(call@), arg@, 0) == named_arg(call_args(call@), arg@, i as int),
        decreases args.len() - i,
    {
        assert(args.deep_view()[i as int] == args@[i as int]@);
        match bzl_top_level_assignment(args[i].as_str()) {
            Some((name, value)) => {
                if same(trim_of(name), arg) {
                    return Some(trim_of(value).to_owned());
                }
            },
            None => {},
        }
        i += 1;
    }
    None
}

/// The file that an `include` of `label` in a module file names.
pub open spec fn include_path(current: Text, label: Text) -> Option<Text> {
    if seq!['@'].is_prefix_of(label) {
        None
    } else if "//"@.is_prefix_of(label) {
        match split_once(label.skip(2), seq![':']) {
            Some((package, name)) => Some(
                if package.len() == 0 {
                    name
                } else {
                    package + "/"@ + name
                },
            ),
            None => None,
        }
    } else if seq![':'].is_prefix_of(label) {
        Some(
            match rsplit_once(current, "/"@) {
                Some((base, _)) => base + "/"@ + label.skip(1),
                None => label.skip(1),
            },
        )
    } else {
        None
    }
}

/// The file that an `include` of `label` in `current_module_file` names.
pub fn module_include_to_path(current_module_file: &str, label: &str) -> (r: Option<String>)
    ensures
        match include_path(current_module_file@, label@) {
            Some(t) => r matches Some(x) && x@ == t,
            None => r is None,
        },
{
    proof {
        reveal_strlit("@");
        reveal_strlit("//");
        reveal_strlit(":");
        assert("@"@ =~= seq!['@']);
        assert(":"@ =~= seq![':']);
    }
    if starts_with(label, "@") {
        return None;
    }
    match strip_prefix_of(label, "//") {
        Some(rest) => {
            return match split_once_of(rest, ":") {
                Some((package, name)) => Some(
                    if package.is_empty() {
                        name.to_owned()
                    } else {
                        concat3(package, "/", name)
                    },
                ),
                None => None,
            };
        },
        None => {},
    }
    match strip_prefix_of(label, ":") {
        Some(name) => Some(
            match rsplit_once_of(current_module_file, "/") {
                Some((base, _)) => concat3(base, "/", name),
                None => name.to_owned(),
            },
        ),
        None => None,
    }
}

/// What stands behind the first `name =` of a call, spaces apart, is the value of the
/// argument.
pub proof fn law_argument_value(before: Text, name: Text, gap: Text, space: Text, value: Text)
    requires
        name.len() > 0,
        forall|i: int| 0 <= i < gap.len() ==> #[trigger] gap[i] == ' ',
        forall|i: int| 0 <= i < space.len() ==> #[trigger] space[i] == ' ',
        value.len() > 0,
        !is_whitespace(value[0]),
        before.len() == 0 || !is_ident(before.last()),
        forall|i: int|
            0 <= i < before.len() ==> !#[trigger] occurs_at(
                before + name + gap + "="@ + space + value,
                name,
                i,
            ),
    ensures
        arg_value(before + name + gap + "="@ + space + value, name, 0) == Some(value),
{
    reveal_strlit("=");
    assert("="@ =~= seq!['=']);
    let s = before + name + gap + "="@ + space + value;
    let p = before.len() as int;
    let n = name.len() as int;
    assert(s.subrange(p, p + n) =~= name);
    assert(occurs_at(s, name, p));
    lemma_find_from(s, name, 0);
    let found = find_from(s, name, 0)->0;
    assert(found == p);
    let rest = s.skip(p + n);
    assert(rest =~= gap + ("="@ + space + value));
    lemma_skip_spaces(gap, "="@ + space + value);
    let assigned = "="@ + space + value;
    assert(trim_start(rest) == assigned);
    assert(seq!['='].is_prefix_of(assigned)) by {
        assert(assigned.subrange(0, 1) =~= seq!['=']);
    }
    assert(assigned.skip(1) =~= space + value);
    lemma_skip_spaces(space, value);
    if p > 0 {
        assert(s[p - 1] == before.last());
    }
    if gap.len() > 0 {
        assert(s[p + n] == gap[0]);
    } else {
        assert(s[p + n] == '=');
    }
}

proof fn lemma_skip_spaces(spaces: Text, rest: Text)
    requires
        forall|i: int| 0 <= i < spaces.len() ==> #[trigger] spaces[i] == ' ',
        rest.len() > 0,
        !is_whitespace(rest[0]),
    ensures
        trim_start(spaces + rest) == rest,
    decreases spaces.len(),
{
    let s = spaces + rest;
    if spaces.len() == 0 {
        assert(s =~= rest);
    } else {
        assert(s[0] == spaces[0]);
        assert(s.skip(1) =~= spaces.skip(1) + rest);
        lemma_skip_spaces(spaces.skip(1), rest);
    }
}

/// An argument is true exactly where its value is the word `True`.
pub proof fn law_true_argument(call: Text, name: Text, value: Text)
    requires
        arg_value(call, name, 0) == Some(value),
        value.len() > 0,
        !is_whitespace(value[0]),
    ensures
        bool_arg(call, name) <==> value.len() >= 4 && value[0] == 'T' && value[1] == 'r' && value[2]
            == 'u' && value[3] == 'e' && (value.len() == 4 || !('_' == value[4] || ('a' <= value[4]
            && value[4] <= 'z') || ('A' <= value[4] && value[4] <= 'Z') || ('0' <= value[4]
            && value[4] <= '9'))),
{
    reveal_strlit("True");
    let word = "True"@;
    if word.is_prefix_of(value) {
        assert(value.subrange(0, 4) == word);
        assert(value.subrange(0, 4)[0] == value[0] && value.subrange(0, 4)[1] == value[1]
            && value.subrange(0, 4)[2] == value[2] && value.subrange(0, 4)[3] == value[3]);
    } else if value.len() >= 4 && value[0] == 'T' && value[1] == 'r' && value[2] == 'u' && value[3]
        == 'e' {
        assert(value.subrange(0, 4) =~= word);
    }
}

/// A call without an argument of that name has no value for it.
pub proof fn law_absent_argument(call: Text, name: Text)
    requires
        forall|i: int| 0 <= i ==> !#[trigger] occurs_at(call, name, i),
    ensures
        !bool_arg(call, name),
        string_arg(call, name) is None,
        !arg_is_none(call, name),
{
    lemma_find_from(call, name, 0);
}

pub proof fn lemma_inside_string(s: Text, n: int, i: int)
    requires
        1 <= i <= n + 1 <= s.len(),
        is_quote(s[0]),
        forall|j: int| 1 <= j <= n ==> #[trigger] s[j] != s[0] && s[j] != '\\',
    ensures
        lex(s, 0, i) == Lex::Quoted(s[0]),
        literal_chars(s, i) == s.subrange(1, i),
    decreases i,
{
    if i > 1 {
        lemma_inside_string(s, n, i - 1);
        assert(s.subrange(1, i) =~= s.subrange(1, i - 1).push(s[i - 1]));
    } else {
        assert(lex(s, 0, 0) == Lex::Code);
        assert(s.subrange(1, 1) =~= seq![]);
    }
}

pub proof fn lemma_string_closes(s: Text, n: int, i: int)
    requires
        1 <= i <= n + 1 < s.len(),
        is_quote(s[0]),
        forall|j: int| 1 <= j <= n ==> #[trigger] s[j] != s[0] && s[j] != '\\',
        s[n + 1] == s[0],
    ensures
        close_quote(s, i) == Some(n + 1),
    decreases n + 1 - i,
{
    lemma_inside_string(s, n, i);
    if i <= n {
        assert(s[i] != s[0]);
        lemma_string_closes(s, n, i + 1);
    }
}

/// A string argument is what stands between its quotes.
pub proof fn law_string_argument(call: Text, name: Text, quote: char, literal: Text, after: Text)
    requires
        quote == '"' || quote == '\'',
        forall|i: int|
            0 <= i < literal.len() ==> #[trigger] literal[i] != quote && literal[i] != '\\',
        arg_value(call, name, 0) == Some(seq![quote] + literal + seq![quote] + after),
    ensures
        string_arg(call, name) == Some(literal),
        !arg_is_none(call, name),
{
    let s = seq![quote] + literal + seq![quote] + after;
    let n = literal.len() as int;
    assert forall|j: int| 1 <= j <= n implies #[trigger] s[j] != s[0] && s[j] != '\\' by {
        assert(s[j] == literal[j - 1]);
    }
    assert(s[n + 1] == quote);
    lemma_string_closes(s, n, 1);
    lemma_inside_string(s, n, n + 1);
    assert(s.subrange(1, n + 1) =~= literal);
    reveal_strlit("None");
    if "None"@.is_prefix_of(s) {
        assert(s.subrange(0, 4)[0] == s[0]);
    }
}

/// The name that a `bazel_dep` gives a repository: the string of `repo_name` where it
/// holds anything, none for `None`, and else the name of the module.
pub proof fn law_repository_name(call: Text, module_name: Text, literal: Text)
    ensures
        string_arg(call, "repo_name"@) == Some(literal) && literal.len() > 0 && !arg_is_none(
            call,
            "repo_name"@,
        ) ==> repo_name_arg(call, module_name) == Some(literal),
        arg_is_none(call, "repo_name"@) ==> repo_name_arg(call, module_name) is None,
        string_arg(call, "repo_name"@) is None && !arg_is_none(call, "repo_name"@)
            ==> repo_name_arg(call, module_name) == Some(module_name),
{
}

} // verus!
