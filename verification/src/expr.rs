//! Evaluation of string expressions of module files.
//!
//! An expression is a string literal, a conditional, a sum, a call of `format`
//! or `replace`, a subscript of a list, or the name of a constant. Constants
//! stand for expressions; `n` bounds how deep evaluation may go.

use vstd::prelude::*;
use vstd::string::*;
use crate::blocks::{bzl_module_constant_expression_is_supported, constant_supported};
use crate::calls::{
    bzl_call_named_arg_value, bzl_integer_expression_value, bzl_string_literal_value,
    bzl_strip_balanced_outer_parens, bzl_top_level_if_else, bzl_top_level_index,
    bzl_top_level_method_call, if_else, integer_value, lemma_inside_string, lemma_string_closes,
    named_arg,
};
use crate::json::{json_quoted, json_string_from, quote_json};
use crate::ordered::{Duplicate, KeyMap, lookup, put};
use crate::scan::{
    Lex, assignment, bracket, bzl_find_keyword, bzl_find_top_level_keyword,
    bzl_find_top_level_operator, bzl_list_comprehension_clause_expression_end,
    bzl_list_comprehension_first_for, bzl_skip_whitespace, bzl_split_top_level,
    bzl_top_level_assignment, call_args, clause_end, close_quote, code_at, find_keyword,
    find_top_level, first_for, is_bzl_identifier, is_ident, is_identifier, is_quote, keyword_at,
    law_find_top_level_first, lemma_find_keyword_bounds, lex, literal_chars, method_call, nest,
    skip_whitespace, split_top_level, split_top_level_from, string_literal_value, strip_parens,
    subscript, top_level_at,
};
use crate::text::{
    Text, chars_of, is_whitespace, join, join_of, lemma_next_char, lines, lines_of, next_char,
    next_char_in, occurs_at, replace, replace_of, same, split_once, split_once_of, split_text,
    split_text_of, strip_suffix, strip_suffix_of, text_between, text_from, text_up_to, trim,
    trim_end, trim_end_char, trim_end_char_of, trim_of, trim_start,
};

verus! {

/// Names with the expressions they stand for; the first entry of a name counts.
pub type Constants = Seq<(Text, Text)>;

/// The names that a `for` clause binds and the iterable it takes them from.
pub struct ForClause {
    pub names: Vec<String>,
    pub expression: String,
}

/// A `for` clause as names and iterable.
pub struct ForClauseModel {
    pub names: Seq<Text>,
    pub expression: Text,
}

impl DeepView for ForClause {
    type V = ForClauseModel;

    open spec fn deep_view(&self) -> ForClauseModel {
        ForClauseModel { names: self.names.deep_view(), expression: self.expression@ }
    }
}

/// What stands between `open` in front and `close` at the end.
pub open spec fn between(s: Text, open: char, close: char) -> Option<Text> {
    if s.len() >= 2 && s[0] == open && s.last() == close {
        Some(s.subrange(1, s.len() - 1))
    } else {
        None
    }
}

/// What stands between square brackets or parentheses.
pub open spec fn list_body(s: Text) -> Option<Text> {
    match between(s, '[', ']') {
        Some(inner) => Some(inner),
        None => between(s, '(', ')'),
    }
}

/// The parts that are more than whitespace.
pub open spec fn nonblank(parts: Seq<Text>) -> Seq<Text>
    decreases parts.len(),
{
    if parts.len() == 0 {
        seq![]
    } else if trim(parts.last()).len() == 0 {
        nonblank(parts.drop_last())
    } else {
        nonblank(parts.drop_last()).push(parts.last())
    }
}

/// The items of a list: between commas, and more than whitespace.
pub open spec fn list_items(body: Text) -> Seq<Text> {
    nonblank(split_top_level(body, ','))
}

/// The string literals that the items from `i` on are.
pub open spec fn literal_items(items: Seq<Text>, i: int, done: Seq<Text>) -> Option<Seq<Text>>
    decreases items.len() - i,
{
    if i < 0 || i >= items.len() {
        Some(done)
    } else {
        match string_literal_value(trim(items[i])) {
            Some(t) => literal_items(items, i + 1, done.push(t)),
            None => None,
        }
    }
}

/// The strings of a list of string literals.
pub open spec fn sequence_literal(s: Text) -> Option<Seq<Text>> {
    match list_body(trim(s)) {
        Some(body) => literal_items(list_items(body), 0, seq![]),
        None => None,
    }
}

/// Key and value of the entries from `i` on of a dictionary with string keys.
pub open spec fn dict_entries(items: Seq<Text>, i: int, done: Seq<(Text, Text)>) -> Option<
    Seq<(Text, Text)>,
>
    decreases items.len() - i,
{
    if i < 0 || i >= items.len() {
        Some(done)
    } else {
        let parts = split_top_level(items[i], ':');
        if parts.len() != 2 {
            None
        } else {
            match string_literal_value(trim(parts[0])) {
                Some(key) => dict_entries(items, i + 1, done.push((key, trim(parts[1])))),
                None => None,
            }
        }
    }
}

/// The entries of a dictionary literal with string keys, values as written.
pub open spec fn dict_literal(s: Text) -> Option<Seq<(Text, Text)>> {
    match between(trim(s), '{', '}') {
        Some(body) => dict_entries(list_items(body), 0, seq![]),
        None => None,
    }
}

/// The entries of the dictionary that `s` is or names.
pub open spec fn dict_expression(s: Text, cs: Constants) -> Option<Seq<(Text, Text)>> {
    let t = trim(s);
    if is_identifier(t) {
        match lookup(cs, t) {
            Some(value) => dict_literal(value),
            None => None,
        }
    } else {
        dict_literal(t)
    }
}

/// A template with its placeholders filled: `{}` by the values in turn, `{name}`
/// by the named values.
pub open spec fn format_string(template: Text, values: Seq<Text>, named: Seq<(Text, Text)>) -> Option<
    Text,
>
    decreases template.len(),
{
    let open = next_char(template, '{', 0);
    let rest = template.skip(open + 1);
    let close = next_char(rest, '}', 0);
    if open >= template.len() {
        Some(template)
    } else if close >= rest.len() {
        None
    } else {
        proof {
            lemma_next_char(template, '{', 0);
            lemma_next_char(rest, '}', 0);
        }
        let fill = if close == 0 {
            if values.len() > 0 {
                Some(values[0])
            } else {
                None
            }
        } else {
            lookup(named, rest.take(close))
        };
        let after = format_string(
            rest.skip(close + 1),
            if close == 0 {
                values.skip(1)
            } else {
                values
            },
            named,
        );
        match (fill, after) {
            (Some(f), Some(t)) => Some(template.take(open) + f + t),
            _ => None,
        }
    }
}

/// All the texts one after another.
pub open spec fn concat_all(parts: Seq<Text>) -> Text
    decreases parts.len(),
{
    if parts.len() == 0 {
        seq![]
    } else {
        concat_all(parts.drop_last()) + parts.last()
    }
}

/// Each text trimmed.
pub open spec fn trim_all(parts: Seq<Text>) -> Seq<Text> {
    Seq::new(parts.len(), |i: int| trim(parts[i]))
}

pub open spec fn all_identifiers(names: Seq<Text>) -> bool {
    forall|i: int| 0 <= i < names.len() ==> is_identifier(#[trigger] names[i])
}

/// Each text as a string literal.
pub open spec fn quote_all(values: Seq<Text>) -> Seq<Text> {
    Seq::new(values.len(), |i: int| json_quoted(values[i]))
}

/// The keys of the entries.
pub open spec fn keys_of(items: Seq<(Text, Text)>) -> Seq<Text> {
    Seq::new(items.len(), |i: int| items[i].0)
}

/// The pieces of each text between occurrences of `sep`, as string literals.
pub open spec fn split_all(values: Seq<Text>, sep: Text) -> Seq<Seq<Text>> {
    Seq::new(values.len(), |i: int| quote_all(split_text(values[i], sep)))
}

/// One group for each value: the name bound to it.
pub open spec fn bind_each(name: Text, values: Seq<Text>) -> Seq<Constants> {
    Seq::new(values.len(), |i: int| seq![(name, values[i])])
}

/// The group extended by each of the options.
pub open spec fn extend_group(group: Constants, options: Seq<Constants>) -> Seq<Constants> {
    Seq::new(options.len(), |i: int| group + options[i])
}

/// The names that a `for` clause binds.
pub open spec fn binding_names(s: Text) -> Option<Seq<Text>> {
    let t = trim(s);
    let inner = match between(t, '(', ')') {
        Some(inner) => inner,
        None => t,
    };
    let names = trim_all(split_top_level(inner, ','));
    if all_identifiers(names) {
        Some(names)
    } else {
        None
    }
}

pub proof fn lemma_skip_whitespace(s: Text, i: int)
    ensures
        i <= skip_whitespace(s, i),
        0 <= i <= s.len() ==> skip_whitespace(s, i) <= s.len(),
    decreases s.len() - i,
{
    if 0 <= i < s.len() && is_whitespace(s[i]) {
        lemma_skip_whitespace(s, i + 1);
    }
}

pub proof fn lemma_clause_end(s: Text, a: int, i: int)
    ensures
        clause_end(s, a, i) matches Some(e) ==> i <= e < s.len(),
    decreases s.len() - i,
{
    if 0 <= i < s.len() {
        lemma_clause_end(s, a, i + 1);
    }
}

/// The `for` clauses of a comprehension, read from `a` on where `depth` brackets
/// are open there.
pub open spec fn for_clauses(s: Text, a: int, depth: int, done: Seq<ForClauseModel>) -> Option<
    Seq<ForClauseModel>,
>
    decreases s.len() - a,
{
    match find_keyword(s, a, seq!['f', 'o', 'r'], 1 - depth, a) {
        None => Some(done),
        Some(i) => {
            let names_at = skip_whitespace(s, i + 3);
            match find_keyword(s, names_at, seq!['i', 'n'], 0, names_at) {
                None => None,
                Some(k) => match binding_names(s.subrange(names_at, k)) {
                    None => None,
                    Some(names) => {
                        let start = skip_whitespace(s, k + 2);
                        match clause_end(s, start, start) {
                            None => None,
                            Some(e) => {
                                proof {
                                    lemma_find_keyword_bounds(
                                        s,
                                        a,
                                        seq!['f', 'o', 'r'],
                                        1 - depth,
                                        a,
                                    );
                                    lemma_skip_whitespace(s, i + 3);
                                    lemma_find_keyword_bounds(
                                        s,
                                        names_at,
                                        seq!['i', 'n'],
                                        0,
                                        names_at,
                                    );
                                    lemma_skip_whitespace(s, k + 2);
                                    lemma_clause_end(s, start, start);
                                }
                                let expression = trim(
                                    trim_end_char(trim(s.subrange(start, e)), ','),
                                );
                                for_clauses(
                                    s,
                                    e,
                                    1,
                                    done.push(ForClauseModel { names, expression }),
                                )
                            },
                        }
                    },
                },
            }
        },
    }
}

/// The `for` clauses of the comprehension that a block of lines is.
pub open spec fn block_clauses(block: Seq<Text>) -> Option<Seq<ForClauseModel>> {
    match for_clauses(join(block, seq!['\n']), 0, 0, seq![]) {
        Some(clauses) => if clauses.len() > 0 {
            Some(clauses)
        } else {
            None
        },
        None => None,
    }
}

/// A value that may be bound as it is written.
pub open spec fn literal_expression(s: Text) -> Option<Text> {
    let t = trim(s);
    if string_literal_value(t) is Some || sequence_literal(t) is Some || dict_literal(t) is Some
        || constant_supported(t) {
        Some(t)
    } else {
        None
    }
}

/// Key, as a string literal, and value of the entries from `i` on.
pub open spec fn item_pairs(items: Seq<(Text, Text)>, i: int, done: Seq<Seq<Text>>) -> Option<
    Seq<Seq<Text>>,
>
    decreases items.len() - i,
{
    if i < 0 || i >= items.len() {
        Some(done)
    } else {
        match literal_expression(trim(items[i].1)) {
            Some(value) => item_pairs(
                items,
                i + 1,
                done.push(seq![json_quoted(items[i].0), value]),
            ),
            None => None,
        }
    }
}

/// The pairs that `d.items()` gives for a dictionary.
pub open spec fn dict_items_values(s: Text, cs: Constants) -> Option<Seq<Seq<Text>>> {
    match strip_suffix(trim(s), ".items()"@) {
        Some(receiver) => {
            let r = trim(receiver);
            let dict = if is_identifier(r) {
                lookup(cs, r)
            } else {
                Some(r)
            };
            match dict {
                Some(d) => match dict_literal(d) {
                    Some(items) => item_pairs(items, 0, seq![]),
                    None => None,
                },
                None => None,
            }
        },
        None => None,
    }
}

/// The value of a string expression.
pub open spec fn string_expr(s: Text, cs: Constants, n: nat) -> Option<Text>
    decreases n, 0nat,
{
    let v = strip_parens(s);
    if n == 0 {
        None
    } else if string_literal_value(v) is Some {
        string_literal_value(v)
    } else if if_else(v) is Some {
        let (i, e) = if_else(v)->0;
        match bool_expr(trim(v.subrange(i + 2, e)), cs, (n - 1) as nat) {
            Some(true) => string_expr(trim(v.take(i)), cs, (n - 1) as nat),
            Some(false) => string_expr(trim(v.skip(e + 4)), cs, (n - 1) as nat),
            None => None,
        }
    } else if split_top_level(v, '+').len() > 1 {
        match string_exprs(split_top_level(v, '+'), cs, (n - 1) as nat, 0, seq![]) {
            Some(parts) => Some(concat_all(parts)),
            None => None,
        }
    } else if method_call(v, "format"@) is Some {
        let (receiver, args) = method_call(v, "format"@)->0;
        match (
            string_expr(receiver, cs, (n - 1) as nat),
            format_args(split_top_level(args, ','), cs, (n - 1) as nat, 0, seq![], seq![]),
        ) {
            (Some(template), Some((values, named))) => format_string(template, values, named),
            _ => None,
        }
    } else if method_call(v, "replace"@) is Some {
        let (receiver, args) = method_call(v, "replace"@)->0;
        let parts = split_top_level(args, ',');
        if parts.len() != 2 {
            None
        } else {
            match (
                string_expr(receiver, cs, (n - 1) as nat),
                string_expr(trim(parts[0]), cs, (n - 1) as nat),
                string_expr(trim(parts[1]), cs, (n - 1) as nat),
            ) {
                (Some(t), Some(from), Some(to)) => Some(replace(t, from, to)),
                _ => None,
            }
        }
    } else if subscript(v) is Some {
        let (receiver, index) = subscript(v)->0;
        match (
            sequence_expr(receiver, cs, (n - 1) as nat),
            integer_value(trim(trim(index))),
        ) {
            (Some(values), Some(k)) => {
                let at = if k < 0 {
                    values.len() + k
                } else {
                    k
                };
                if 0 <= at < values.len() {
                    Some(values[at])
                } else {
                    None
                }
            },
            _ => None,
        }
    } else if is_identifier(v) {
        match lookup(cs, v) {
            Some(value) => string_expr(value, cs, (n - 1) as nat),
            None => None,
        }
    } else {
        None
    }
}

/// The values of the string expressions from `i` on.
pub open spec fn string_exprs(
    parts: Seq<Text>,
    cs: Constants,
    n: nat,
    i: int,
    done: Seq<Text>,
) -> Option<Seq<Text>>
    decreases n, 1nat, parts.len() - i,
{
    if i < 0 || i >= parts.len() {
        Some(done)
    } else {
        match string_expr(trim(parts[i]), cs, n) {
            Some(t) => string_exprs(parts, cs, n, i + 1, done.push(t)),
            None => None,
        }
    }
}

/// The values that the arguments of `format` from `i` on give, by position and
/// by name.
pub open spec fn format_args(
    args: Seq<Text>,
    cs: Constants,
    n: nat,
    i: int,
    values: Seq<Text>,
    named: Seq<(Text, Text)>,
) -> Option<(Seq<Text>, Seq<(Text, Text)>)>
    decreases n, 1nat, args.len() - i,
{
    if i < 0 || i >= args.len() {
        Some((values, named))
    } else {
        let arg = trim(args[i]);
        if arg.len() == 0 {
            format_args(args, cs, n, i + 1, values, named)
        } else {
            match assignment(arg) {
                Some((name, value)) => if is_identifier(trim(name)) {
                    match string_expr(trim(value), cs, n) {
                        Some(t) => format_args(
                            args,
                            cs,
                            n,
                            i + 1,
                            values,
                            put::<String, Text>(named, trim(name), t),
                        ),
                        None => None,
                    }
                } else {
                    format_args(args, cs, n, i + 1, values, named)
                },
                None => match string_expr(arg, cs, n) {
                    Some(t) => format_args(args, cs, n, i + 1, values.push(t), named),
                    None => None,
                },
            }
        }
    }
}

/// The value of a condition: a constant, or a comparison of two strings.
pub open spec fn bool_expr(s: Text, cs: Constants, n: nat) -> Option<bool>
    decreases n, 0nat,
{
    let v = strip_parens(s);
    let equal = find_top_level(v, "=="@, 0);
    let differ = find_top_level(v, "!="@, 0);
    if n == 0 {
        None
    } else if v == "True"@ {
        Some(true)
    } else if v == "False"@ {
        Some(false)
    } else if equal is Some || differ is Some {
        let i = if equal is Some {
            equal->0
        } else {
            differ->0
        };
        match (
            string_expr(trim(v.take(i)), cs, (n - 1) as nat),
            string_expr(trim(v.skip(i + 2)), cs, (n - 1) as nat),
        ) {
            (Some(left), Some(right)) => Some((left == right) == (equal is Some)),
            _ => None,
        }
    } else {
        None
    }
}

/// The strings of a list expression.
pub open spec fn sequence_expr(s: Text, cs: Constants, n: nat) -> Option<Seq<Text>>
    decreases n, 0nat,
{
    let v = strip_parens(s);
    if n == 0 {
        None
    } else if sequence_literal(v) is Some {
        sequence_literal(v)
    } else if list_expr(v, cs, (n - 1) as nat) is Some {
        list_expr(v, cs, (n - 1) as nat)
    } else if comprehension_expr(v, cs, (n - 1) as nat) is Some {
        comprehension_expr(v, cs, (n - 1) as nat)
    } else if subscript(v) is Some {
        let (receiver, index) = subscript(v)->0;
        match (string_expr(trim(index), cs, (n - 1) as nat), dict_expression(receiver, cs)) {
            (Some(key), Some(items)) => match lookup(items, key) {
                Some(value) => sequence_expr(value, cs, (n - 1) as nat),
                None => None,
            },
            _ => None,
        }
    } else if is_identifier(v) {
        match lookup(cs, v) {
            Some(value) => sequence_expr(value, cs, (n - 1) as nat),
            None => None,
        }
    } else {
        None
    }
}

/// The strings of a list of string expressions.
pub open spec fn list_expr(s: Text, cs: Constants, n: nat) -> Option<Seq<Text>>
    decreases n, 2nat,
{
    match list_body(trim(s)) {
        Some(body) => string_exprs(list_items(body), cs, n, 0, seq![]),
        None => None,
    }
}

/// The strings of a list comprehension.
pub open spec fn comprehension_expr(s: Text, cs: Constants, n: nat) -> Option<Seq<Text>>
    decreases n, 7nat,
{
    let t = trim(s);
    if t.len() == 0 || t[0] != '[' || t.last() != ']' {
        None
    } else {
        match first_for(t) {
            Some(f) => {
                let mapped = trim(trim_end_char(trim(t.subrange(1, f)), ','));
                if mapped.len() == 0 {
                    None
                } else {
                    match binding_groups(lines(t), cs, n) {
                        Some(groups) => mapped_values(mapped, groups, cs, n, 0, seq![]),
                        None => None,
                    }
                }
            },
            None => None,
        }
    }
}

/// The values of one expression under the groups of bindings from `i` on.
pub open spec fn mapped_values(
    mapped: Text,
    groups: Seq<Constants>,
    cs: Constants,
    n: nat,
    i: int,
    done: Seq<Text>,
) -> Option<Seq<Text>>
    decreases n, 1nat, groups.len() - i,
{
    if i < 0 || i >= groups.len() {
        Some(done)
    } else {
        match string_expr(mapped, groups[i] + cs, n) {
            Some(t) => mapped_values(mapped, groups, cs, n, i + 1, done.push(t)),
            None => None,
        }
    }
}

/// The groups of bindings that the clauses of a comprehension produce, in the
/// order of evaluation.
pub open spec fn binding_groups(block: Seq<Text>, cs: Constants, n: nat) -> Option<Seq<Constants>>
    decreases n, 6nat,
{
    match block_clauses(block) {
        Some(clauses) => expand_clauses(clauses, 0, seq![seq![]], cs, n),
        None => None,
    }
}

/// The groups after the clauses from `i` on.
pub open spec fn expand_clauses(
    clauses: Seq<ForClauseModel>,
    i: int,
    groups: Seq<Constants>,
    cs: Constants,
    n: nat,
) -> Option<Seq<Constants>>
    decreases n, 5nat, clauses.len() - i,
{
    if i < 0 || i >= clauses.len() {
        Some(groups)
    } else {
        match expand_groups(clauses[i], groups, 0, seq![], cs, n) {
            Some(next) => expand_clauses(clauses, i + 1, next, cs, n),
            None => None,
        }
    }
}

/// Each of the groups from `i` on, extended by what the clause binds under it.
pub open spec fn expand_groups(
    clause: ForClauseModel,
    groups: Seq<Constants>,
    i: int,
    next: Seq<Constants>,
    cs: Constants,
    n: nat,
) -> Option<Seq<Constants>>
    decreases n, 4nat, groups.len() - i,
{
    if i < 0 || i >= groups.len() {
        Some(next)
    } else {
        match clause_bindings(clause, groups[i] + cs, n) {
            Some(options) => expand_groups(
                clause,
                groups,
                i + 1,
                next + extend_group(groups[i], options),
                cs,
                n,
            ),
            None => None,
        }
    }
}

/// The bindings that a clause makes, one group for each item of its iterable.
pub open spec fn clause_bindings(clause: ForClauseModel, cs: Constants, n: nat) -> Option<
    Seq<Constants>,
>
    decreases n, 3nat,
{
    if clause.names.len() == 1 {
        match iterable_values(clause.expression, cs, n) {
            Some(values) => Some(bind_each(clause.names[0], values)),
            None => None,
        }
    } else {
        match split_comprehension(clause.expression, cs, n) {
            Some(rows) => zip_rows(clause.names, rows, 0, seq![]),
            None => match dict_items_values(clause.expression, cs) {
                Some(rows) => zip_rows(clause.names, rows, 0, seq![]),
                None => None,
            },
        }
    }
}

/// Each row from `i` on paired with the names, where the lengths agree.
pub open spec fn zip_rows(names: Seq<Text>, rows: Seq<Seq<Text>>, i: int, done: Seq<Constants>) -> Option<
    Seq<Constants>,
>
    decreases rows.len() - i,
{
    if i < 0 || i >= rows.len() {
        Some(done)
    } else if rows[i].len() != names.len() {
        None
    } else {
        zip_rows(
            names,
            rows,
            i + 1,
            done.push(Seq::new(names.len(), |k: int| (names[k], rows[i][k]))),
        )
    }
}

/// The items of an iterable as string literals: the strings of a list, or the
/// keys of a dictionary.
pub open spec fn iterable_values(s: Text, cs: Constants, n: nat) -> Option<Seq<Text>>
    decreases n, 2nat,
{
    match sequence_expr(s, cs, n) {
        Some(values) => Some(quote_all(values)),
        None => match dict_expression(s, cs) {
            Some(items) => Some(quote_all(keys_of(items))),
            None => None,
        },
    }
}

/// The rows of `[x.split(d) for x in values]`: the pieces of each value, as
/// string literals.
pub open spec fn split_comprehension(s: Text, cs: Constants, n: nat) -> Option<Seq<Seq<Text>>>
    decreases n, 2nat,
{
    match between(trim(s), '[', ']') {
        None => None,
        Some(body) => match split_once(trim(body), " for "@) {
            None => None,
            Some((mapped, rest)) => match split_once(rest, " in "@) {
                None => None,
                Some((name, values)) => match method_call(trim(mapped), "split"@) {
                    None => None,
                    Some((receiver, args)) => if !is_identifier(trim(name)) || trim(receiver)
                        != trim(name) {
                        None
                    } else {
                        match (
                            string_expr(trim(args), cs, n),
                            sequence_expr(trim(values), cs, n),
                        ) {
                            (Some(sep), Some(vs)) => if sep.len() == 0 {
                                None
                            } else {
                                Some(split_all(vs, sep))
                            },
                            _ => None,
                        }
                    },
                },
            },
        },
    }
}

/// How deep evaluation may go.
pub const MAX_DEPTH: u64 = 0xffff_ffff_ffff_ffff;

/// The value of a string expression under constants.
pub open spec fn string_expression(s: Text, cs: Constants) -> Option<Text> {
    string_expr(s, cs, MAX_DEPTH as nat)
}

/// The strings of a list expression under constants.
pub open spec fn sequence_expression(s: Text, cs: Constants) -> Option<Seq<Text>> {
    sequence_expr(s, cs, MAX_DEPTH as nat)
}

/// The expression that a name stands for.
pub fn find_constant<'a>(cs: &'a Vec<(String, String)>, name: &str) -> (r: Option<&'a String>)
    ensures
        match lookup(cs.deep_view(), name@) {
            Some(t) => r matches Some(x) && x@ == t,
            None => r is None,
        },
{
    let ghost model = cs.deep_view();
    let mut i: usize = 0;
    assert(model.skip(0) =~= model);
    while i < cs.len()
        invariant
            model == cs.deep_view(),
            0 <= i <= cs@.len(),
            lookup(model, name@) == lookup(model.skip(i as int), name@),
        decreases cs.len() - i,
    {
        assert(model.skip(i as int)[0] == cs@[i as int].deep_view());
        if same(cs[i].0.as_str(), name) {
            return Some(&cs[i].1);
        }
        assert(model.skip(i as int).skip(1) =~= model.skip(i + 1));
        i += 1;
    }
    None
}

/// The bindings in front of the constants.
pub fn bzl_constants_with_bindings(
    constants: &Vec<(String, String)>,
    bindings: &Vec<(String, String)>,
) -> (r: Vec<(String, String)>)
    ensures
        r.deep_view() == bindings.deep_view() + constants.deep_view(),
{
    let mut merged = bindings.duplicate();
    let mut rest = constants.duplicate();
    let ghost a = merged.deep_view();
    let ghost b = rest.deep_view();
    merged.append(&mut rest);
    assert(merged.deep_view() =~= a + b);
    merged
}

/// What stands between `open` in front and `close` at the end.
pub fn text_inside<'a>(s: &'a str, open: char, close: char) -> (r: Option<&'a str>)
    ensures
        match between(s@, open, close) {
            Some(t) => r matches Some(x) && x@ == t,
            None => r is None,
        },
{
    let v = chars_of(s);
    let n: usize = v.len();
    if n >= 2 && v[0] == open && v[n - 1] == close {
        Some(s.substring_char(1, n - 1))
    } else {
        None
    }
}

pub fn list_body_of<'a>(s: &'a str) -> (r: Option<&'a str>)
    ensures
        match list_body(s@) {
            Some(t) => r matches Some(x) && x@ == t,
            None => r is None,
        },
{
    match text_inside(s, '[', ']') {
        Some(inner) => Some(inner),
        None => text_inside(s, '(', ')'),
    }
}

/// The items of a list: between commas, and more than whitespace.
pub fn list_items_of(body: &str) -> (r: Vec<String>)
    ensures
        r.deep_view() == list_items(body@),
{
    let parts = bzl_split_top_level(body, ',');
    let ghost model = parts.deep_view();
    let mut out: Vec<String> = Vec::new();
    let mut i: usize = 0;
    while i < parts.len()
        invariant
            model == parts.deep_view(),
            0 <= i <= parts@.len(),
            out.deep_view() =~= nonblank(model.take(i as int)),
        decreases parts.len() - i,
    {
        let ghost before = out.deep_view();
        proof {
            let t = model.take(i + 1);
            assert(t.drop_last() =~= model.take(i as int));
            assert(t.last() == parts@[i as int]@);
        }
        if !trim_of(parts[i].as_str()).is_empty() {
            out.push(parts[i].clone());
            assert(out.deep_view() =~= before.push(parts@[i as int]@));
        }
        i += 1;
    }
    assert(model.take(i as int) =~= model);
    out
}

/// The strings of a list of string literals.
pub fn bzl_string_sequence_literal_raw_values(value: &str) -> (r: Option<Vec<String>>)
    ensures
        r.deep_view() == sequence_literal(value@),
{
    let body = match list_body_of(trim_of(value)) {
        Some(body) => body,
        None => {
            return None;
        },
    };
    let items = list_items_of(body);
    let ghost model = items.deep_view();
    let mut out: Vec<String> = Vec::new();
    let mut i: usize = 0;
    assert(out.deep_view() =~= seq![]);
    while i < items.len()
        invariant
            model == items.deep_view(),
            0 <= i <= items@.len(),
            sequence_literal(value@) == literal_items(model, i as int, out.deep_view()),
        decreases items.len() - i,
    {
        assert(model[i as int] == items@[i as int]@);
        let ghost before = out.deep_view();
        match bzl_string_literal_value(trim_of(items[i].as_str())) {
            Some(t) => {
                let ghost g = t@;
                out.push(t);
                assert(out.deep_view() =~= before.push(g));
            },
            None => {
                return None;
            },
        }
        i += 1;
    }
    Some(out)
}

/// The entries of a dictionary literal with string keys, values as written.
pub fn bzl_string_dict_literal_items(value: &str) -> (r: Option<Vec<(String, String)>>)
    ensures
        r.deep_view() == dict_literal(value@),
{
    let body = match text_inside(trim_of(value), '{', '}') {
        Some(body) => body,
        None => {
            return None;
        },
    };
    let items = list_items_of(body);
    let ghost model = items.deep_view();
    let mut out: Vec<(String, String)> = Vec::new();
    let mut i: usize = 0;
    assert(out.deep_view() =~= seq![]);
    while i < items.len()
        invariant
            model == items.deep_view(),
            0 <= i <= items@.len(),
            dict_literal(value@) == dict_entries(model, i as int, out.deep_view()),
        decreases items.len() - i,
    {
        assert(model[i as int] == items@[i as int]@);
        let ghost before = out.deep_view();
        let parts = bzl_split_top_level(items[i].as_str(), ':');
        if parts.len() != 2 {
            return None;
        }
        assert(parts.deep_view()[0] == parts@[0]@ && parts.deep_view()[1] == parts@[1]@);
        match bzl_string_literal_value(trim_of(parts[0].as_str())) {
            Some(key) => {
                let item = trim_of(parts[1].as_str()).to_owned();
                let ghost g = (key@, item@);
                out.push((key, item));
                assert(out.deep_view() =~= before.push(g));
            },
            None => {
                return None;
            },
        }
        i += 1;
    }
    Some(out)
}

/// The entries of the dictionary that an expression is or names.
pub fn bzl_string_dict_expression_raw_items(
    expression: &str,
    constants: &Vec<(String, String)>,
) -> (r: Option<Vec<(String, String)>>)
    ensures
        r.deep_view() == dict_expression(expression@, constants.deep_view()),
{
    let t = trim_of(expression);
    if is_bzl_identifier(t) {
        match find_constant(constants, t) {
            Some(value) => bzl_string_dict_literal_items(value.as_str()),
            None => None,
        }
    } else {
        bzl_string_dict_literal_items(t)
    }
}

/// A template with its placeholders filled.
pub fn bzl_format_string(
    template: &str,
    values: &Vec<String>,
    named_values: &KeyMap<String, String>,
) -> (r: Option<String>)
    ensures
        r.deep_view() == format_string(
            template@,
            values.deep_view(),
            named_values.deep_view(),
        ),
{
    let ghost vs = values.deep_view();
    let ghost named = named_values.deep_view();
    let mut result = String::new();
    let mut rest = template;
    let mut next: usize = 0;
    let mut length: usize = template.unicode_len();
    assert(vs.skip(0) =~= vs);
    proof {
        let f = format_string(template@, vs, named);
        if f is Some {
            assert(result@ + f->0 =~= f->0);
        }
    }
    loop
        invariant
            vs == values.deep_view(),
            named == named_values.deep_view(),
            0 <= next <= values@.len(),
            length == rest@.len(),
            format_string(template@, vs, named) == (match format_string(
                rest@,
                vs.skip(next as int),
                named,
            ) {
                Some(t) => Some(result@ + t),
                None => None,
            }),
        decreases length,
    {
        let v = chars_of(rest);
        let open: usize = next_char_in(&v, '{', 0);
        if open >= v.len() {
            result.append(rest);
            return Some(result);
        }
        let ghost whole = rest@;
        let after = text_from(rest, open + 1);
        let w = chars_of(after);
        let close: usize = next_char_in(&w, '}', 0);
        if close >= w.len() {
            return None;
        }
        let ghost before = result@;
        result.append(text_up_to(rest, open));
        let ghost tail = vs.skip(next as int);
        let ghost tail_next = if close == 0 {
            tail.skip(1)
        } else {
            tail
        };
        let ghost fill: Text;
        if close == 0 {
            if next >= values.len() {
                return None;
            }
            proof {
                assert(tail[0] == vs[next as int]);
                assert(vs[next as int] == values@[next as int]@);
                assert(tail.skip(1) =~= vs.skip(next + 1));
                fill = values@[next as int]@;
            }
            result.append(values[next].as_str());
            next += 1;
        } else {
            let name = text_up_to(after, close).to_owned();
            match named_values.get(&name) {
                Some(t) => {
                    proof {
                        fill = t@;
                    }
                    result.append(t.as_str());
                },
                None => {
                    return None;
                },
            }
        }
        rest = text_from(after, close + 1);
        length = rest.unicode_len();
        proof {
            assert(result@ == before + whole.take(open as int) + fill);
            let inner = format_string(rest@, tail_next, named);
            if inner is Some {
                assert(before + (whole.take(open as int) + fill + inner->0) =~= result@
                    + inner->0);
            }
        }
    }
}

/// The names that a `for` clause binds.
pub fn bzl_list_comprehension_binding_names(binding: &str) -> (r: Option<Vec<String>>)
    ensures
        r.deep_view() == binding_names(binding@),
{
    let t = trim_of(binding);
    let inner = match text_inside(t, '(', ')') {
        Some(inner) => inner,
        None => t,
    };
    let parts = bzl_split_top_level(inner, ',');
    let ghost names = trim_all(parts.deep_view());
    let mut out: Vec<String> = Vec::new();
    let mut i: usize = 0;
    while i < parts.len()
        invariant
            names == trim_all(parts.deep_view()),
            binding_names(binding@) is Some ==> all_identifiers(names),
            0 <= i <= parts@.len(),
            out.deep_view() =~= names.take(i as int),
            forall|k: int| 0 <= k < i ==> is_identifier(#[trigger] names[k]),
        decreases parts.len() - i,
    {
        let name = trim_of(parts[i].as_str());
        assert(parts.deep_view()[i as int] == parts@[i as int]@);
        assert(names[i as int] == name@);
        if !is_bzl_identifier(name) {
            return None;
        }
        let ghost before = out.deep_view();
        out.push(name.to_owned());
        assert(out.deep_view() =~= before.push(name@));
        i += 1;
    }
    assert(names.take(i as int) =~= names);
    Some(out)
}

/// The `for` clauses of the comprehension that a block of lines is.
pub fn bzl_list_comprehension_for_clauses(block: &Vec<String>) -> (r: Option<Vec<ForClause>>)
    ensures
        r.deep_view() == block_clauses(block.deep_view()),
{
    proof {
        reveal_strlit("\n");
        assert("\n"@ =~= seq!['\n']);
    }
    let text = join_of(block, "\n");
    let v = chars_of(text.as_str());
    let for_word: Vec<char> = vec!['f', 'o', 'r'];
    let in_word: Vec<char> = vec!['i', 'n'];
    assert(for_word@ =~= seq!['f', 'o', 'r']);
    assert(in_word@ =~= seq!['i', 'n']);
    let n: usize = v.len();
    let mut out: Vec<ForClause> = Vec::new();
    let mut a: usize = 0;
    let mut depth: i128 = 0;
    assert(out.deep_view() =~= seq![]);
    loop
        invariant
            n == v@.len(),
            0 <= a <= n,
            depth == 0 || depth == 1,
            for_word@ == seq!['f', 'o', 'r'],
            in_word@ == seq!['i', 'n'],
            v@ == join(block.deep_view(), seq!['\n']),
            for_clauses(v@, 0, 0, seq![]) == for_clauses(
                v@,
                a as int,
                depth as int,
                out.deep_view(),
            ),
        decreases n - a,
    {
        let ghost before = out.deep_view();
        let i = match bzl_find_keyword(&v, a, &for_word, 1 - depth) {
            Some(i) => i,
            None => {
                if out.len() == 0 {
                    return None;
                }
                return Some(out);
            },
        };
        let names_at: usize = bzl_skip_whitespace(&v, i + 3);
        let k = match bzl_find_top_level_keyword(&v, names_at, &in_word) {
            Some(k) => k,
            None => {
                return None;
            },
        };
        let names = match bzl_list_comprehension_binding_names(
            text_between(&v, names_at, k).as_str(),
        ) {
            Some(names) => names,
            None => {
                return None;
            },
        };
        let start: usize = bzl_skip_whitespace(&v, k + 2);
        let e = match bzl_list_comprehension_clause_expression_end(&v, start) {
            Some(e) => e,
            None => {
                return None;
            },
        };
        let raw = text_between(&v, start, e);
        let expression = trim_of(trim_end_char_of(trim_of(raw.as_str()), ',')).to_owned();
        let clause = ForClause { names, expression };
        let ghost model = clause.deep_view();
        out.push(clause);
        assert(out.deep_view() =~= before.push(model));
        a = e;
        depth = 1;
    }
}

/// A value that may be bound as it is written.
pub fn bzl_supported_module_literal_expression(value: &str) -> (r: Option<String>)
    ensures
        r.deep_view() == literal_expression(value@),
{
    let t = trim_of(value);
    if bzl_string_literal_value(t).is_some() || bzl_string_sequence_literal_raw_values(t).is_some()
        || bzl_string_dict_literal_items(t).is_some()
        || bzl_module_constant_expression_is_supported(t) {
        Some(t.to_owned())
    } else {
        None
    }
}

/// The pairs that `d.items()` gives for a dictionary.
pub fn bzl_dict_items_expression_values(
    expression: &str,
    constants: &Vec<(String, String)>,
) -> (r: Option<Vec<Vec<String>>>)
    ensures
        r.deep_view() == dict_items_values(expression@, constants.deep_view()),
{
    let receiver = match strip_suffix_of(trim_of(expression), ".items()") {
        Some(receiver) => trim_of(receiver),
        None => {
            return None;
        },
    };
    let dict = if is_bzl_identifier(receiver) {
        match find_constant(constants, receiver) {
            Some(value) => value.as_str(),
            None => {
                return None;
            },
        }
    } else {
        receiver
    };
    let items = match bzl_string_dict_literal_items(dict) {
        Some(items) => items,
        None => {
            return None;
        },
    };
    let ghost model = items.deep_view();
    let mut out: Vec<Vec<String>> = Vec::new();
    let mut i: usize = 0;
    assert(out.deep_view() =~= seq![]);
    while i < items.len()
        invariant
            model == items.deep_view(),
            0 <= i <= items@.len(),
            dict_items_values(expression@, constants.deep_view()) == item_pairs(
                model,
                i as int,
                out.deep_view(),
            ),
        decreases items.len() - i,
    {
        assert(model[i as int] == items@[i as int].deep_view());
        let ghost before = out.deep_view();
        match bzl_supported_module_literal_expression(trim_of(items[i].1.as_str())) {
            Some(value) => {
                let ghost g = seq![json_quoted(model[i as int].0), value@];
                let mut pair: Vec<String> = Vec::new();
                pair.push(quote_json(items[i].0.as_str()));
                pair.push(value);
                assert(pair.deep_view() =~= g);
                out.push(pair);
                assert(out.deep_view() =~= before.push(g));
            },
            None => {
                return None;
            },
        }
        i += 1;
    }
    Some(out)
}

/// The strings as string literals.
fn quote_all_of(values: &Vec<String>) -> (r: Vec<String>)
    ensures
        r.deep_view() == quote_all(values.deep_view()),
{
    let ghost model = quote_all(values.deep_view());
    let mut out: Vec<String> = Vec::new();
    let mut i: usize = 0;
    while i < values.len()
        invariant
            model == quote_all(values.deep_view()),
            0 <= i <= values@.len(),
            out.deep_view() =~= model.take(i as int),
        decreases values.len() - i,
    {
        let ghost before = out.deep_view();
        out.push(quote_json(values[i].as_str()));
        assert(values.deep_view()[i as int] == values@[i as int]@);
        assert(out.deep_view() =~= before.push(model[i as int]));
        i += 1;
    }
    assert(model.take(i as int) =~= model);
    out
}

fn eval_string(value: &str, cs: &Vec<(String, String)>, n: u64) -> (r: Option<String>)
    ensures
        r.deep_view() == string_expr(value@, cs.deep_view(), n as nat),
    decreases n, 0nat,
{
    if n == 0 {
        return None;
    }
    let v = bzl_strip_balanced_outer_parens(value);
    match bzl_string_literal_value(v) {
        Some(literal) => {
            return Some(literal);
        },
        None => {},
    }
    let chars = chars_of(v);
    match bzl_top_level_if_else(&chars) {
        Some((i, e)) => {
            let condition = v.substring_char(i + 2, e);
            return match eval_bool(trim_of(condition), cs, n - 1) {
                Some(true) => eval_string(trim_of(text_up_to(v, i)), cs, n - 1),
                Some(false) => eval_string(trim_of(text_from(v, e + 4)), cs, n - 1),
                None => None,
            };
        },
        None => {},
    }
    let parts = bzl_split_top_level(v, '+');
    assert(parts.deep_view().len() == parts@.len());
    if parts.len() > 1 {
        return match eval_strings(&parts, cs, n - 1) {
            Some(values) => Some(concat_all_of(&values)),
            None => None,
        };
    }
    match bzl_top_level_method_call(v, "format") {
        Some((receiver, args)) => {
            return match eval_string(receiver, cs, n - 1) {
                Some(template) => {
                    let args = bzl_split_top_level(args, ',');
                    match eval_format_args(&args, cs, n - 1) {
                        Some((values, named)) => bzl_format_string(
                            template.as_str(),
                            &values,
                            &named,
                        ),
                        None => None,
                    }
                },
                None => None,
            };
        },
        None => {},
    }
    match bzl_top_level_method_call(v, "replace") {
        Some((receiver, args)) => {
            let receiver = match eval_string(receiver, cs, n - 1) {
                Some(receiver) => receiver,
                None => {
                    return None;
                },
            };
            let args = bzl_split_top_level(args, ',');
            if args.len() != 2 {
                return None;
            }
            assert(args.deep_view()[0] == args@[0]@ && args.deep_view()[1] == args@[1]@);
            let from = match eval_string(trim_of(args[0].as_str()), cs, n - 1) {
                Some(from) => from,
                None => {
                    return None;
                },
            };
            let to = match eval_string(trim_of(args[1].as_str()), cs, n - 1) {
                Some(to) => to,
                None => {
                    return None;
                },
            };
            return Some(replace_of(receiver.as_str(), from.as_str(), to.as_str()));
        },
        None => {},
    }
    match bzl_top_level_index(v) {
        Some((receiver, index)) => {
            let values = match eval_sequence(receiver, cs, n - 1) {
                Some(values) => values,
                None => {
                    return None;
                },
            };
            return match bzl_integer_expression_value(trim_of(index)) {
                Some(k) => pick(&values, k),
                None => None,
            };
        },
        None => {},
    }
    if is_bzl_identifier(v) {
        return match find_constant(cs, v) {
            Some(constant) => eval_string(constant.as_str(), cs, n - 1),
            None => None,
        };
    }
    None
}

/// The item at `k`, counted from the end where `k` is negative.
fn pick(values: &Vec<String>, k: i32) -> (r: Option<String>)
    ensures
        r.deep_view() == ({
            let model = values.deep_view();
            let at = if k < 0 {
                model.len() + k
            } else {
                k as int
            };
            if 0 <= at < model.len() {
                Some(model[at])
            } else {
                None
            }
        }),
{
    let n: usize = values.len();
    let at: i128 = if k < 0 {
        n as i128 + k as i128
    } else {
        k as i128
    };
    if 0 <= at && at < n as i128 {
        assert(values.deep_view()[at as int] == values@[at as int]@);
        Some(values[at as usize].clone())
    } else {
        None
    }
}

fn concat_all_of(parts: &Vec<String>) -> (r: String)
    ensures
        r@ == concat_all(parts.deep_view()),
{
    let mut r = String::new();
    let mut i: usize = 0;
    while i < parts.len()
        invariant
            0 <= i <= parts@.len(),
            r@ =~= concat_all(parts.deep_view().take(i as int)),
        decreases parts.len() - i,
    {
        r.append(parts[i].as_str());
        proof {
            let t = parts.deep_view().take(i + 1);
            assert(t.drop_last() =~= parts.deep_view().take(i as int));
            assert(t.last() == parts@[i as int]@);
        }
        i += 1;
    }
    assert(parts.deep_view().take(i as int) =~= parts.deep_view());
    r
}

fn eval_strings(parts: &Vec<String>, cs: &Vec<(String, String)>, n: u64) -> (r: Option<Vec<String>>)
    ensures
        r.deep_view() == string_exprs(parts.deep_view(), cs.deep_view(), n as nat, 0, seq![]),
    decreases n, 1nat,
{
    let ghost model = parts.deep_view();
    let mut out: Vec<String> = Vec::new();
    let mut i: usize = 0;
    assert(out.deep_view() =~= seq![]);
    while i < parts.len()
        invariant
            model == parts.deep_view(),
            0 <= i <= parts@.len(),
            string_exprs(model, cs.deep_view(), n as nat, 0, seq![]) == string_exprs(
                model,
                cs.deep_view(),
                n as nat,
                i as int,
                out.deep_view(),
            ),
        decreases parts.len() - i,
    {
        assert(model[i as int] == parts@[i as int]@);
        let ghost before = out.deep_view();
        match eval_string(trim_of(parts[i].as_str()), cs, n) {
            Some(t) => {
                let ghost g = t@;
                out.push(t);
                assert(out.deep_view() =~= before.push(g));
            },
            None => {
                return None;
            },
        }
        i += 1;
    }
    Some(out)
}

fn eval_format_args(args: &Vec<String>, cs: &Vec<(String, String)>, n: u64) -> (r: Option<
    (Vec<String>, KeyMap<String, String>),
>)
    ensures
        r.deep_view() == format_args(
            args.deep_view(),
            cs.deep_view(),
            n as nat,
            0,
            seq![],
            seq![],
        ),
    decreases n, 1nat,
{
    let ghost model = args.deep_view();
    let mut values: Vec<String> = Vec::new();
    let mut named: KeyMap<String, String> = KeyMap::new();
    let mut i: usize = 0;
    assert(values.deep_view() =~= seq![]);
    assert(named.deep_view() =~= seq![]);
    while i < args.len()
        invariant
            model == args.deep_view(),
            0 <= i <= args@.len(),
            format_args(model, cs.deep_view(), n as nat, 0, seq![], seq![]) == format_args(
                model,
                cs.deep_view(),
                n as nat,
                i as int,
                values.deep_view(),
                named.deep_view(),
            ),
        decreases args.len() - i,
    {
        assert(model[i as int] == args@[i as int]@);
        let arg = trim_of(args[i].as_str());
        let ghost before = values.deep_view();
        if !arg.is_empty() {
            match bzl_top_level_assignment(arg) {
                Some((name, value)) => {
                    let name = trim_of(name);
                    if is_bzl_identifier(name) {
                        match eval_string(trim_of(value), cs, n) {
                            Some(t) => {
                                named.insert(name.to_owned(), t);
                            },
                            None => {
                                return None;
                            },
                        }
                    }
                },
                None => match eval_string(arg, cs, n) {
                    Some(t) => {
                        let ghost g = t@;
                        values.push(t);
                        assert(values.deep_view() =~= before.push(g));
                    },
                    None => {
                        return None;
                    },
                },
            }
        }
        i += 1;
    }
    Some((values, named))
}

fn eval_bool(value: &str, cs: &Vec<(String, String)>, n: u64) -> (r: Option<bool>)
    ensures
        r == bool_expr(value@, cs.deep_view(), n as nat),
    decreases n, 0nat,
{
    if n == 0 {
        return None;
    }
    let v = bzl_strip_balanced_outer_parens(value);
    proof {
        reveal_strlit("==");
        reveal_strlit("!=");
    }
    if same(v, "True") {
        return Some(true);
    }
    if same(v, "False") {
        return Some(false);
    }
    let equal = bzl_find_top_level_operator(v, "==");
    let at = match equal {
        Some(at) => at,
        None => match bzl_find_top_level_operator(v, "!=") {
            Some(at) => at,
            None => {
                return None;
            },
        },
    };
    let left = match eval_string(trim_of(text_up_to(v, at)), cs, n - 1) {
        Some(left) => left,
        None => {
            return None;
        },
    };
    let right = match eval_string(trim_of(text_from(v, at + 2)), cs, n - 1) {
        Some(right) => right,
        None => {
            return None;
        },
    };
    Some(same(left.as_str(), right.as_str()) == equal.is_some())
}

fn eval_sequence(expression: &str, cs: &Vec<(String, String)>, n: u64) -> (r: Option<Vec<String>>)
    ensures
        r.deep_view() == sequence_expr(expression@, cs.deep_view(), n as nat),
    decreases n, 0nat,
{
    if n == 0 {
        return None;
    }
    let v = bzl_strip_balanced_outer_parens(expression);
    match bzl_string_sequence_literal_raw_values(v) {
        Some(values) => {
            return Some(values);
        },
        None => {},
    }
    match eval_list(v, cs, n - 1) {
        Some(values) => {
            return Some(values);
        },
        None => {},
    }
    match eval_comprehension(v, cs, n - 1) {
        Some(values) => {
            return Some(values);
        },
        None => {},
    }
    match bzl_top_level_index(v) {
        Some((receiver, index)) => {
            let key = match eval_string(trim_of(index), cs, n - 1) {
                Some(key) => key,
                None => {
                    return None;
                },
            };
            let items = match bzl_string_dict_expression_raw_items(receiver, cs) {
                Some(items) => items,
                None => {
                    return None;
                },
            };
            return match find_constant(&items, key.as_str()) {
                Some(value) => eval_sequence(value.as_str(), cs, n - 1),
                None => None,
            };
        },
        None => {},
    }
    if is_bzl_identifier(v) {
        return match find_constant(cs, v) {
            Some(constant) => eval_sequence(constant.as_str(), cs, n - 1),
            None => None,
        };
    }
    None
}

fn eval_list(expression: &str, cs: &Vec<(String, String)>, n: u64) -> (r: Option<Vec<String>>)
    ensures
        r.deep_view() == list_expr(expression@, cs.deep_view(), n as nat),
    decreases n, 2nat,
{
    match list_body_of(trim_of(expression)) {
        Some(body) => {
            let items = list_items_of(body);
            eval_strings(&items, cs, n)
        },
        None => None,
    }
}

fn eval_comprehension(expression: &str, cs: &Vec<(String, String)>, n: u64) -> (r: Option<
    Vec<String>,
>)
    ensures
        r.deep_view() == comprehension_expr(expression@, cs.deep_view(), n as nat),
    decreases n, 7nat,
{
    let t = trim_of(expression);
    let v = chars_of(t);
    let length: usize = v.len();
    if length == 0 || v[0] != '[' || v[length - 1] != ']' {
        return None;
    }
    let first = match bzl_list_comprehension_first_for(&v) {
        Some(first) => first,
        None => {
            return None;
        },
    };
    proof {
        lemma_first_for_positive(t@);
    }
    let mapped = trim_of(trim_end_char_of(trim_of(t.substring_char(1, first)), ','));
    if mapped.is_empty() {
        return None;
    }
    let block = lines_of(t);
    let groups = match eval_binding_groups(&block, cs, n) {
        Some(groups) => groups,
        None => {
            return None;
        },
    };
    let ghost model = groups.deep_view();
    let mut out: Vec<String> = Vec::new();
    let mut i: usize = 0;
    assert(out.deep_view() =~= seq![]);
    while i < groups.len()
        invariant
            model == groups.deep_view(),
            0 <= i <= groups@.len(),
            comprehension_expr(expression@, cs.deep_view(), n as nat) == mapped_values(
                mapped@,
                model,
                cs.deep_view(),
                n as nat,
                i as int,
                out.deep_view(),
            ),
        decreases groups.len() - i,
    {
        assert(model[i as int] == groups@[i as int].deep_view());
        let ghost before = out.deep_view();
        let scope = bzl_constants_with_bindings(cs, &groups[i]);
        match eval_string(mapped, &scope, n) {
            Some(t) => {
                let ghost g = t@;
                out.push(t);
                assert(out.deep_view() =~= before.push(g));
            },
            None => {
                return None;
            },
        }
        i += 1;
    }
    Some(out)
}

proof fn lemma_first_for_positive(s: Text)
    ensures
        first_for(s) matches Some(f) ==> f >= 1,
{
    let word = seq!['f', 'o', 'r'];
    if s.len() > 0 {
        assert(nest(s, 0, 0) == 0);
        assert(find_keyword(s, 0, word, 1, 0) == find_keyword(s, 0, word, 1, 1));
        lemma_find_keyword_bounds(s, 0, word, 1, 1);
    }
}

fn eval_binding_groups(block: &Vec<String>, cs: &Vec<(String, String)>, n: u64) -> (r: Option<
    Vec<Vec<(String, String)>>,
>)
    ensures
        r.deep_view() == binding_groups(block.deep_view(), cs.deep_view(), n as nat),
    decreases n, 6nat,
{
    let clauses = match bzl_list_comprehension_for_clauses(block) {
        Some(clauses) => clauses,
        None => {
            return None;
        },
    };
    let ghost model = clauses.deep_view();
    let mut groups: Vec<Vec<(String, String)>> = Vec::new();
    let none: Vec<(String, String)> = Vec::new();
    assert(none.deep_view() =~= seq![]);
    groups.push(none);
    assert(groups.deep_view() =~= seq![seq![]]);
    let mut i: usize = 0;
    while i < clauses.len()
        invariant
            model == clauses.deep_view(),
            0 <= i <= clauses@.len(),
            binding_groups(block.deep_view(), cs.deep_view(), n as nat) == expand_clauses(
                model,
                i as int,
                groups.deep_view(),
                cs.deep_view(),
                n as nat,
            ),
        decreases clauses.len() - i,
    {
        assert(model[i as int] == clauses@[i as int].deep_view());
        match eval_expand_groups(&clauses[i], &groups, cs, n) {
            Some(next) => {
                groups = next;
            },
            None => {
                return None;
            },
        }
        i += 1;
    }
    Some(groups)
}

fn eval_expand_groups(
    clause: &ForClause,
    groups: &Vec<Vec<(String, String)>>,
    cs: &Vec<(String, String)>,
    n: u64,
) -> (r: Option<Vec<Vec<(String, String)>>>)
    ensures
        r.deep_view() == expand_groups(
            clause.deep_view(),
            groups.deep_view(),
            0,
            seq![],
            cs.deep_view(),
            n as nat,
        ),
    decreases n, 4nat,
{
    let ghost model = groups.deep_view();
    let mut next: Vec<Vec<(String, String)>> = Vec::new();
    let mut i: usize = 0;
    assert(next.deep_view() =~= seq![]);
    while i < groups.len()
        invariant
            model == groups.deep_view(),
            0 <= i <= groups@.len(),
            expand_groups(clause.deep_view(), model, 0, seq![], cs.deep_view(), n as nat)
                == expand_groups(
                clause.deep_view(),
                model,
                i as int,
                next.deep_view(),
                cs.deep_view(),
                n as nat,
            ),
        decreases groups.len() - i,
    {
        assert(model[i as int] == groups@[i as int].deep_view());
        let scope = bzl_constants_with_bindings(cs, &groups[i]);
        let options = match eval_clause_bindings(clause, &scope, n) {
            Some(options) => options,
            None => {
                return None;
            },
        };
        let ghost before = next.deep_view();
        let ghost added = extend_group(model[i as int], options.deep_view());
        let mut j: usize = 0;
        while j < options.len()
            invariant
                model == groups.deep_view(),
                0 <= i < groups@.len(),
                model[i as int] == groups@[i as int].deep_view(),
                added == extend_group(model[i as int], options.deep_view()),
                0 <= j <= options@.len(),
                next.deep_view() =~= before + added.take(j as int),
            decreases options.len() - j,
        {
            let ghost so_far = next.deep_view();
            let group = bzl_constants_with_bindings(&options[j], &groups[i]);
            assert(options.deep_view()[j as int] == options@[j as int].deep_view());
            let ghost g = group.deep_view();
            next.push(group);
            assert(next.deep_view() =~= so_far.push(g));
            j += 1;
        }
        assert(added.take(j as int) =~= added);
        i += 1;
    }
    Some(next)
}

fn eval_clause_bindings(clause: &ForClause, cs: &Vec<(String, String)>, n: u64) -> (r: Option<
    Vec<Vec<(String, String)>>,
>)
    ensures
        r.deep_view() == clause_bindings(clause.deep_view(), cs.deep_view(), n as nat),
    decreases n, 3nat,
{
    if clause.names.len() == 1 {
        let values = match eval_iterable(clause.expression.as_str(), cs, n) {
            Some(values) => values,
            None => {
                return None;
            },
        };
        assert(clause.names.deep_view()[0] == clause.names@[0]@);
        return Some(bind_each_of(clause.names[0].as_str(), &values));
    }
    let rows = match eval_split_comprehension(clause.expression.as_str(), cs, n) {
        Some(rows) => rows,
        None => match bzl_dict_items_expression_values(clause.expression.as_str(), cs) {
            Some(rows) => rows,
            None => {
                return None;
            },
        },
    };
    zip_rows_of(&clause.names, &rows)
}

fn bind_each_of(name: &str, values: &Vec<String>) -> (r: Vec<Vec<(String, String)>>)
    ensures
        r.deep_view() == bind_each(name@, values.deep_view()),
{
    let ghost model = bind_each(name@, values.deep_view());
    let mut out: Vec<Vec<(String, String)>> = Vec::new();
    let mut i: usize = 0;
    while i < values.len()
        invariant
            model == bind_each(name@, values.deep_view()),
            0 <= i <= values@.len(),
            out.deep_view() =~= model.take(i as int),
        decreases values.len() - i,
    {
        let ghost before = out.deep_view();
        let mut group: Vec<(String, String)> = Vec::new();
        group.push((name.to_owned(), values[i].clone()));
        assert(values.deep_view()[i as int] == values@[i as int]@);
        assert(group.deep_view() =~= model[i as int]);
        out.push(group);
        assert(out.deep_view() =~= before.push(model[i as int]));
        i += 1;
    }
    assert(model.take(i as int) =~= model);
    out
}

fn zip_rows_of(names: &Vec<String>, rows: &Vec<Vec<String>>) -> (r: Option<
    Vec<Vec<(String, String)>>,
>)
    ensures
        r.deep_view() == zip_rows(names.deep_view(), rows.deep_view(), 0, seq![]),
{
    let ghost model = rows.deep_view();
    let mut out: Vec<Vec<(String, String)>> = Vec::new();
    let mut i: usize = 0;
    assert(out.deep_view() =~= seq![]);
    while i < rows.len()
        invariant
            model == rows.deep_view(),
            0 <= i <= rows@.len(),
            zip_rows(names.deep_view(), model, 0, seq![]) == zip_rows(
                names.deep_view(),
                model,
                i as int,
                out.deep_view(),
            ),
        decreases rows.len() - i,
    {
        assert(model[i as int] == rows@[i as int].deep_view());
        let row = &rows[i];
        if row.len() != names.len() {
            return None;
        }
        let ghost ns = names.deep_view();
        let ghost pairs = Seq::new(ns.len(), |k: int| (ns[k], model[i as int][k]));
        let mut group: Vec<(String, String)> = Vec::new();
        let mut k: usize = 0;
        while k < names.len()
            invariant
                0 <= k <= names@.len(),
                names@.len() == row@.len(),
                ns == names.deep_view(),
                model[i as int] == row.deep_view(),
                pairs == Seq::new(ns.len(), |k: int| (ns[k], model[i as int][k])),
                group.deep_view() =~= pairs.take(k as int),
            decreases names.len() - k,
        {
            let ghost before = group.deep_view();
            group.push((names[k].clone(), row[k].clone()));
            assert(ns[k as int] == names@[k as int]@);
            assert(row.deep_view()[k as int] == row@[k as int]@);
            assert(group.deep_view() =~= before.push(pairs[k as int]));
            k += 1;
        }
        assert(pairs.take(k as int) =~= pairs);
        let ghost before = out.deep_view();
        let ghost g = group.deep_view();
        out.push(group);
        assert(out.deep_view() =~= before.push(g));
        assert(g =~= Seq::new(
            names.deep_view().len(),
            |k: int| (names.deep_view()[k], model[i as int][k]),
        ));
        i += 1;
    }
    Some(out)
}

fn eval_iterable(expression: &str, cs: &Vec<(String, String)>, n: u64) -> (r: Option<Vec<String>>)
    ensures
        r.deep_view() == iterable_values(expression@, cs.deep_view(), n as nat),
    decreases n, 2nat,
{
    match eval_sequence(expression, cs, n) {
        Some(values) => {
            return Some(quote_all_of(&values));
        },
        None => {},
    }
    let items = match bzl_string_dict_expression_raw_items(expression, cs) {
        Some(items) => items,
        None => {
            return None;
        },
    };
    let ghost model = quote_all(keys_of(items.deep_view()));
    let mut out: Vec<String> = Vec::new();
    let mut i: usize = 0;
    while i < items.len()
        invariant
            model == quote_all(keys_of(items.deep_view())),
            0 <= i <= items@.len(),
            out.deep_view() =~= model.take(i as int),
        decreases items.len() - i,
    {
        let ghost before = out.deep_view();
        out.push(quote_json(items[i].0.as_str()));
        assert(items.deep_view()[i as int] == items@[i as int].deep_view());
        assert(out.deep_view() =~= before.push(model[i as int]));
        i += 1;
    }
    assert(model.take(i as int) =~= model);
    Some(out)
}

fn eval_split_comprehension(expression: &str, cs: &Vec<(String, String)>, n: u64) -> (r: Option<
    Vec<Vec<String>>,
>)
    ensures
        r.deep_view() == split_comprehension(expression@, cs.deep_view(), n as nat),
    decreases n, 2nat,
{
    let body = match text_inside(trim_of(expression), '[', ']') {
        Some(body) => trim_of(body),
        None => {
            return None;
        },
    };
    let (mapped, rest) = match split_once_of(body, " for ") {
        Some((mapped, rest)) => (mapped, rest),
        None => {
            return None;
        },
    };
    let (name, values_expression) = match split_once_of(rest, " in ") {
        Some((name, values)) => (trim_of(name), values),
        None => {
            return None;
        },
    };
    let (receiver, args) = match bzl_top_level_method_call(trim_of(mapped), "split") {
        Some((receiver, args)) => (receiver, args),
        None => {
            return None;
        },
    };
    if !is_bzl_identifier(name) || !same(trim_of(receiver), name) {
        return None;
    }
    let delimiter = match eval_string(trim_of(args), cs, n) {
        Some(delimiter) => delimiter,
        None => {
            return None;
        },
    };
    if delimiter.as_str().is_empty() {
        return None;
    }
    let raw = match eval_sequence(trim_of(values_expression), cs, n) {
        Some(raw) => raw,
        None => {
            return None;
        },
    };
    let values = quote_all_of(&raw);
    split_rows(&values, Ghost(raw.deep_view()), delimiter.as_str())
}

/// The pieces of each string literal between occurrences of `delimiter`.
fn split_rows(values: &Vec<String>, Ghost(raw): Ghost<Seq<Text>>, delimiter: &str) -> (r: Option<
    Vec<Vec<String>>,
>)
    requires
        delimiter@.len() > 0,
        values.deep_view() == quote_all(raw),
    ensures
        r.deep_view() == Some(split_all(raw, delimiter@)),
{
    let ghost model = split_all(raw, delimiter@);
    let mut out: Vec<Vec<String>> = Vec::new();
    let mut i: usize = 0;
    assert(values.deep_view().len() == quote_all(raw).len());
    while i < values.len()
        invariant
            delimiter@.len() > 0,
            values@.len() == raw.len(),
            model == split_all(raw, delimiter@),
            values.deep_view() == quote_all(raw),
            0 <= i <= values@.len(),
            out.deep_view() =~= model.take(i as int),
        decreases values.len() - i,
    {
        let ghost before = out.deep_view();
        assert(values.deep_view()[i as int] == values@[i as int]@);
        assert(values@[i as int]@ == json_quoted(raw[i as int]));
        match json_string_from(values[i].as_str()) {
            Ok(value) => {
                let pieces = split_text_of(value.as_str(), delimiter);
                out.push(quote_all_of(&pieces));
                assert(out.deep_view() =~= before.push(model[i as int]));
            },
            Err(_) => {
                return None;
            },
        }
        i += 1;
    }
    assert(model.take(i as int) =~= model);
    Some(out)
}

/// The value of a string expression under constants.
pub fn bzl_string_expression_value(value: &str, constants: &Vec<(String, String)>) -> (r: Option<
    String,
>)
    ensures
        r.deep_view() == string_expression(value@, constants.deep_view()),
{
    eval_string(value, constants, MAX_DEPTH)
}

/// The value of a condition under constants.
pub fn bzl_bool_expression_value(value: &str, constants: &Vec<(String, String)>) -> (r: Option<bool>)
    ensures
        r == bool_expr(value@, constants.deep_view(), MAX_DEPTH as nat),
{
    eval_bool(value, constants, MAX_DEPTH)
}

/// The strings of a list expression under constants.
pub fn bzl_string_sequence_expression_raw_values(
    expression: &str,
    constants: &Vec<(String, String)>,
) -> (r: Option<Vec<String>>)
    ensures
        r.deep_view() == sequence_expression(expression@, constants.deep_view()),
{
    eval_sequence(expression, constants, MAX_DEPTH)
}

/// The strings of a list expression, as string literals.
pub fn bzl_string_sequence_expression_values(
    expression: &str,
    constants: &Vec<(String, String)>,
) -> (r: Option<Vec<String>>)
    ensures
        r.deep_view() == (match sequence_expression(expression@, constants.deep_view()) {
            Some(values) => Some(quote_all(values)),
            None => None,
        }),
{
    match eval_sequence(expression, constants, MAX_DEPTH) {
        Some(values) => Some(quote_all_of(&values)),
        None => None,
    }
}

/// The values of string expressions under constants.
pub fn bzl_string_expression_values(
    parts: &Vec<String>,
    constants: &Vec<(String, String)>,
) -> (r: Option<Vec<String>>)
    ensures
        r.deep_view() == string_exprs(
            parts.deep_view(),
            constants.deep_view(),
            MAX_DEPTH as nat,
            0,
            seq![],
        ),
{
    eval_strings(parts, constants, MAX_DEPTH)
}

/// The groups of bindings that a comprehension's clauses produce.
pub fn bzl_list_comprehension_binding_groups(
    block: &Vec<String>,
    constants: &Vec<(String, String)>,
) -> (r: Option<Vec<Vec<(String, String)>>>)
    ensures
        r.deep_view() == binding_groups(
            block.deep_view(),
            constants.deep_view(),
            MAX_DEPTH as nat,
        ),
{
    eval_binding_groups(block, constants, MAX_DEPTH)
}

/// The value of the named argument of a call, as a string expression.
pub open spec fn string_expression_arg(call: Text, arg: Text, cs: Constants) -> Option<Text> {
    match named_arg(call_args(call), arg, 0) {
        Some(value) => string_expression(value, cs),
        None => None,
    }
}

/// The value of the named argument of a call, as a string expression.
pub fn bzl_string_expression_arg(call: &str, arg: &str, constants: &Vec<(String, String)>) -> (r:
    Option<String>)
    ensures
        r.deep_view() == string_expression_arg(call@, arg@, constants.deep_view()),
{
    match bzl_call_named_arg_value(call, arg) {
        Some(value) => bzl_string_expression_value(value.as_str(), constants),
        None => None,
    }
}

/// Each entry's value as a string expression, from `i` on.
pub open spec fn evaluate_items(
    items: Seq<(Text, Text)>,
    cs: Constants,
    i: int,
    done: Seq<(Text, Text)>,
) -> Option<Seq<(Text, Text)>>
    decreases items.len() - i,
{
    if i < 0 || i >= items.len() {
        Some(done)
    } else {
        match string_expression(trim(items[i].1), cs) {
            Some(value) => evaluate_items(items, cs, i + 1, done.push((items[i].0, value))),
            None => None,
        }
    }
}

/// The entries of a dictionary of strings.
pub open spec fn string_dict(s: Text, cs: Constants) -> Option<Seq<(Text, Text)>> {
    match dict_expression(s, cs) {
        Some(items) => evaluate_items(items, cs, 0, seq![]),
        None => None,
    }
}

/// The entries of a dictionary of strings.
pub fn bzl_string_dict_expression_items(
    expression: &str,
    constants: &Vec<(String, String)>,
) -> (r: Option<Vec<(String, String)>>)
    ensures
        r.deep_view() == string_dict(expression@, constants.deep_view()),
{
    let items = match bzl_string_dict_expression_raw_items(expression, constants) {
        Some(items) => items,
        None => {
            return None;
        },
    };
    let ghost model = items.deep_view();
    let mut out: Vec<(String, String)> = Vec::new();
    let mut i: usize = 0;
    assert(out.deep_view() =~= seq![]);
    while i < items.len()
        invariant
            model == items.deep_view(),
            0 <= i <= items@.len(),
            string_dict(expression@, constants.deep_view()) == evaluate_items(
                model,
                constants.deep_view(),
                i as int,
                out.deep_view(),
            ),
        decreases items.len() - i,
    {
        assert(model[i as int] == items@[i as int].deep_view());
        let ghost before = out.deep_view();
        match bzl_string_expression_value(trim_of(items[i].1.as_str()), constants) {
            Some(value) => {
                let ghost g = (items@[i as int].0@, value@);
                out.push((items[i].0.clone(), value));
                assert(out.deep_view() =~= before.push(g));
            },
            None => {
                return None;
            },
        }
        i += 1;
    }
    Some(out)
}

spec fn quoted(literal: Text) -> Text {
    seq!['"'] + literal + seq!['"']
}

proof fn lemma_quoted(literal: Text, after: Text)
    requires
        forall|i: int|
            0 <= i < literal.len() ==> #[trigger] literal[i] != '"' && literal[i] != '\\',
    ensures
        close_quote(quoted(literal) + after, 1) == Some(literal.len() as int + 1),
        literal_chars(quoted(literal) + after, literal.len() as int + 1) == literal,
        forall|i: int|
            1 <= i <= literal.len() + 1 ==> #[trigger] lex(quoted(literal) + after, 0, i)
                == Lex::Quoted('"'),
        lex(quoted(literal) + after, 0, literal.len() as int + 2) == Lex::Code,
{
    let s = quoted(literal) + after;
    let n = literal.len() as int;
    assert forall|j: int| 1 <= j <= n implies #[trigger] s[j] != s[0] && s[j] != '\\' by {
        assert(s[j] == literal[j - 1]);
    }
    assert(s[0] == '"' && s[n + 1] == '"');
    lemma_string_closes(s, n, 1);
    lemma_inside_string(s, n, n + 1);
    assert(s.subrange(1, n + 1) =~= literal);
    assert forall|i: int| 1 <= i <= n + 1 implies #[trigger] lex(s, 0, i) == Lex::Quoted('"') by {
        lemma_inside_string(s, n, i);
    }
}

proof fn lemma_trimmed(s: Text)
    requires
        s.len() > 0,
        !is_whitespace(s[0]),
        !is_whitespace(s.last()),
    ensures
        trim(s) == s,
        s[0] != '(' ==> strip_parens(s) == s,
{
}

/// A string literal is a string expression of what stands between its quotes, whatever the
/// constants are.
pub proof fn law_literal_expression(literal: Text, cs: Constants)
    requires
        forall|i: int|
            0 <= i < literal.len() ==> #[trigger] literal[i] != '"' && literal[i] != '\\',
    ensures
        string_expression(seq!['"'] + literal + seq!['"'], cs) == Some(literal),
{
    lemma_literal_value(literal, cs, MAX_DEPTH as nat);
}

proof fn lemma_literal_value(literal: Text, cs: Constants, n: nat)
    requires
        n > 0,
        forall|i: int|
            0 <= i < literal.len() ==> #[trigger] literal[i] != '"' && literal[i] != '\\',
    ensures
        string_expr(quoted(literal), cs, n) == Some(literal),
{
    let s = quoted(literal);
    let e: Text = seq![];
    lemma_quoted(literal, e);
    assert(s + e =~= s);
    lemma_trimmed(s);
    assert(s.skip(literal.len() as int + 2) =~= e);
    assert(trim(e) == e);
}

proof fn lemma_name_plain(name: Text, p: Text)
    requires
        is_identifier(name),
        p.len() > 0,
        !is_ident(p[0]),
    ensures
        find_top_level(name, p, 0) is None,
{
    assert forall|j: int| 0 <= j implies !#[trigger] top_level_at(name, p, j) by {
        if occurs_at(name, p, j) {
            assert(name.subrange(j, j + p.len())[0] == name[j]);
        }
    }
    law_find_top_level_first(name, p, 0);
}

proof fn lemma_no_keyword(name: Text, word: Text, i: int)
    requires
        is_identifier(name),
        0 <= i <= name.len(),
        word.len() > 0,
        name != word,
    ensures
        find_keyword(name, 0, word, 0, i) is None,
    decreases name.len() - i,
{
    if i < name.len() {
        if keyword_at(name, i, word) {
            if i > 0 {
                assert(is_ident(name[i - 1]));
            } else if word.len() < name.len() {
                assert(is_ident(name[word.len() as int]));
            } else {
                assert(name.subrange(0, word.len() as int) =~= name);
            }
        }
        lemma_no_keyword(name, word, i + 1);
    }
}

proof fn lemma_name_whole(name: Text, c: char, i: int)
    requires
        is_identifier(name),
        !is_ident(c),
        0 <= i <= name.len(),
    ensures
        split_top_level_from(name, c, 0, i) == seq![name],
    decreases name.len() - i,
{
    if i < name.len() {
        if occurs_at(name, seq![c], i) {
            assert(name.subrange(i, i + 1)[0] == name[i]);
        }
        lemma_name_whole(name, c, i + 1);
    } else {
        assert(name.subrange(0, name.len() as int) =~= name);
    }
}

/// A name stands for the constant of that name, and for nothing where there is none.
pub proof fn law_constant_expression(name: Text, literal: Text, cs: Constants)
    requires
        is_identifier(name),
        name != "if"@,
        forall|i: int|
            0 <= i < literal.len() ==> #[trigger] literal[i] != '"' && literal[i] != '\\',
    ensures
        lookup(cs, name) == Some(seq!['"'] + literal + seq!['"']) ==> string_expression(name, cs)
            == Some(literal),
        lookup(cs, name) is None ==> string_expression(name, cs) is None,
{
    reveal_strlit("if");
    reveal_strlit(".");
    assert("if"@ =~= seq!['i', 'f']);
    assert(is_ident(name[0]) && is_ident(name[name.len() - 1]));
    lemma_trimmed(name);
    lemma_no_keyword(name, seq!['i', 'f'], 0);
    lemma_name_whole(name, '+', 0);
    lemma_name_plain(name, "."@ + "format"@ + "("@);
    lemma_name_plain(name, "."@ + "replace"@ + "("@);
    assert(!is_quote(name[0]));
    assert(string_literal_value(name) is None);
    assert(method_call(name, "format"@) is None);
    assert(method_call(name, "replace"@) is None);
    assert(subscript(name) is None);
    lemma_literal_value(literal, cs, (MAX_DEPTH - 1) as nat);
}

/// The placeholders of a template are filled in turn: `{}` by the next value, `{name}` by
/// the value of that name, and the text between them stays.
pub proof fn law_format(
    before: Text,
    name: Text,
    after: Text,
    values: Seq<Text>,
    named: Seq<(Text, Text)>,
)
    requires
        !before.contains('{'),
        name.len() > 0,
        !name.contains('}'),
    ensures
        format_string(before, values, named) == Some(before),
        values.len() > 0 && format_string(after, values.skip(1), named) is Some ==> format_string(
            before + "{}"@ + after,
            values,
            named,
        ) == Some(before + values[0] + format_string(after, values.skip(1), named)->0),
        lookup(named, name) is Some && format_string(after, values, named) is Some
            ==> format_string(before + "{"@ + name + "}"@ + after, values, named) == Some(
            before + lookup(named, name)->0 + format_string(after, values, named)->0,
        ),
        lookup(named, name) is None ==> format_string(
            before + "{"@ + name + "}"@ + after,
            values,
            named,
        ) is None,
        values.len() == 0 ==> format_string(before + "{}"@ + after, values, named) is None,
{
    reveal_strlit("{}");
    reveal_strlit("{");
    reveal_strlit("}");
    let n = before.len() as int;
    assert forall|j: int| 0 <= j < n implies before[j] != '{' by {
        assert(before.contains(before[j]));
    }
    lemma_next_char(before, '{', 0);
    assert(next_char(before, '{', 0) == n);
    let s = before + "{}"@ + after;
    lemma_first_char(s, '{', 0, n);
    let rest = s.skip(n + 1);
    assert(rest =~= "}"@ + after);
    lemma_first_char(rest, '}', 0, 0);
    assert(rest.skip(1) =~= after);
    assert(s.take(n) =~= before);
    let t = before + "{"@ + name + "}"@ + after;
    lemma_first_char(t, '{', 0, n);
    let tail = t.skip(n + 1);
    let m = name.len() as int;
    assert(tail =~= name + "}"@ + after);
    assert forall|j: int| 0 <= j < m implies tail[j] != '}' by {
        assert(name.contains(name[j]));
    }
    lemma_first_char(tail, '}', 0, m);
    assert(tail.take(m) =~= name);
    assert(tail.skip(m + 1) =~= after);
    assert(t.take(n) =~= before);
}

proof fn lemma_first_char(s: Text, c: char, i: int, e: int)
    requires
        0 <= i <= e < s.len(),
        forall|j: int| i <= j < e ==> s[j] != c,
        s[e] == c,
    ensures
        next_char(s, c, i) == e,
    decreases e - i,
{
    if i < e {
        lemma_first_char(s, c, i + 1, e);
    }
}

/// A comprehension gives one value for each group of bindings, in their order, and each is
/// what the expression comes to under these bindings, which come before the constants.
pub proof fn law_comprehension_values(
    mapped: Text,
    groups: Seq<Constants>,
    cs: Constants,
    n: nat,
    i: int,
    done: Seq<Text>,
)
    requires
        0 <= i <= groups.len(),
    ensures
        mapped_values(mapped, groups, cs, n, i, done) matches Some(out) ==> {
            &&& out.len() == done.len() + groups.len() - i
            &&& forall|j: int| 0 <= j < done.len() ==> #[trigger] out[j] == done[j]
            &&& forall|j: int|
                i <= j < groups.len() ==> string_expr(mapped, #[trigger] groups[j] + cs, n) == Some(
                    out[done.len() + j - i],
                )
        },
    decreases groups.len() - i,
{
    if i < groups.len() {
        if let Some(t) = string_expr(mapped, groups[i] + cs, n) {
            let next = done.push(t);
            law_comprehension_values(mapped, groups, cs, n, i + 1, next);
            if let Some(out) = mapped_values(mapped, groups, cs, n, i, done) {
                assert(out[done.len() as int] == next[done.len() as int]);
                assert forall|j: int| 0 <= j < done.len() implies #[trigger] out[j] == done[j] by {
                    assert(out[j] == next[j]);
                }
                assert forall|j: int| i <= j < groups.len() implies string_expr(
                    mapped,
                    #[trigger] groups[j] + cs,
                    n,
                ) == Some(out[done.len() + j - i]) by {
                    if j > i {
                        assert(next.len() + j - (i + 1) == done.len() + j - i);
                    }
                }
            }
        }
    }
}

/// Rows are bound to names place by place, one group for each row, in order; a row of
/// another length than the names is refused.
pub proof fn law_rows_bound(names: Seq<Text>, rows: Seq<Seq<Text>>, i: int, done: Seq<Constants>)
    requires
        0 <= i <= rows.len(),
    ensures
        zip_rows(names, rows, i, done) is Some <==> forall|j: int|
            i <= j < rows.len() ==> (#[trigger] rows[j]).len() == names.len(),
        zip_rows(names, rows, i, done) matches Some(out) ==> {
            &&& out.len() == done.len() + rows.len() - i
            &&& forall|j: int| 0 <= j < done.len() ==> #[trigger] out[j] == done[j]
            &&& forall|j: int, k: int|
                i <= j < rows.len() && 0 <= k < names.len() ==> out[done.len() + j - i][k] == (
                    names[k],
                    #[trigger] rows[j][k],
                )
            &&& forall|j: int|
                i <= j < rows.len() ==> out[done.len() + j - i].len() == (#[trigger] rows[j]).len()
        },
    decreases rows.len() - i,
{
    if i < rows.len() {
        if rows[i].len() == names.len() {
            let group: Constants = Seq::new(names.len(), |k: int| (names[k], rows[i][k]));
            let next = done.push(group);
            law_rows_bound(names, rows, i + 1, next);
            if let Some(out) = zip_rows(names, rows, i, done) {
                assert(out[done.len() as int] == next[done.len() as int]);
                assert forall|j: int| 0 <= j < done.len() implies #[trigger] out[j] == done[j] by {
                    assert(out[j] == next[j]);
                }
                assert forall|j: int, k: int|
                    i <= j < rows.len() && 0 <= k < names.len() implies out[done.len() + j - i][k]
                    == (names[k], #[trigger] rows[j][k]) by {
                    if j > i {
                        assert(next.len() + j - (i + 1) == done.len() + j - i);
                        assert(out[next.len() + j - (i + 1)][k] == (names[k], rows[j][k]));
                    } else {
                        assert(done.len() + j - i == done.len());
                        assert(out[done.len() as int] == group);
                        assert(group[k] == (names[k], rows[i][k]));
                    }
                }
                assert forall|j: int| i <= j < rows.len() implies out[done.len() + j - i].len() == (
                #[trigger] rows[j]).len() by {
                    if j > i {
                        assert(next.len() + j - (i + 1) == done.len() + j - i);
                    } else {
                        assert(done.len() + j - i == done.len());
                        assert(out[done.len() as int] == group);
                    }
                }
            }
        } else {
            assert(rows[i].len() != names.len());
        }
    }
}

proof fn lemma_trim_around(x: Text)
    requires
        x.len() > 0,
        !is_whitespace(x[0]),
        !is_whitespace(x.last()),
    ensures
        trim(x) == x,
        trim(x + seq![' ']) == x,
        trim(seq![' '] + x) == x,
        trim(seq![' '] + x + seq![' ']) == x,
{
    let e = x + seq![' '];
    assert(e[0] == x[0] && e.last() == ' ' && e.drop_last() =~= x);
    let b = seq![' '] + x;
    assert(b[0] == ' ' && b.skip(1) =~= x);
    let c = seq![' '] + x + seq![' '];
    assert(c[0] == ' ' && c.skip(1) =~= e);
    reveal_with_fuel(trim_start, 2);
    reveal_with_fuel(trim_end, 2);
}

/// What follows a string literal, as long as it is plain, stands outside strings and
/// brackets, and nothing of the literal does.
proof fn lemma_behind_literal(a: Text, rest: Text, m: int, i: int)
    requires
        forall|j: int| 0 <= j < a.len() ==> #[trigger] a[j] != '"' && a[j] != '\\',
        0 <= m <= rest.len(),
        forall|j: int| 0 <= j < m ==> !is_quote(#[trigger] rest[j]) && bracket(rest[j]) == 0,
        0 <= i <= a.len() + 2 + m,
    ensures
        nest(quoted(a) + rest, 0, i) == 0,
        i < a.len() + 2 ==> !code_at(quoted(a) + rest, 0, i),
        i >= a.len() + 2 ==> lex(quoted(a) + rest, 0, i) == Lex::Code,
    decreases i,
{
    let s = quoted(a) + rest;
    lemma_quoted(a, rest);
    assert(s[0] == '"');
    if i > 0 {
        lemma_behind_literal(a, rest, m, i - 1);
        if i > a.len() + 2 {
            assert(s[i - 1] == rest[i - 1 - (a.len() + 2)]);
        }
        if i < a.len() + 2 {
            assert(lex(s, 0, i) == Lex::Quoted('"'));
        }
    }
}

/// Two string literals that are compared are equal where their texts are: `==` is true
/// then, and `!=` is false.
pub proof fn law_comparison(a: Text, b: Text, cs: Constants, n: nat)
    requires
        n > 1,
        forall|i: int| 0 <= i < a.len() ==> #[trigger] a[i] != '"' && a[i] != '\\',
        forall|i: int| 0 <= i < b.len() ==> #[trigger] b[i] != '"' && b[i] != '\\' && b[i] != '=',
    ensures
        bool_expr(
            seq!['"'] + a + seq!['"'] + " == "@ + seq!['"'] + b + seq!['"'],
            cs,
            n,
        ) == Some(a == b),
        bool_expr(
            seq!['"'] + a + seq!['"'] + " != "@ + seq!['"'] + b + seq!['"'],
            cs,
            n,
        ) == Some(a != b),
{
    reveal_strlit(" == ");
    reveal_strlit(" != ");
    reveal_strlit("==");
    reveal_strlit("!=");
    reveal_strlit("True");
    reveal_strlit("False");
    lemma_compared(a, b, '=', cs, n);
    lemma_compared(a, b, '!', cs, n);
    assert(seq!['"'] + a + seq!['"'] + " == "@ + seq!['"'] + b + seq!['"'] =~= quoted(a)
        + compared_rest('=', b));
    assert(seq!['"'] + a + seq!['"'] + " != "@ + seq!['"'] + b + seq!['"'] =~= quoted(a)
        + compared_rest('!', b));
}

spec fn compared_rest(c: char, b: Text) -> Text {
    seq![' ', c, '=', ' '] + quoted(b)
}

proof fn lemma_compared(a: Text, b: Text, c: char, cs: Constants, n: nat)
    requires
        n > 1,
        c == '=' || c == '!',
        forall|i: int| 0 <= i < a.len() ==> #[trigger] a[i] != '"' && a[i] != '\\',
        forall|i: int| 0 <= i < b.len() ==> #[trigger] b[i] != '"' && b[i] != '\\' && b[i] != '=',
    ensures
        bool_expr(quoted(a) + compared_rest(c, b), cs, n) == Some((a == b) == (c == '=')),
{
    reveal_strlit("==");
    reveal_strlit("!=");
    reveal_strlit("True");
    reveal_strlit("False");
    let rest = compared_rest(c, b);
    let s = quoted(a) + rest;
    let k = a.len() as int + 3;
    let word = seq![c, '='];
    lemma_trimmed(s);
    assert(s[0] == '"');
    assert(s != "True"@ && s != "False"@) by {
        assert("True"@[0] == 'T' && "False"@[0] == 'F');
    }
    assert forall|j: int| 0 <= j < 4 implies !is_quote(#[trigger] rest[j]) && bracket(rest[j])
        == 0 by {}
    lemma_behind_literal(a, rest, 4, k);
    assert(s[k] == c && s[k + 1] == '=' && s[k - 1] == ' ' && s[k + 2] == ' ');
    assert(s.subrange(k, k + 2) =~= word);
    assert(code_at(s, 0, k));
    assert(top_level_at(s, word, k));
    let equal = "=="@;
    let differ = "!="@;
    assert(equal =~= seq!['=', '='] && differ =~= seq!['!', '=']);
    assert forall|p: Text, j: int|
        (p == equal || p == differ) && 0 <= j && j != k implies !#[trigger] top_level_at(
        s,
        p,
        j,
    ) by {
        if occurs_at(s, p, j) {
            assert(s.subrange(j, j + 2)[0] == s[j] && s.subrange(j, j + 2)[1] == s[j + 1]);
            if j < k - 1 {
                lemma_behind_literal(a, rest, 4, j);
            } else if j > k {
                assert(s[j + 1] == '=');
                let at = j + 1 - (a.len() + 2);
                assert(s[j + 1] == rest[at]);
                if at >= 5 && at < 5 + b.len() {
                    assert(rest[at] == b[at - 5]);
                }
            }
        }
    }
    assert(!(c == '!' && top_level_at(s, equal, k))) by {
        assert(s.subrange(k, k + 2)[0] == c);
    }
    assert(!(c == '=' && top_level_at(s, differ, k))) by {
        assert(s.subrange(k, k + 2)[0] == c);
    }
    law_find_top_level_first(s, equal, 0);
    law_find_top_level_first(s, differ, 0);
    lemma_trim_around(quoted(a));
    lemma_trim_around(quoted(b));
    assert(s.take(k) =~= quoted(a) + seq![' ']);
    assert(s.skip(k + 2) =~= seq![' '] + quoted(b));
    lemma_literal_value(a, cs, (n - 1) as nat);
    lemma_literal_value(b, cs, (n - 1) as nat);
}

proof fn lemma_keyword_found(s: Text, a: int, word: Text, i: int, k: int)
    requires
        0 <= a <= i <= k < s.len(),
        code_at(s, a, k) && nest(s, a, k) == 0 && keyword_at(s, k, word),
        forall|j: int|
            i <= j < k ==> !(code_at(s, a, j) && #[trigger] keyword_at(s, j, word)),
    ensures
        find_keyword(s, a, word, 0, i) == Some(k),
    decreases k - i,
{
    if i < k {
        assert(!(code_at(s, a, i) && keyword_at(s, i, word)));
        lemma_keyword_found(s, a, word, i + 1, k);
    }
}

proof fn lemma_plain_from(s: Text, a: int, n: int, i: int)
    requires
        0 <= a <= i <= n <= s.len(),
        forall|j: int| a <= j < n ==> !is_quote(#[trigger] s[j]) && bracket(s[j]) == 0,
    ensures
        lex(s, a, i) == Lex::Code,
        nest(s, a, i) == 0,
    decreases i - a,
{
    if i > a {
        lemma_plain_from(s, a, n, i - 1);
        assert(!is_quote(s[i - 1]));
    }
}

spec fn choice_rest(condition: Text, b: Text) -> Text {
    seq![' ', 'i', 'f', ' '] + condition + seq![' ', 'e', 'l', 's', 'e', ' '] + quoted(b)
}

proof fn lemma_choice_plain(condition: Text, b: Text)
    requires
        forall|i: int|
            0 <= i < condition.len() ==> !is_quote(#[trigger] condition[i]) && bracket(condition[i])
                == 0,
    ensures
        forall|j: int|
            0 <= j < condition.len() + 10 ==> !is_quote(#[trigger] choice_rest(condition, b)[j])
                && bracket(choice_rest(condition, b)[j]) == 0,
{
    let rest = choice_rest(condition, b);
    assert forall|j: int| 0 <= j < condition.len() + 10 implies !is_quote(#[trigger] rest[j])
        && bracket(rest[j]) == 0 by {
        if 4 <= j < 4 + condition.len() {
            assert(rest[j] == condition[j - 4]);
        }
    }
}

proof fn lemma_choice_if(a: Text, condition: Text, b: Text)
    requires
        forall|i: int| 0 <= i < a.len() ==> #[trigger] a[i] != '"' && a[i] != '\\',
        forall|i: int|
            0 <= i < condition.len() ==> !is_quote(#[trigger] condition[i]) && bracket(condition[i])
                == 0,
    ensures
        find_keyword(quoted(a) + choice_rest(condition, b), 0, seq!['i', 'f'], 0, 0) == Some(
            a.len() as int + 3,
        ),
{
    let rest = choice_rest(condition, b);
    let s = quoted(a) + rest;
    let m = condition.len() as int + 10;
    let k = a.len() as int + 3;
    let word = seq!['i', 'f'];
    lemma_choice_plain(condition, b);
    lemma_behind_literal(a, rest, m, k);
    assert(s.subrange(k, k + 2) =~= word);
    assert(s[k - 1] == ' ' && s[k] == 'i' && s[k + 2] == ' ');
    assert(keyword_at(s, k, word));
    assert forall|j: int| 0 <= j < k implies !(code_at(s, 0, j) && #[trigger] keyword_at(
        s,
        j,
        word,
    )) by {
        lemma_behind_literal(a, rest, m, j);
        if j == k - 1 && occurs_at(s, word, j) {
            assert(s.subrange(j, j + 2)[0] == s[j]);
        }
    }
    lemma_keyword_found(s, 0, word, 0, k);
}

proof fn lemma_choice_else(a: Text, condition: Text, b: Text)
    requires
        forall|i: int|
            0 <= i < condition.len() ==> !is_quote(#[trigger] condition[i]) && bracket(condition[i])
                == 0,
        forall|i: int| !#[trigger] occurs_at(condition, "else"@, i),
    ensures
        find_keyword(
            quoted(a) + choice_rest(condition, b),
            a.len() as int + 5,
            seq!['e', 'l', 's', 'e'],
            0,
            a.len() as int + 5,
        ) == Some(a.len() as int + 7 + condition.len()),
{
    let rest = choice_rest(condition, b);
    let s = quoted(a) + rest;
    let from = a.len() as int + 5;
    let e = from + 2 + condition.len() as int;
    let word = seq!['e', 'l', 's', 'e'];
    reveal_strlit("else");
    assert("else"@ =~= word);
    lemma_choice_plain(condition, b);
    assert forall|j: int| from <= j < e + 4 implies !is_quote(#[trigger] s[j]) && bracket(s[j])
        == 0 by {
        assert(s[j] == rest[j - (a.len() + 2)]);
    }
    lemma_plain_from(s, from, e + 4, e);
    assert(s.subrange(e, e + 4) =~= word);
    assert(s[e - 1] == ' ' && s[e] == 'e' && s[e + 4] == ' ');
    assert(keyword_at(s, e, word));
    assert forall|j: int| from <= j < e implies !(code_at(s, from, j) && #[trigger] keyword_at(
        s,
        j,
        word,
    )) by {
        if occurs_at(s, word, j) {
            let w = s.subrange(j, j + 4);
            assert(w[0] == s[j] && w[1] == s[j + 1] && w[2] == s[j + 2] && w[3] == s[j + 3]);
            assert(s[from] == ' ');
            if j + 4 < e {
                let at = j - (from + 1);
                assert(condition.subrange(at, at + 4) =~= word);
                assert(occurs_at(condition, "else"@, at));
            }
        }
    }
    lemma_keyword_found(s, from, word, from, e);
}

proof fn lemma_choice_no_literal(a: Text, condition: Text, b: Text)
    requires
        forall|i: int| 0 <= i < a.len() ==> #[trigger] a[i] != '"' && a[i] != '\\',
    ensures
        strip_parens(quoted(a) + choice_rest(condition, b)) == quoted(a) + choice_rest(
            condition,
            b,
        ),
        string_literal_value(quoted(a) + choice_rest(condition, b)) is None,
{
    let rest = choice_rest(condition, b);
    let s = quoted(a) + rest;
    lemma_trimmed(s);
    lemma_quoted(a, rest);
    let tail = s.skip(a.len() as int + 2);
    assert(tail =~= rest);
    assert(tail.last() == '"');
    lemma_some_left(tail);
}

/// Of a choice between two string literals the first counts where the condition holds, and
/// the second where it does not.
pub proof fn law_conditional_string(a: Text, condition: Text, b: Text, cs: Constants)
    requires
        forall|i: int| 0 <= i < a.len() ==> #[trigger] a[i] != '"' && a[i] != '\\',
        forall|i: int| 0 <= i < b.len() ==> #[trigger] b[i] != '"' && b[i] != '\\',
        condition.len() > 0,
        !is_whitespace(condition[0]),
        !is_whitespace(condition.last()),
        forall|i: int|
            0 <= i < condition.len() ==> !is_quote(#[trigger] condition[i]) && bracket(condition[i])
                == 0,
        forall|i: int| !#[trigger] occurs_at(condition, "else"@, i),
    ensures
        ({
            let s = seq!['"'] + a + seq!['"'] + " if "@ + condition + " else "@ + seq!['"'] + b
                + seq!['"'];
            &&& bool_expr(condition, cs, (MAX_DEPTH - 1) as nat) == Some(true)
                ==> string_expression(s, cs) == Some(a)
            &&& bool_expr(condition, cs, (MAX_DEPTH - 1) as nat) == Some(false)
                ==> string_expression(s, cs) == Some(b)
        }),
{
    reveal_strlit(" if ");
    reveal_strlit(" else ");
    let n = MAX_DEPTH as nat;
    let s = quoted(a) + choice_rest(condition, b);
    assert(seq!['"'] + a + seq!['"'] + " if "@ + condition + " else "@ + seq!['"'] + b + seq!['"']
        =~= s);
    let k = a.len() as int + 3;
    let e = k + 4 + condition.len() as int;
    lemma_choice_no_literal(a, condition, b);
    lemma_choice_if(a, condition, b);
    lemma_choice_else(a, condition, b);
    assert(if_else(s) == Some((k, e)));
    lemma_trim_around(quoted(a));
    lemma_trim_around(quoted(b));
    lemma_trim_around(condition);
    assert(s.subrange(k + 2, e) =~= seq![' '] + condition + seq![' ']);
    assert(s.take(k) =~= quoted(a) + seq![' ']);
    assert(s.skip(e + 4) =~= seq![' '] + quoted(b));
    lemma_literal_value(a, cs, (n - 1) as nat);
    lemma_literal_value(b, cs, (n - 1) as nat);
}

proof fn lemma_some_left(s: Text)
    requires
        s.len() > 0,
        !is_whitespace(s.last()),
    ensures
        trim(s).len() > 0,
    decreases s.len(),
{
    if is_whitespace(s[0]) {
        assert(s.len() > 1);
        assert(s.skip(1).last() == s.last());
        lemma_some_left(s.skip(1));
        assert(trim(s) == trim(s.skip(1)));
    }
}

/// The clauses of a comprehension are loops within each other: what an inner clause binds
/// extends each group of the outer ones, and all that it binds under one group comes before
/// what it binds under the next.
pub proof fn law_loops_in_turn(
    clause: ForClauseModel,
    groups: Seq<Constants>,
    i: int,
    next: Seq<Constants>,
    cs: Constants,
    n: nat,
)
    requires
        0 <= i < groups.len(),
    ensures
        expand_groups(clause, groups, i, next, cs, n) matches Some(out) ==> {
            &&& clause_bindings(clause, groups[i] + cs, n) is Some
            &&& next.len() + clause_bindings(clause, groups[i] + cs, n)->0.len() <= out.len()
            &&& forall|j: int| 0 <= j < next.len() ==> #[trigger] out[j] == next[j]
            &&& forall|k: int|
                0 <= k < clause_bindings(clause, groups[i] + cs, n)->0.len() ==> out[next.len() + k]
                    == groups[i] + #[trigger] clause_bindings(clause, groups[i] + cs, n)->0[k]
        },
    decreases groups.len() - i,
{
    if let Some(options) = clause_bindings(clause, groups[i] + cs, n) {
        let more = next + extend_group(groups[i], options);
        if let Some(out) = expand_groups(clause, groups, i, next, cs, n) {
            if i + 1 < groups.len() {
                law_loops_in_turn(clause, groups, i + 1, more, cs, n);
            } else {
                reveal_with_fuel(expand_groups, 2);
                assert(out == more);
            }
            assert forall|j: int| 0 <= j < next.len() implies #[trigger] out[j] == next[j] by {
                assert(out[j] == more[j]);
            }
            assert forall|k: int| 0 <= k < options.len() implies out[next.len() + k] == groups[i]
                + #[trigger] options[k] by {
                assert(out[next.len() + k] == more[next.len() + k]);
            }
        }
    }
}

/// A clause with one name binds it to each item of its iterable in turn.
pub proof fn law_one_name_bound(clause: ForClauseModel, cs: Constants, n: nat)
    requires
        clause.names.len() == 1,
    ensures
        clause_bindings(clause, cs, n) is Some <==> iterable_values(clause.expression, cs, n)
            is Some,
        clause_bindings(clause, cs, n) matches Some(groups) ==> {
            let values = iterable_values(clause.expression, cs, n)->0;
            &&& groups.len() == values.len()
            &&& forall|k: int|
                0 <= k < values.len() ==> #[trigger] groups[k] == seq![(clause.names[0], values[k])]
        },
{
}

} // verus!
