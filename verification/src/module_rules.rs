//! Repository rules, toolchains and the root module of a `MODULE.bazel` file,
//! and the checks that its lines undergo.

use vstd::prelude::*;
use vstd::string::*;
use crate::blocks::{
    Balance, assignments, bare_line, bzl_top_level_assignments, bzlmod_module_constants_from_lines,
    call_texts, calls, collect_bzl_calls, constants_of,
};
use crate::calls::{
    arg_is_none, bool_arg, bzl_bool_arg, bzl_call_args, bzl_repo_name_arg, bzl_string_arg,
    repo_name_arg, string_arg,
};
use crate::expr::{
    Constants, MAX_DEPTH, bzl_constants_with_bindings, bzl_string_expression_value,
    bzl_string_expression_values, find_constant, list_body, list_body_of, list_items, list_items_of,
    string_expression, string_exprs,
};
use crate::json::{json_quoted, quote_json};
use crate::module::{
    BzlmodExtensionUsage, BzlmodExtensionUsageModel, BzlmodUseRepoRuleInvocation,
    BzlmodUseRepoRuleInvocationModel, InputError, RootBzlmodModule, RootBzlmodModuleModel,
};
use crate::module_file::{CollectedCall, collect_bzl_list_comprehension_calls, comprehension_calls};
use crate::module_usages::{
    bzlmod_extension_usages_from_lines, extension_usages, file_and_name, file_and_name_of,
};
use crate::ordered::{
    KeyMap, KeySet, dedup, dedup_preserve_order, lookup, result_view, sort_and_dedup, sort_stable,
    sorted_set_of, stable_sort,
};
use crate::scan::{
    assignment, bzl_top_level_assignment, call_args, delimiter_delta, is_bzl_identifier,
    is_identifier, nest, strip_bzl_comment, without_comment,
};
use crate::text::{
    Text, concat, concat3, decimal, join, join_of, lines, nat_text, same, starts_with, trim,
    trim_of, trim_start, trim_start_of,
};

verus! {

/// A string that reads as a label.
pub open spec fn looks_like_label(s: Text) -> bool {
    "@"@.is_prefix_of(s) || "//"@.is_prefix_of(s) || ":"@.is_prefix_of(s)
}

/// Whether a string reads as a label.
pub fn bzlmod_string_looks_like_label(value: &str) -> (r: bool)
    ensures
        r == looks_like_label(value@),
{
    starts_with(value, "@") || starts_with(value, "//") || starts_with(value, ":")
}

/// The expression that stands for a string attribute of a repository rule.
pub open spec fn string_attr(s: Text) -> Text {
    if looks_like_label(s) {
        "Label("@ + json_quoted(s) + ")"@
    } else {
        json_quoted(s)
    }
}

/// The expression that stands for a string attribute of a repository rule.
pub fn bzlmod_repository_rule_string_attr_expression(value: &str) -> (r: String)
    ensures
        r@ == string_attr(value@),
{
    let serialized = quote_json(value);
    if bzlmod_string_looks_like_label(value) {
        concat3("Label(", serialized.as_str(), ")")
    } else {
        serialized
    }
}

/// Each string as an attribute expression.
pub open spec fn string_attrs(values: Seq<Text>) -> Seq<Text> {
    Seq::new(values.len(), |i: int| string_attr(values[i]))
}

/// The items of a list of strings, or of a constant that is one, as attribute
/// expressions.
pub open spec fn string_list_attr(value: Text, cs: Constants) -> Option<Seq<Text>> {
    let v = match lookup(cs, value) {
        Some(constant) if is_identifier(value) => constant,
        _ => value,
    };
    match list_body(trim(v)) {
        Some(body) => match string_exprs(list_items(body), cs, MAX_DEPTH as nat, 0, seq![]) {
            Some(values) => Some(string_attrs(values)),
            None => None,
        },
        None => None,
    }
}

/// The items of a list of strings as attribute expressions.
pub fn bzlmod_repository_rule_string_list_attr_expression(
    value: &str,
    constants: &Vec<(String, String)>,
) -> (r: Option<Vec<String>>)
    ensures
        r.deep_view() == string_list_attr(value@, constants.deep_view()),
{
    let v = if is_bzl_identifier(value) {
        match find_constant(constants, value) {
            Some(constant) => constant.as_str(),
            None => value,
        }
    } else {
        value
    };
    let body = match list_body_of(trim_of(v)) {
        Some(body) => body,
        None => {
            return None;
        },
    };
    let items = list_items_of(body);
    let values = match bzl_string_expression_values(&items, constants) {
        Some(values) => values,
        None => {
            return None;
        },
    };
    let ghost model = string_attrs(values.deep_view());
    let mut out: Vec<String> = Vec::new();
    let mut i: usize = 0;
    while i < values.len()
        invariant
            model == string_attrs(values.deep_view()),
            0 <= i <= values@.len(),
            out.deep_view() =~= model.take(i as int),
        decreases values.len() - i,
    {
        let ghost before = out.deep_view();
        assert(values.deep_view()[i as int] == values@[i as int]@);
        out.push(bzlmod_repository_rule_string_attr_expression(values[i].as_str()));
        assert(out.deep_view() =~= before.push(model[i as int]));
        i += 1;
    }
    assert(model.take(i as int) =~= model);
    Some(out)
}

/// The expression that stands for an attribute of a repository rule: strings and
/// lists of strings evaluated, anything else as written.
pub open spec fn attr_expression(value: Text, cs: Constants) -> Text {
    let v = trim(value);
    match string_expression(v, cs) {
        Some(s) => string_attr(s),
        None => match string_list_attr(v, cs) {
            Some(values) => "["@ + join(values, ", "@) + "]"@,
            None => v,
        },
    }
}

/// The expression that stands for an attribute of a repository rule.
pub fn bzlmod_repository_rule_attr_expression(
    value: &str,
    constants: &Vec<(String, String)>,
) -> (r: String)
    ensures
        r@ == attr_expression(value@, constants.deep_view()),
{
    let v = trim_of(value);
    match bzl_string_expression_value(v, constants) {
        Some(s) => bzlmod_repository_rule_string_attr_expression(s.as_str()),
        None => match bzlmod_repository_rule_string_list_attr_expression(v, constants) {
            Some(values) => concat3("[", join_of(&values, ", ").as_str(), "]"),
            None => v.to_owned(),
        },
    }
}

/// The name of an attribute that a repository rule gets: an identifier, and none
/// of those that say how the repository is declared.
pub open spec fn is_rule_attr(name: Text) -> bool {
    is_identifier(name) && name != "name"@ && name != "dev_dependency"@ && name != "visibility"@
}

/// The attributes that arguments of a repository rule give.
pub open spec fn rule_attrs(args: Seq<Text>, cs: Constants) -> Seq<(Text, Text)>
    decreases args.len(),
{
    if args.len() == 0 {
        seq![]
    } else {
        let before = rule_attrs(args.drop_last(), cs);
        match assignment(args.last()) {
            Some((name, value)) if is_rule_attr(trim(name)) => before.push(
                (trim(name), attr_expression(trim(value), cs)),
            ),
            _ => before,
        }
    }
}

fn rule_attrs_from(args: &Vec<String>, constants: &Vec<(String, String)>) -> (r: Vec<
    (String, String),
>)
    ensures
        r.deep_view() == rule_attrs(args.deep_view(), constants.deep_view()),
{
    let ghost model = args.deep_view();
    let mut out: Vec<(String, String)> = Vec::new();
    let mut i: usize = 0;
    while i < args.len()
        invariant
            model == args.deep_view(),
            0 <= i <= args@.len(),
            out.deep_view() =~= rule_attrs(model.take(i as int), constants.deep_view()),
        decreases args.len() - i,
    {
        let ghost before = out.deep_view();
        proof {
            let t = model.take(i + 1);
            assert(t.drop_last() =~= model.take(i as int));
            assert(t.last() == args@[i as int]@);
        }
        match bzl_top_level_assignment(args[i].as_str()) {
            Some((name, value)) => {
                let name = trim_of(name);
                if is_bzl_identifier(name) && !same(name, "name") && !same(name, "dev_dependency")
                    && !same(name, "visibility") {
                    let value = bzlmod_repository_rule_attr_expression(trim_of(value), constants);
                    let ghost g = (name@, value@);
                    out.push((name.to_owned(), value));
                    assert(out.deep_view() =~= before.push(g));
                }
            },
            None => {},
        }
        i += 1;
    }
    assert(model.take(i as int) =~= model);
    out
}

/// The names bound to repository rules, each with the rule's file and name.
pub open spec fn rule_bindings(items: Seq<(Text, Text)>) -> Seq<(Text, (Text, Text))>
    decreases items.len(),
{
    if items.len() == 0 {
        seq![]
    } else {
        let before = rule_bindings(items.drop_last());
        let (name, value) = items.last();
        match file_and_name(value) {
            Some(rule) if is_identifier(trim(name)) && "use_repo_rule("@.is_prefix_of(
                trim_start(value),
            ) => before.push((trim(name), rule)),
            _ => before,
        }
    }
}

/// The message for a repository without a literal name.
pub open spec fn unnamed_repo_message(call: Text) -> Text {
    "use_repo_rule invocation must have a literal string `name`: "@ + call
}

/// The repositories that the calls from `i` on of one rule declare, after those
/// already found; the message where one has no literal name.
pub open spec fn rule_invocations(
    calls: Seq<Text>,
    rule: (Text, Text),
    cs: Constants,
    ignore_dev: bool,
    i: int,
    done: Seq<BzlmodUseRepoRuleInvocationModel>,
) -> Result<Seq<BzlmodUseRepoRuleInvocationModel>, Text>
    decreases calls.len() - i,
{
    if i < 0 || i >= calls.len() {
        Ok(done)
    } else if ignore_dev && bool_arg(calls[i], "dev_dependency"@) {
        rule_invocations(calls, rule, cs, ignore_dev, i + 1, done)
    } else {
        match string_arg(calls[i], "name"@) {
            None => Err(unnamed_repo_message(calls[i])),
            Some(repo_name) => rule_invocations(
                calls,
                rule,
                cs,
                ignore_dev,
                i + 1,
                done.push(
                    BzlmodUseRepoRuleInvocationModel {
                        rule_bzl_file: rule.0,
                        rule_name: rule.1,
                        repo_name,
                        attrs: stable_sort::<String, Text>(rule_attrs(call_args(calls[i]), cs)),
                    },
                ),
            ),
        }
    }
}

/// The repositories that the rules bound from `b` on declare.
pub open spec fn all_invocations(
    bindings: Seq<(Text, (Text, Text))>,
    lines: Seq<Text>,
    cs: Constants,
    ignore_dev: bool,
    b: int,
    done: Seq<BzlmodUseRepoRuleInvocationModel>,
) -> Result<Seq<BzlmodUseRepoRuleInvocationModel>, Text>
    decreases bindings.len() - b,
{
    if b < 0 || b >= bindings.len() {
        Ok(done)
    } else {
        match rule_invocations(
            call_texts(calls(lines, bindings[b].0 + "("@, 0)),
            bindings[b].1,
            cs,
            ignore_dev,
            0,
            done,
        ) {
            Ok(next) => all_invocations(bindings, lines, cs, ignore_dev, b + 1, next),
            Err(message) => Err(message),
        }
    }
}

/// The repositories that a module file declares by repository rules, each once,
/// in order.
pub open spec fn repo_rule_invocations(lines: Seq<Text>, cs: Constants, ignore_dev: bool) -> Result<
    Seq<BzlmodUseRepoRuleInvocationModel>,
    Text,
> {
    match all_invocations(
        rule_bindings(assignments(lines, 0)),
        lines,
        cs,
        ignore_dev,
        0,
        seq![],
    ) {
        Ok(found) => Ok(sorted_set_of::<BzlmodUseRepoRuleInvocation>(found)),
        Err(message) => Err(message),
    }
}

fn rule_bindings_from(items: &Vec<(String, String)>) -> (r: Vec<(String, (String, String))>)
    ensures
        r.deep_view() == rule_bindings(items.deep_view()),
{
    let ghost model = items.deep_view();
    let mut out: Vec<(String, (String, String))> = Vec::new();
    let mut i: usize = 0;
    while i < items.len()
        invariant
            model == items.deep_view(),
            0 <= i <= items@.len(),
            out.deep_view() =~= rule_bindings(model.take(i as int)),
        decreases items.len() - i,
    {
        let ghost before = out.deep_view();
        proof {
            let t = model.take(i + 1);
            assert(t.drop_last() =~= model.take(i as int));
            assert(t.last() == items@[i as int].deep_view());
        }
        let name = trim_of(items[i].0.as_str());
        let value = items[i].1.as_str();
        if is_bzl_identifier(name) && starts_with(trim_start_of(value), "use_repo_rule(") {
            match file_and_name_of(value) {
                Some(rule) => {
                    let ghost g = (name@, rule.deep_view());
                    out.push((name.to_owned(), rule));
                    assert(out.deep_view() =~= before.push(g));
                },
                None => {},
            }
        }
        i += 1;
    }
    assert(model.take(i as int) =~= model);
    out
}

fn push_rule_invocations(
    out: &mut Vec<BzlmodUseRepoRuleInvocation>,
    found: &Vec<String>,
    rule: &(String, String),
    constants: &Vec<(String, String)>,
    ignore_dev_dependency: bool,
) -> (r: Result<(), InputError>)
    ensures
        match rule_invocations(
            found.deep_view(),
            rule.deep_view(),
            constants.deep_view(),
            ignore_dev_dependency,
            0,
            old(out).deep_view(),
        ) {
            Ok(next) => r is Ok && final(out).deep_view() == next,
            Err(message) => r matches Err(e) && e.deep_view() == message,
        },
{
    let ghost model = found.deep_view();
    let ghost first = out.deep_view();
    let mut i: usize = 0;
    while i < found.len()
        invariant
            model == found.deep_view(),
            0 <= i <= found@.len(),
            first == old(out).deep_view(),
            rule_invocations(
                model,
                rule.deep_view(),
                constants.deep_view(),
                ignore_dev_dependency,
                0,
                first,
            ) == rule_invocations(
                model,
                rule.deep_view(),
                constants.deep_view(),
                ignore_dev_dependency,
                i as int,
                out.deep_view(),
            ),
        decreases found.len() - i,
    {
        assert(model[i as int] == found@[i as int]@);
        let call = found[i].as_str();
        if !(ignore_dev_dependency && bzl_bool_arg(call, "dev_dependency")) {
            match bzl_string_arg(call, "name") {
                Some(repo_name) => {
                    let ghost before = out.deep_view();
                    let args = bzl_call_args(call);
                    let item = BzlmodUseRepoRuleInvocation {
                        rule_bzl_file: rule.0.clone(),
                        rule_name: rule.1.clone(),
                        repo_name,
                        attrs: sort_stable(rule_attrs_from(&args, constants)),
                    };
                    let ghost g = item.deep_view();
                    out.push(item);
                    assert(out.deep_view() =~= before.push(g));
                },
                None => {
                    return Err(
                        InputError {
                            message: concat(
                                "use_repo_rule invocation must have a literal string `name`: ",
                                call,
                            ),
                        },
                    );
                },
            }
        }
        i += 1;
    }
    Ok(())
}

/// The repositories that a module file declares by repository rules.
pub fn bzlmod_use_repo_rule_invocations_from_lines(
    lines: &Vec<String>,
    constants: &Vec<(String, String)>,
    ignore_dev_dependency: bool,
) -> (r: Result<Vec<BzlmodUseRepoRuleInvocation>, InputError>)
    ensures
        result_view(r) == repo_rule_invocations(
            lines.deep_view(),
            constants.deep_view(),
            ignore_dev_dependency,
        ),
{
    let items = bzl_top_level_assignments(lines);
    let bindings = rule_bindings_from(&items);
    let ghost model = bindings.deep_view();
    let mut out: Vec<BzlmodUseRepoRuleInvocation> = Vec::new();
    let mut b: usize = 0;
    assert(out.deep_view() =~= seq![]);
    while b < bindings.len()
        invariant
            model == rule_bindings(assignments(lines.deep_view(), 0)),
            model == bindings.deep_view(),
            0 <= b <= bindings@.len(),
            all_invocations(
                model,
                lines.deep_view(),
                constants.deep_view(),
                ignore_dev_dependency,
                0,
                seq![],
            ) == all_invocations(
                model,
                lines.deep_view(),
                constants.deep_view(),
                ignore_dev_dependency,
                b as int,
                out.deep_view(),
            ),
        decreases bindings.len() - b,
    {
        assert(model[b as int] == bindings@[b as int].deep_view());
        let function = concat(bindings[b].0.as_str(), "(");
        let found = collect_bzl_calls(lines, function.as_str());
        match push_rule_invocations(
            &mut out,
            &found,
            &bindings[b].1,
            constants,
            ignore_dev_dependency,
        ) {
            Ok(_) => {},
            Err(e) => {
                return Err(e);
            },
        }
        b += 1;
    }
    Ok(sort_and_dedup(&out))
}

/// The values of the arguments that are string expressions.
pub open spec fn string_args(args: Seq<Text>, cs: Constants) -> Seq<Text>
    decreases args.len(),
{
    if args.len() == 0 {
        seq![]
    } else {
        let before = string_args(args.drop_last(), cs);
        match string_expression(trim(args.last()), cs) {
            Some(value) => before.push(value),
            None => before,
        }
    }
}

/// The toolchains that `register_toolchains` calls name.
pub open spec fn plain_toolchains(calls: Seq<Text>, cs: Constants, ignore_dev: bool) -> Seq<Text>
    decreases calls.len(),
{
    if calls.len() == 0 {
        seq![]
    } else {
        let before = plain_toolchains(calls.drop_last(), cs, ignore_dev);
        if ignore_dev && bool_arg(calls.last(), "dev_dependency"@) {
            before
        } else {
            before + string_args(call_args(calls.last()), cs)
        }
    }
}

/// The toolchains that calls in comprehensions name, each under its bindings.
pub open spec fn expanded_toolchains(calls: Seq<CollectedCall>, cs: Constants, ignore_dev: bool) -> Seq<
    Text,
>
    decreases calls.len(),
{
    if calls.len() == 0 {
        seq![]
    } else {
        let before = expanded_toolchains(calls.drop_last(), cs, ignore_dev);
        let last = calls.last();
        if ignore_dev && bool_arg(last.call, "dev_dependency"@) {
            before
        } else {
            before + string_args(call_args(last.call), last.bindings + cs)
        }
    }
}

/// The toolchains that a module file registers, each once, in order.
pub open spec fn registered_toolchains(lines: Seq<Text>, ignore_dev: bool) -> Seq<Text> {
    let cs = constants_of(assignments(lines, 0));
    dedup(
        plain_toolchains(call_texts(calls(lines, "register_toolchains("@, 0)), cs, ignore_dev)
            + expanded_toolchains(
            comprehension_calls(lines, "register_toolchains("@, cs, 0),
            cs,
            ignore_dev,
        ),
    )
}

fn push_string_args(out: &mut Vec<String>, call: &str, constants: &Vec<(String, String)>)
    ensures
        final(out).deep_view() == old(out).deep_view() + string_args(
            call_args(call@),
            constants.deep_view(),
        ),
{
    let args = bzl_call_args(call);
    let ghost model = args.deep_view();
    let ghost first = out.deep_view();
    let mut i: usize = 0;
    assert(first + seq![] =~= first);
    while i < args.len()
        invariant
            model == args.deep_view(),
            0 <= i <= args@.len(),
            out.deep_view() =~= first + string_args(model.take(i as int), constants.deep_view()),
        decreases args.len() - i,
    {
        let ghost before = out.deep_view();
        proof {
            let t = model.take(i + 1);
            assert(t.drop_last() =~= model.take(i as int));
            assert(t.last() == args@[i as int]@);
        }
        match bzl_string_expression_value(trim_of(args[i].as_str()), constants) {
            Some(value) => {
                let ghost g = value@;
                out.push(value);
                assert(out.deep_view() =~= before.push(g));
            },
            None => {},
        }
        i += 1;
    }
    assert(model.take(i as int) =~= model);
}

/// The toolchains that a module file registers.
pub fn bzlmod_registered_toolchains_from_lines(lines: &Vec<String>, ignore_dev_dependency: bool) -> (r:
    Vec<String>)
    ensures
        r.deep_view() == registered_toolchains(lines.deep_view(), ignore_dev_dependency),
{
    let constants = bzlmod_module_constants_from_lines(lines);
    let ghost cs = constants.deep_view();
    let found = collect_bzl_calls(lines, "register_toolchains(");
    let ghost model = found.deep_view();
    let mut out: Vec<String> = Vec::new();
    let mut i: usize = 0;
    while i < found.len()
        invariant
            cs == constants.deep_view(),
            model == found.deep_view(),
            0 <= i <= found@.len(),
            out.deep_view() =~= plain_toolchains(model.take(i as int), cs, ignore_dev_dependency),
        decreases found.len() - i,
    {
        proof {
            let t = model.take(i + 1);
            assert(t.drop_last() =~= model.take(i as int));
            assert(t.last() == found@[i as int]@);
        }
        if !(ignore_dev_dependency && bzl_bool_arg(found[i].as_str(), "dev_dependency")) {
            push_string_args(&mut out, found[i].as_str(), &constants);
        }
        i += 1;
    }
    assert(model.take(i as int) =~= model);
    let expanded = collect_bzl_list_comprehension_calls(lines, "register_toolchains(", &constants);
    let ghost exp = expanded.deep_view();
    let ghost plain = out.deep_view();
    let mut j: usize = 0;
    assert(plain + seq![] =~= plain);
    while j < expanded.len()
        invariant
            cs == constants.deep_view(),
            exp == expanded.deep_view(),
            0 <= j <= expanded@.len(),
            out.deep_view() =~= plain + expanded_toolchains(
                exp.take(j as int),
                cs,
                ignore_dev_dependency,
            ),
        decreases expanded.len() - j,
    {
        proof {
            let t = exp.take(j + 1);
            assert(t.drop_last() =~= exp.take(j as int));
            assert(t.last() == expanded@[j as int].deep_view());
        }
        if !(ignore_dev_dependency && bzl_bool_arg(expanded[j].call.as_str(), "dev_dependency")) {
            let scope = bzl_constants_with_bindings(&constants, &expanded[j].bindings);
            push_string_args(&mut out, expanded[j].call.as_str(), &scope);
        }
        j += 1;
    }
    assert(exp.take(j as int) =~= exp);
    dedup_preserve_order(&mut out);
    out
}

/// Name, version and repository name of the root module.
pub struct RootNames {
    pub name: Text,
    pub version: Text,
    pub repo_name: Text,
}

/// What the `module` calls say of the root module: the last word counts, and
/// `root` where nothing is said.
pub open spec fn root_names(calls: Seq<Text>) -> RootNames
    decreases calls.len(),
{
    if calls.len() == 0 {
        RootNames { name: "root"@, version: seq![], repo_name: "root"@ }
    } else {
        let before = root_names(calls.drop_last());
        let call = calls.last();
        let name = match string_arg(call, "name"@) {
            Some(name) if name.len() > 0 => name,
            _ => before.name,
        };
        let version = match string_arg(call, "version"@) {
            Some(version) => version,
            None => before.version,
        };
        let repo_name = match repo_name_arg(call, name) {
            Some(repo_name) if repo_name.len() > 0 => repo_name,
            _ => before.repo_name,
        };
        RootNames { name, version, repo_name }
    }
}

/// The root module as its module file describes it.
pub open spec fn root_module(lines: Seq<Text>) -> Result<RootBzlmodModuleModel, Text> {
    let names = root_names(call_texts(calls(lines, "module("@, 0)));
    let constants = constants_of(assignments(lines, 0));
    match repo_rule_invocations(lines, constants, false) {
        Ok(use_repo_rule_invocations) => Ok(
            RootBzlmodModuleModel {
                name: names.name,
                version: names.version,
                repo_name: names.repo_name,
                canonical_repo_name: seq![],
                lockfile_extension_generated_repos: seq![],
                lockfile_extension_facts: seq![],
                constants,
                extension_usages: extension_usages(lines, constants, false),
                use_repo_rule_invocations,
                registered_toolchains: registered_toolchains(lines, false),
            },
        ),
        Err(message) => Err(message),
    }
}

/// The root module as its module file describes it.
pub fn bzlmod_root_module_from_lines(lines: &Vec<String>) -> (r: Result<
    RootBzlmodModule,
    InputError,
>)
    ensures
        result_view(r) == root_module(lines.deep_view()),
{
    let found = collect_bzl_calls(lines, "module(");
    let ghost model = found.deep_view();
    let mut name = "root".to_owned();
    let mut version = String::new();
    let mut repo_name = "root".to_owned();
    let mut i: usize = 0;
    assert(version@ =~= seq![]);
    while i < found.len()
        invariant
            model == found.deep_view(),
            0 <= i <= found@.len(),
            root_names(model.take(i as int)) == (RootNames {
                name: name@,
                version: version@,
                repo_name: repo_name@,
            }),
        decreases found.len() - i,
    {
        proof {
            let t = model.take(i + 1);
            assert(t.drop_last() =~= model.take(i as int));
            assert(t.last() == found@[i as int]@);
        }
        let call = found[i].as_str();
        match bzl_string_arg(call, "name") {
            Some(module_name) => {
                if !module_name.as_str().is_empty() {
                    name = module_name;
                }
            },
            None => {},
        }
        match bzl_string_arg(call, "version") {
            Some(module_version) => {
                version = module_version;
            },
            None => {},
        }
        match bzl_repo_name_arg(call, name.as_str()) {
            Some(module_repo_name) => {
                if !module_repo_name.as_str().is_empty() {
                    repo_name = module_repo_name;
                }
            },
            None => {},
        }
        i += 1;
    }
    assert(model.take(i as int) =~= model);
    let constants = bzlmod_module_constants_from_lines(lines);
    let extension_usages = bzlmod_extension_usages_from_lines(lines, &constants, false);
    let use_repo_rule_invocations = match bzlmod_use_repo_rule_invocations_from_lines(
        lines,
        &constants,
        false,
    ) {
        Ok(found) => found,
        Err(e) => {
            return Err(e);
        },
    };
    let registered_toolchains = bzlmod_registered_toolchains_from_lines(lines, false);
    let canonical_repo_name = String::new();
    assert(canonical_repo_name@ =~= seq![]);
    Ok(
        RootBzlmodModule {
            name,
            version,
            repo_name,
            canonical_repo_name,
            lockfile_extension_generated_repos: KeyMap::new(),
            lockfile_extension_facts: KeySet::new(),
            constants,
            extension_usages,
            use_repo_rule_invocations,
            registered_toolchains,
        },
    )
}

/// Why a statement may not start a line of a module file.
pub open spec fn statement_refusal(line: Text) -> Option<Text> {
    if "load("@.is_prefix_of(line) || "load "@.is_prefix_of(line) {
        Some("load statements are not allowed"@)
    } else if "def "@.is_prefix_of(line) {
        Some("def statements are not allowed"@)
    } else if "if "@.is_prefix_of(line) {
        Some("if statements are not allowed"@)
    } else if "for "@.is_prefix_of(line) {
        Some("for statements are not allowed"@)
    } else if "while "@.is_prefix_of(line) {
        Some("while statements are not allowed"@)
    } else if line == "return"@ || "return "@.is_prefix_of(line) {
        Some("return statements are not allowed"@)
    } else {
        None
    }
}

/// The message for a line that a module file may not have.
pub open spec fn syntax_message(file: Text, line: int, what: Text) -> Text {
    "Invalid MODULE.bazel syntax in `"@ + file + "` at line "@ + nat_text(line as nat) + ": "@ + what
}

/// The brackets open after the first `i` lines.
pub open spec fn open_brackets(lines: Seq<Text>, i: int) -> int
    decreases i,
{
    if i <= 0 {
        0
    } else {
        let line = without_comment(lines[i - 1]);
        open_brackets(lines, i - 1) + nest(line, 0, line.len() as int)
    }
}

/// What is wrong with the lines from `i` on: a statement that is not allowed
/// outside brackets, or brackets that do not match.
pub open spec fn lines_error(file: Text, lines: Seq<Text>, i: int) -> Option<Text>
    decreases lines.len() - i,
{
    if i < 0 || i >= lines.len() {
        if open_brackets(lines, i) != 0 {
            Some("Invalid MODULE.bazel syntax in `"@ + file + "`: unclosed delimiter"@)
        } else {
            None
        }
    } else {
        let refusal = statement_refusal(bare_line(lines[i]));
        if open_brackets(lines, i) == 0 && refusal is Some {
            Some(syntax_message(file, i + 1, refusal->0))
        } else if open_brackets(lines, i + 1) < 0 {
            Some(syntax_message(file, i + 1, "unmatched closing delimiter"@))
        } else {
            lines_error(file, lines, i + 1)
        }
    }
}

fn refusal_of(line: &str) -> (r: Option<String>)
    ensures
        r.deep_view() == statement_refusal(line@),
{
    if starts_with(line, "load(") || starts_with(line, "load ") {
        Some("load statements are not allowed".to_owned())
    } else if starts_with(line, "def ") {
        Some("def statements are not allowed".to_owned())
    } else if starts_with(line, "if ") {
        Some("if statements are not allowed".to_owned())
    } else if starts_with(line, "for ") {
        Some("for statements are not allowed".to_owned())
    } else if starts_with(line, "while ") {
        Some("while statements are not allowed".to_owned())
    } else if same(line, "return") || starts_with(line, "return ") {
        Some("return statements are not allowed".to_owned())
    } else {
        None
    }
}

fn syntax_error(file: &str, line: usize, what: &str) -> (r: InputError)
    ensures
        r.deep_view() == syntax_message(file@, line as int, what@),
{
    let mut message = concat3("Invalid MODULE.bazel syntax in `", file, "` at line ");
    message.append(decimal(line as u128).as_str());
    message.append(": ");
    message.append(what);
    InputError { message }
}

/// Checks the lines of a module file: no statements but calls and assignments,
/// and brackets that match.
pub fn validate_bzlmod_module_lines(module_file: &str, lines: &Vec<String>) -> (r: Result<
    (),
    InputError,
>)
    ensures
        match lines_error(module_file@, lines.deep_view(), 0) {
            None => r is Ok,
            Some(message) => r matches Err(e) && e.deep_view() == message,
        },
{
    let ghost model = lines.deep_view();
    let n: usize = lines.len();
    let mut balance = Balance { opened: 0, closed: 0 };
    let mut i: usize = 0;
    while i < n
        invariant
            n == lines@.len(),
            model == lines.deep_view(),
            0 <= i <= n,
            balance.bounded(i as int),
            balance.value() == open_brackets(model, i as int),
            lines_error(module_file@, model, 0) == lines_error(module_file@, model, i as int),
        decreases n - i,
    {
        assert(model[i as int] == lines@[i as int]@);
        let line = strip_bzl_comment(lines[i].as_str());
        let trimmed = trim_start_of(line.as_str());
        if balance.opened == balance.closed {
            match refusal_of(trimmed) {
                Some(what) => {
                    return Err(syntax_error(module_file, i + 1, what.as_str()));
                },
                None => {},
            }
        }
        balance.include_line(delimiter_delta(line.as_str()), Ghost(i as int));
        if balance.opened < balance.closed {
            return Err(syntax_error(module_file, i + 1, "unmatched closing delimiter"));
        }
        i += 1;
    }
    if balance.opened != balance.closed {
        return Err(
            InputError {
                message: concat3(
                    "Invalid MODULE.bazel syntax in `",
                    module_file,
                    "`: unclosed delimiter",
                ),
            },
        );
    }
    Ok(())
}

/// The names under which the usages import repositories.
pub open spec fn usage_aliases(usages: Seq<BzlmodExtensionUsageModel>) -> Seq<Text>
    decreases usages.len(),
{
    if usages.len() == 0 {
        seq![]
    } else {
        let imports = usages.last().imports;
        usage_aliases(usages.drop_last()) + Seq::new(imports.len(), |i: int| imports[i].alias)
    }
}

/// The names under which the usages import repositories.
pub fn bzlmod_use_repo_aliases_from_usages(usages: &Vec<BzlmodExtensionUsage>) -> (r: Vec<String>)
    ensures
        r.deep_view() == usage_aliases(usages.deep_view()),
{
    let ghost model = usages.deep_view();
    let mut out: Vec<String> = Vec::new();
    let mut i: usize = 0;
    while i < usages.len()
        invariant
            model == usages.deep_view(),
            0 <= i <= usages@.len(),
            out.deep_view() =~= usage_aliases(model.take(i as int)),
        decreases usages.len() - i,
    {
        let ghost before = out.deep_view();
        proof {
            let t = model.take(i + 1);
            assert(t.drop_last() =~= model.take(i as int));
            assert(t.last() == usages@[i as int].deep_view());
        }
        let imports = &usages[i].imports;
        let ghost im = imports.deep_view();
        let ghost names = Seq::new(im.len(), |k: int| im[k].alias);
        let mut j: usize = 0;
        while j < imports.len()
            invariant
                im == imports.deep_view(),
                names == Seq::new(im.len(), |k: int| im[k].alias),
                0 <= j <= imports@.len(),
                out.deep_view() =~= before + names.take(j as int),
            decreases imports.len() - j,
        {
            let ghost so_far = out.deep_view();
            assert(im[j as int] == imports@[j as int].deep_view());
            out.push(imports[j].alias.clone());
            assert(out.deep_view() =~= so_far.push(names[j as int]));
            j += 1;
        }
        assert(names.take(j as int) =~= names);
        assert(names =~= Seq::new(
            model[i as int].imports.len(),
            |k: int| model[i as int].imports[k].alias,
        ));
        i += 1;
    }
    assert(model.take(i as int) =~= model);
    out
}

/// Where development dependencies do not count, the toolchains are those of the calls that
/// are not marked as such.
pub proof fn law_dev_toolchains(calls: Seq<Text>, cs: Constants)
    ensures
        plain_toolchains(calls, cs, true) == plain_toolchains(
            calls.filter(|call: Text| !bool_arg(call, "dev_dependency"@)),
            cs,
            false,
        ),
    decreases calls.len(),
{
    reveal(Seq::filter);
    let lasting = |call: Text| !bool_arg(call, "dev_dependency"@);
    if calls.len() > 0 {
        let before = calls.drop_last();
        law_dev_toolchains(before, cs);
        if lasting(calls.last()) {
            let kept = before.filter(lasting).push(calls.last());
            assert(calls.filter(lasting) == kept);
            assert(kept.drop_last() =~= before.filter(lasting));
        }
    }
}

/// Where development dependencies count, each call registers the strings among its
/// arguments, behind those of the calls before it, whatever it says of itself; and
/// whatever is registered where they do not count is registered where they do.
pub proof fn law_registered_in_turn(calls: Seq<Text>, call: Text, cs: Constants, toolchain: Text)
    ensures
        plain_toolchains(calls.push(call), cs, false) == plain_toolchains(calls, cs, false)
            + string_args(call_args(call), cs),
        plain_toolchains(calls, cs, true).contains(toolchain) ==> plain_toolchains(
            calls,
            cs,
            false,
        ).contains(toolchain),
    decreases calls.len(),
{
    assert(calls.push(call).drop_last() =~= calls);
    if calls.len() > 0 {
        let before = calls.drop_last();
        law_registered_in_turn(before, call, cs, toolchain);
        let a = plain_toolchains(before, cs, true);
        let b = plain_toolchains(before, cs, false);
        let more = string_args(call_args(calls.last()), cs);
        if plain_toolchains(calls, cs, true).contains(toolchain) {
            if a.contains(toolchain) {
                let i = choose|i: int| 0 <= i < b.len() && b[i] == toolchain;
                assert((b + more)[i] == toolchain);
            } else {
                let all = a + more;
                let i = choose|i: int| 0 <= i < all.len() && all[i] == toolchain;
                if i < a.len() {
                    assert(a[i] == toolchain);
                }
                assert((b + more)[b.len() + (i - a.len())] == toolchain);
            }
        }
    }
}

/// Where development dependencies do not count, the repositories are those of the calls
/// that are not marked as such.
pub proof fn law_dev_repositories(
    calls: Seq<Text>,
    rule: (Text, Text),
    cs: Constants,
    done: Seq<BzlmodUseRepoRuleInvocationModel>,
)
    requires
        forall|i: int|
            0 <= i < calls.len() ==> string_arg(#[trigger] calls[i], "name"@) is Some,
    ensures
        rule_invocations(calls, rule, cs, true, 0, done) == rule_invocations(
            calls.filter(|call: Text| !bool_arg(call, "dev_dependency"@)),
            rule,
            cs,
            false,
            0,
            done,
        ),
        rule_invocations(calls, rule, cs, false, 0, done) matches Ok(found) && found.len()
            == done.len() + calls.len() && forall|i: int|
            0 <= i < calls.len() ==> Some((#[trigger] found[done.len() + i]).repo_name)
                == string_arg(calls[i], "name"@) && found[done.len() + i].rule_bzl_file == rule.0
                && found[done.len() + i].rule_name == rule.1,
{
    let lasting = |call: Text| !bool_arg(call, "dev_dependency"@);
    let kept = calls.filter(lasting);
    lemma_invocations(calls, rule, cs, true, 0, done);
    lemma_kept_named(calls);
    lemma_invocations(kept, rule, cs, false, 0, done);
    lemma_invocations(calls, rule, cs, false, 0, done);
    assert(calls.skip(0) =~= calls && kept.skip(0) =~= kept);
    lemma_invoked_kept(calls, rule, cs);
    lemma_invoked_all(calls, rule, cs);
    lemma_invoked_all(kept, rule, cs);
}

proof fn lemma_kept_named(calls: Seq<Text>)
    requires
        forall|i: int|
            0 <= i < calls.len() ==> string_arg(#[trigger] calls[i], "name"@) is Some,
    ensures
        ({
            let kept = calls.filter(|call: Text| !bool_arg(call, "dev_dependency"@));
            forall|i: int| 0 <= i < kept.len() ==> string_arg(#[trigger] kept[i], "name"@) is Some
        }),
    decreases calls.len(),
{
    reveal(Seq::filter);
    if calls.len() > 0 {
        let before = calls.drop_last();
        assert forall|i: int| 0 <= i < before.len() implies string_arg(
            #[trigger] before[i],
            "name"@,
        ) is Some by {
            assert(calls[i] == before[i]);
        }
        assert(calls[calls.len() - 1] == calls.last());
        lemma_kept_named(before);
    }
}

spec fn invocation(call: Text, rule: (Text, Text), cs: Constants) -> BzlmodUseRepoRuleInvocationModel {
    BzlmodUseRepoRuleInvocationModel {
        rule_bzl_file: rule.0,
        rule_name: rule.1,
        repo_name: string_arg(call, "name"@)->0,
        attrs: stable_sort::<String, Text>(rule_attrs(call_args(call), cs)),
    }
}

spec fn invoked(calls: Seq<Text>, rule: (Text, Text), cs: Constants, ignore_dev: bool) -> Seq<
    BzlmodUseRepoRuleInvocationModel,
>
    decreases calls.len(),
{
    if calls.len() == 0 {
        seq![]
    } else {
        let before = invoked(calls.drop_last(), rule, cs, ignore_dev);
        if ignore_dev && bool_arg(calls.last(), "dev_dependency"@) {
            before
        } else {
            before.push(invocation(calls.last(), rule, cs))
        }
    }
}

proof fn lemma_invoked_all(calls: Seq<Text>, rule: (Text, Text), cs: Constants)
    ensures
        invoked(calls, rule, cs, false) == Seq::new(
            calls.len(),
            |i: int| invocation(calls[i], rule, cs),
        ),
    decreases calls.len(),
{
    let all = Seq::new(calls.len(), |i: int| invocation(calls[i], rule, cs));
    if calls.len() > 0 {
        lemma_invoked_all(calls.drop_last(), rule, cs);
    }
    assert(invoked(calls, rule, cs, false) =~= all);
}

proof fn lemma_invoked_kept(calls: Seq<Text>, rule: (Text, Text), cs: Constants)
    ensures
        invoked(calls, rule, cs, true) == invoked(
            calls.filter(|call: Text| !bool_arg(call, "dev_dependency"@)),
            rule,
            cs,
            false,
        ),
    decreases calls.len(),
{
    reveal(Seq::filter);
    let lasting = |call: Text| !bool_arg(call, "dev_dependency"@);
    if calls.len() > 0 {
        let before = calls.drop_last();
        lemma_invoked_kept(before, rule, cs);
        if lasting(calls.last()) {
            let kept = before.filter(lasting).push(calls.last());
            assert(calls.filter(lasting) == kept);
            assert(kept.drop_last() =~= before.filter(lasting));
        }
    }
}

proof fn lemma_invoked_first(calls: Seq<Text>, rule: (Text, Text), cs: Constants, ignore_dev: bool)
    requires
        calls.len() > 0,
    ensures
        invoked(calls, rule, cs, ignore_dev) == (if ignore_dev && bool_arg(
            calls[0],
            "dev_dependency"@,
        ) {
            seq![]
        } else {
            seq![invocation(calls[0], rule, cs)]
        }) + invoked(calls.skip(1), rule, cs, ignore_dev),
    decreases calls.len(),
{
    let rest = calls.skip(1);
    if calls.len() > 1 {
        lemma_invoked_first(calls.drop_last(), rule, cs, ignore_dev);
        assert(calls.drop_last().skip(1) =~= rest.drop_last());
        assert(rest.last() == calls.last());
    } else {
        assert(calls.drop_last() =~= seq![]);
        assert(rest =~= seq![]);
        assert(calls.last() == calls[0]);
    }
    assert(invoked(calls, rule, cs, ignore_dev) =~= (if ignore_dev && bool_arg(
        calls[0],
        "dev_dependency"@,
    ) {
        seq![]
    } else {
        seq![invocation(calls[0], rule, cs)]
    }) + invoked(rest, rule, cs, ignore_dev));
}

proof fn lemma_invocations(
    calls: Seq<Text>,
    rule: (Text, Text),
    cs: Constants,
    ignore_dev: bool,
    i: int,
    done: Seq<BzlmodUseRepoRuleInvocationModel>,
)
    requires
        0 <= i <= calls.len(),
        forall|i: int|
            0 <= i < calls.len() ==> string_arg(#[trigger] calls[i], "name"@) is Some,
    ensures
        rule_invocations(calls, rule, cs, ignore_dev, i, done) == Ok::<
            Seq<BzlmodUseRepoRuleInvocationModel>,
            Text,
        >(done + invoked(calls.skip(i), rule, cs, ignore_dev)),
    decreases calls.len() - i,
{
    let rest = calls.skip(i);
    if i < calls.len() {
        lemma_invoked_first(rest, rule, cs, ignore_dev);
        assert(rest[0] == calls[i]);
        assert(rest.skip(1) =~= calls.skip(i + 1));
        assert(string_arg(calls[i], "name"@) is Some);
        if ignore_dev && bool_arg(calls[i], "dev_dependency"@) {
            lemma_invocations(calls, rule, cs, ignore_dev, i + 1, done);
            assert(done + invoked(calls.skip(i + 1), rule, cs, ignore_dev) =~= done + invoked(
                rest,
                rule,
                cs,
                ignore_dev,
            ));
        } else {
            let next = done.push(invocation(calls[i], rule, cs));
            lemma_invocations(calls, rule, cs, ignore_dev, i + 1, next);
            assert(next + invoked(calls.skip(i + 1), rule, cs, ignore_dev) =~= done + invoked(
                rest,
                rule,
                cs,
                ignore_dev,
            ));
        }
    } else {
        assert(rest =~= seq![]);
        assert(done + invoked(rest, rule, cs, ignore_dev) =~= done);
    }
}

/// A repository gets the arguments of its rule that are not about its declaration, each
/// under its own name.
pub proof fn law_rule_attributes(args: Seq<Text>, cs: Constants, name: Text)
    ensures
        (exists|i: int|
            0 <= i < rule_attrs(args, cs).len() && (#[trigger] rule_attrs(args, cs)[i]).0 == name)
            <==> (exists|i: int|
            0 <= i < args.len() && assignment(#[trigger] args[i]) is Some && trim(
                (assignment(args[i])->0).0,
            ) == name) && is_identifier(name) && name != "name"@ && name != "dev_dependency"@
            && name != "visibility"@,
    decreases args.len(),
{
    let all = rule_attrs(args, cs);
    if args.len() > 0 {
        let init = args.drop_last();
        let before = rule_attrs(init, cs);
        law_rule_attributes(init, cs, name);
        assert(args.last() == args[args.len() - 1]);
        assert forall|i: int| 0 <= i < init.len() implies args[i] == #[trigger] init[i] by {}
        if exists|i: int| 0 <= i < before.len() && (#[trigger] before[i]).0 == name {
            let i = choose|i: int| 0 <= i < before.len() && (#[trigger] before[i]).0 == name;
            assert(all[i].0 == name);
        }
        if exists|i: int|
            0 <= i < init.len() && assignment(#[trigger] init[i]) is Some && trim(
                (assignment(init[i])->0).0,
            ) == name {
            let i = choose|i: int|
                0 <= i < init.len() && assignment(#[trigger] init[i]) is Some && trim(
                    (assignment(init[i])->0).0,
                ) == name;
            assert(assignment(args[i]) is Some);
        }
        if exists|i: int| 0 <= i < all.len() && (#[trigger] all[i]).0 == name {
            let i = choose|i: int| 0 <= i < all.len() && (#[trigger] all[i]).0 == name;
            if i < before.len() {
                assert(before[i].0 == name);
            }
        }
        if exists|i: int|
            0 <= i < args.len() && assignment(#[trigger] args[i]) is Some && trim(
                (assignment(args[i])->0).0,
            ) == name {
            let i = choose|i: int|
                0 <= i < args.len() && assignment(#[trigger] args[i]) is Some && trim(
                    (assignment(args[i])->0).0,
                ) == name;
            if i < init.len() {
                assert(assignment(init[i]) is Some);
            } else if is_rule_attr(name) {
                assert(all.last().0 == name);
                assert(all[all.len() - 1].0 == name);
            }
        }
    }
}

/// The name and the version of the root module are what its last `module` call says, as far
/// as it says anything; it is called `root` where nothing is said.
pub proof fn law_root_module_names(calls: Seq<Text>, call: Text)
    ensures
        root_names(seq![]).name == "root"@,
        root_names(seq![]).repo_name == "root"@,
        root_names(seq![]).version.len() == 0,
        string_arg(call, "name"@) matches Some(name) ==> name.len() > 0 ==> root_names(
            calls.push(call),
        ).name == name,
        string_arg(call, "name"@) is None ==> root_names(calls.push(call)).name == root_names(
            calls,
        ).name,
        string_arg(call, "version"@) matches Some(version) ==> root_names(
            calls.push(call),
        ).version == version,
        string_arg(call, "version"@) is None ==> root_names(calls.push(call)).version
            == root_names(calls).version,
        string_arg(call, "repo_name"@) matches Some(name) ==> name.len() > 0 && !arg_is_none(
            call,
            "repo_name"@,
        ) ==> root_names(calls.push(call)).repo_name == name,
{
    assert(calls.push(call).drop_last() =~= calls);
    assert(calls.push(call).last() == call);
}

/// In the root module all that its file declares counts, what is only for its development
/// too.
pub proof fn law_root_counts_development(lines: Seq<Text>)
    ensures
        root_module(lines) matches Ok(root) ==> {
            &&& root.registered_toolchains == registered_toolchains(lines, false)
            &&& Ok::<Seq<BzlmodUseRepoRuleInvocationModel>, Text>(root.use_repo_rule_invocations)
                == repo_rule_invocations(lines, root.constants, false)
            &&& root.extension_usages == extension_usages(lines, root.constants, false)
        },
{
}

} // verus!
