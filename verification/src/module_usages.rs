//! Extension usages, repository rules and toolchains that a `MODULE.bazel` file
//! declares.

use vstd::prelude::*;
use vstd::string::*;
use crate::blocks::{
    assignments, bzl_top_level_assignments, call_texts, calls, collect_bzl_calls,
    collect_bzl_calls_with_order,
};
use crate::calls::{bool_arg, bzl_bool_arg, bzl_call_args, bzl_string_value};
use crate::expr::{
    Constants, bzl_string_dict_expression_items, bzl_string_expression_value, string_dict,
    string_expression,
};
use crate::module::{
    BzlmodExtensionTag, BzlmodExtensionTagModel, BzlmodExtensionUsage, BzlmodExtensionUsageModel,
    BzlmodRepoOverride, BzlmodRepoOverrideModel, BzlmodUseRepoImportModel,
};
use crate::module_file::{
    BZL_CALL_ORDER_STRIDE, BzlmodCollectedTagCall, CollectedCall, bzlmod_extension_imports,
    collect_bzl_list_comprehension_calls, comprehension_calls, extension_imports, first_arg_is,
    first_arg_is_name, imports_of, rest_args,
};
use crate::ordered::{
    Duplicate, law_sorted_set_of, lookup, sort_and_dedup, sort_stable, sorted_set_of, stable_sort,
};
use crate::scan::{
    assignment, bzl_top_level_assignment, call_args, is_bzl_identifier, is_ident, is_identifier,
    positions_as_int, string_value,
};
use crate::text::{
    Text, concat, lemma_split_at_char, lemma_strip_put_prefix, lines, same, split_once,
    split_once_of, starts_with, strip_prefix, strip_prefix_of, trim, trim_of, trim_start,
    trim_start_of,
};

verus! {

/// The overrides that dictionary entries stand for.
pub open spec fn overrides_from_items(items: Seq<(Text, Text)>, must_exist: bool) -> Seq<
    BzlmodRepoOverrideModel,
> {
    Seq::new(
        items.len(),
        |i: int|
            BzlmodRepoOverrideModel {
                repo_name: items[i].0,
                overriding_repo_name: items[i].1,
                must_exist,
            },
    )
}

/// The overrides that one argument of `override_repo` or `inject_repo` declares:
/// `**` and a dictionary, `name = other`, or a name that stands for itself.
pub open spec fn overrides_of_arg(arg: Text, cs: Constants, must_exist: bool) -> Seq<
    BzlmodRepoOverrideModel,
> {
    if arg.len() == 0 {
        seq![]
    } else if "**"@.is_prefix_of(arg) {
        match string_dict(trim(arg.skip("**"@.len() as int)), cs) {
            Some(items) => overrides_from_items(items, must_exist),
            None => seq![],
        }
    } else {
        match assignment(arg) {
            Some((name, other)) => match string_expression(trim(other), cs) {
                Some(overriding_repo_name) if is_identifier(trim(name)) => seq![
                    BzlmodRepoOverrideModel {
                        repo_name: trim(name),
                        overriding_repo_name,
                        must_exist,
                    },
                ],
                _ => seq![],
            },
            None => match string_expression(arg, cs) {
                Some(name) => seq![
                    BzlmodRepoOverrideModel {
                        repo_name: name,
                        overriding_repo_name: name,
                        must_exist,
                    },
                ],
                None => seq![],
            },
        }
    }
}

/// The overrides that the arguments declare, in order.
pub open spec fn overrides_of(args: Seq<Text>, cs: Constants, must_exist: bool) -> Seq<
    BzlmodRepoOverrideModel,
>
    decreases args.len(),
{
    if args.len() == 0 {
        seq![]
    } else {
        overrides_of(args.drop_last(), cs, must_exist) + overrides_of_arg(
            trim(args.last()),
            cs,
            must_exist,
        )
    }
}

fn overrides_from_arg(arg: &str, constants: &Vec<(String, String)>, must_exist: bool) -> (r: Vec<
    BzlmodRepoOverride,
>)
    ensures
        r.deep_view() == overrides_of_arg(arg@, constants.deep_view(), must_exist),
{
    let mut out: Vec<BzlmodRepoOverride> = Vec::new();
    assert(out.deep_view() =~= seq![]);
    if arg.is_empty() {
        return out;
    }
    match strip_prefix_of(arg, "**") {
        Some(dict) => {
            match bzl_string_dict_expression_items(trim_of(dict), constants) {
                Some(items) => {
                    let ghost model = overrides_from_items(items.deep_view(), must_exist);
                    let mut i: usize = 0;
                    while i < items.len()
                        invariant
                            model == overrides_from_items(items.deep_view(), must_exist),
                            0 <= i <= items@.len(),
                            out.deep_view() =~= model.take(i as int),
                        decreases items.len() - i,
                    {
                        let ghost before = out.deep_view();
                        assert(items.deep_view()[i as int] == items@[i as int].deep_view());
                        out.push(
                            BzlmodRepoOverride {
                                repo_name: items[i].0.clone(),
                                overriding_repo_name: items[i].1.clone(),
                                must_exist,
                            },
                        );
                        assert(out.deep_view() =~= before.push(model[i as int]));
                        i += 1;
                    }
                    assert(model.take(i as int) =~= model);
                },
                None => {},
            }
            return out;
        },
        None => {},
    }
    match bzl_top_level_assignment(arg) {
        Some((name, other)) => {
            let name = trim_of(name);
            if is_bzl_identifier(name) {
                match bzl_string_expression_value(trim_of(other), constants) {
                    Some(overriding_repo_name) => {
                        out.push(
                            BzlmodRepoOverride {
                                repo_name: name.to_owned(),
                                overriding_repo_name,
                                must_exist,
                            },
                        );
                    },
                    None => {},
                }
            }
        },
        None => match bzl_string_expression_value(arg, constants) {
            Some(name) => {
                out.push(
                    BzlmodRepoOverride {
                        overriding_repo_name: name.clone(),
                        repo_name: name,
                        must_exist,
                    },
                );
            },
            None => {},
        },
    }
    assert(out.deep_view() =~= overrides_of_arg(arg@, constants.deep_view(), must_exist));
    out
}

fn append_overrides(out: &mut Vec<BzlmodRepoOverride>, more: Vec<BzlmodRepoOverride>)
    ensures
        final(out).deep_view() == old(out).deep_view() + more.deep_view(),
{
    let mut more = more;
    let ghost a = out.deep_view();
    let ghost b = more.deep_view();
    out.append(&mut more);
    assert(out.deep_view() =~= a + b);
}

/// The overrides that a call declares.
pub fn bzl_repo_overrides_from_call(
    call: &str,
    constants: &Vec<(String, String)>,
    must_exist: bool,
) -> (r: Vec<BzlmodRepoOverride>)
    ensures
        r.deep_view() == overrides_of(
            rest_args(call_args(call@)),
            constants.deep_view(),
            must_exist,
        ),
{
    let args = bzl_call_args(call);
    let ghost rest = rest_args(args.deep_view());
    let mut out: Vec<BzlmodRepoOverride> = Vec::new();
    if args.len() == 0 {
        assert(out.deep_view() =~= seq![]);
        return out;
    }
    let mut i: usize = 1;
    while i < args.len()
        invariant
            rest == args.deep_view().skip(1),
            1 <= i <= args@.len(),
            out.deep_view() =~= overrides_of(rest.take(i - 1), constants.deep_view(), must_exist),
        decreases args.len() - i,
    {
        proof {
            let t = rest.take(i as int);
            assert(t.drop_last() =~= rest.take(i - 1));
            assert(t.last() == args@[i as int]@);
        }
        append_overrides(
            &mut out,
            overrides_from_arg(trim_of(args[i].as_str()), constants, must_exist),
        );
        i += 1;
    }
    assert(rest.take(i - 1) =~= rest);
    out
}

/// The overrides of the calls for one extension.
pub open spec fn call_overrides(
    calls: Seq<Text>,
    proxy_name: Text,
    cs: Constants,
    must_exist: bool,
) -> Seq<BzlmodRepoOverrideModel>
    decreases calls.len(),
{
    if calls.len() == 0 {
        seq![]
    } else {
        let before = call_overrides(calls.drop_last(), proxy_name, cs, must_exist);
        if first_arg_is(calls.last(), proxy_name) {
            before + overrides_of(rest_args(call_args(calls.last())), cs, must_exist)
        } else {
            before
        }
    }
}

/// The overrides that a module file declares for an extension, each once, in
/// order.
pub open spec fn extension_overrides(lines: Seq<Text>, proxy_name: Text, cs: Constants) -> Seq<
    BzlmodRepoOverrideModel,
> {
    sorted_set_of::<BzlmodRepoOverride>(
        call_overrides(call_texts(calls(lines, "override_repo("@, 0)), proxy_name, cs, true)
            + call_overrides(call_texts(calls(lines, "inject_repo("@, 0)), proxy_name, cs, false),
    )
}

fn overrides_by(
    lines: &Vec<String>,
    function: &str,
    proxy_name: &str,
    constants: &Vec<(String, String)>,
    must_exist: bool,
) -> (r: Vec<BzlmodRepoOverride>)
    ensures
        r.deep_view() == call_overrides(
            call_texts(calls(lines.deep_view(), function@, 0)),
            proxy_name@,
            constants.deep_view(),
            must_exist,
        ),
{
    let found = collect_bzl_calls(lines, function);
    let ghost model = found.deep_view();
    let mut out: Vec<BzlmodRepoOverride> = Vec::new();
    let mut i: usize = 0;
    while i < found.len()
        invariant
            model == found.deep_view(),
            0 <= i <= found@.len(),
            out.deep_view() =~= call_overrides(
                model.take(i as int),
                proxy_name@,
                constants.deep_view(),
                must_exist,
            ),
        decreases found.len() - i,
    {
        proof {
            let t = model.take(i + 1);
            assert(t.drop_last() =~= model.take(i as int));
            assert(t.last() == found@[i as int]@);
        }
        let call = found[i].as_str();
        if first_arg_is_name(call, proxy_name) {
            append_overrides(&mut out, bzl_repo_overrides_from_call(call, constants, must_exist));
        }
        i += 1;
    }
    assert(model.take(i as int) =~= model);
    out
}

/// The overrides that a module file declares for an extension.
pub fn bzlmod_extension_repo_overrides(
    lines: &Vec<String>,
    proxy_name: &str,
    constants: &Vec<(String, String)>,
) -> (r: Vec<BzlmodRepoOverride>)
    ensures
        r.deep_view() == extension_overrides(
            lines.deep_view(),
            proxy_name@,
            constants.deep_view(),
        ),
{
    let mut all = overrides_by(lines, "override_repo(", proxy_name, constants, true);
    append_overrides(&mut all, overrides_by(lines, "inject_repo(", proxy_name, constants, false));
    sort_and_dedup(&all)
}

/// The value of a keyword argument: what a name stands for that a comprehension
/// binds as a part of a tuple, and any other value as it is written.
pub open spec fn kwarg_value(value: Text, bindings: Constants, unpacked: Seq<Text>) -> Text {
    match lookup(bindings, value) {
        Some(bound) if unpacked.contains(value) => bound,
        _ => value,
    }
}

/// The keyword arguments among arguments.
pub open spec fn kwargs_of(args: Seq<Text>, bindings: Constants, unpacked: Seq<Text>) -> Seq<
    (Text, Text),
>
    decreases args.len(),
{
    if args.len() == 0 {
        seq![]
    } else {
        let before = kwargs_of(args.drop_last(), bindings, unpacked);
        match assignment(args.last()) {
            Some((name, value)) if is_identifier(trim(name)) => before.push(
                (trim(name), kwarg_value(trim(value), bindings, unpacked)),
            ),
            _ => before,
        }
    }
}

/// The tag that a call `proxy.tag(..)` makes.
pub open spec fn tag_of(call: CollectedCall, prefix: Text) -> Option<BzlmodExtensionTagModel> {
    match strip_prefix(call.call, prefix) {
        None => None,
        Some(rest) => match split_once(rest, seq!['(']) {
            Some((tag_name, _)) if is_identifier(tag_name) => Some(
                BzlmodExtensionTagModel {
                    tag_name,
                    bindings: call.bindings,
                    kwargs: kwargs_of(call_args(call.call), call.bindings, call.unpacked),
                },
            ),
            _ => None,
        },
    }
}

/// The tags that the calls make, in order.
pub open spec fn tags_of(calls: Seq<(u128, CollectedCall)>, prefix: Text) -> Seq<
    BzlmodExtensionTagModel,
>
    decreases calls.len(),
{
    if calls.len() == 0 {
        seq![]
    } else {
        let before = tags_of(calls.drop_last(), prefix);
        match tag_of(calls.last().1, prefix) {
            Some(tag) => before.push(tag),
            None => before,
        }
    }
}

/// A line lies in a comprehension that one of the calls stems from.
pub open spec fn in_comprehension(calls: Seq<CollectedCall>, line: int) -> bool {
    exists|i: int|
        0 <= i < calls.len() && (#[trigger] calls[i]).source_line <= line
            < calls[i].source_end_line
}

/// The calls outside comprehensions, each with its place in the order of
/// evaluation.
pub open spec fn plain_calls(calls: Seq<(int, Text)>, expanded: Seq<CollectedCall>) -> Seq<
    (u128, CollectedCall),
>
    decreases calls.len(),
{
    if calls.len() == 0 {
        seq![]
    } else {
        let before = plain_calls(calls.drop_last(), expanded);
        let (line, call) = calls.last();
        if in_comprehension(expanded, line) {
            before
        } else {
            before.push(
                (
                    (line * BZL_CALL_ORDER_STRIDE) as u128,
                    CollectedCall {
                        order: line * BZL_CALL_ORDER_STRIDE,
                        source_line: line,
                        source_end_line: line + 1,
                        call,
                        bindings: seq![],
                        unpacked: seq![],
                    },
                ),
            )
        }
    }
}

/// The calls, each with its place in the order of evaluation.
pub open spec fn with_order(calls: Seq<CollectedCall>) -> Seq<(u128, CollectedCall)> {
    Seq::new(calls.len(), |i: int| (calls[i].order as u128, calls[i]))
}

/// The tags that a module file gives an extension, in the order of evaluation.
pub open spec fn extension_tags(lines: Seq<Text>, proxy_name: Text, cs: Constants) -> Seq<
    BzlmodExtensionTagModel,
> {
    let prefix = proxy_name + "."@;
    let expanded = comprehension_calls(lines, prefix, cs, 0);
    tags_of(
        stable_sort::<u128, CollectedCall>(
            plain_calls(calls(lines, prefix, 0), expanded) + with_order(expanded),
        ),
        prefix,
    )
}

fn bound_text<'a>(bindings: &'a Vec<(String, String)>, name: &str) -> (r: Option<&'a String>)
    ensures
        r.deep_view() == lookup(bindings.deep_view(), name@),
{
    let ghost model = bindings.deep_view();
    let mut i: usize = 0;
    assert(model.skip(0) =~= model);
    while i < bindings.len()
        invariant
            model == bindings.deep_view(),
            0 <= i <= bindings@.len(),
            lookup(model, name@) == lookup(model.skip(i as int), name@),
        decreases bindings.len() - i,
    {
        assert(model[i as int] == (bindings@[i as int].0@, bindings@[i as int].1@));
        assert(model.skip(i as int)[0] == model[i as int]);
        assert(model.skip(i as int).skip(1) =~= model.skip(i + 1));
        if same(bindings[i].0.as_str(), name) {
            return Some(&bindings[i].1);
        }
        i += 1;
    }
    None
}

fn name_among(names: &Vec<String>, name: &str) -> (r: bool)
    ensures
        r == names.deep_view().contains(name@),
{
    let mut i: usize = 0;
    while i < names.len()
        invariant
            0 <= i <= names@.len(),
            forall|j: int| 0 <= j < i ==> #[trigger] names.deep_view()[j] != name@,
        decreases names.len() - i,
    {
        assert(names.deep_view()[i as int] == names@[i as int]@);
        if same(names[i].as_str(), name) {
            return true;
        }
        i += 1;
    }
    false
}

fn kwarg_value_of(
    value: &str,
    bindings: &Vec<(String, String)>,
    unpacked: &Vec<String>,
) -> (r: String)
    ensures
        r@ == kwarg_value(value@, bindings.deep_view(), unpacked.deep_view()),
{
    match bound_text(bindings, value) {
        Some(bound) => if name_among(unpacked, value) {
            bound.clone()
        } else {
            value.to_owned()
        },
        None => value.to_owned(),
    }
}

fn kwargs_from(
    args: &Vec<String>,
    bindings: &Vec<(String, String)>,
    unpacked: &Vec<String>,
) -> (r: Vec<(String, String)>)
    ensures
        r.deep_view() == kwargs_of(args.deep_view(), bindings.deep_view(), unpacked.deep_view()),
{
    let ghost bound = bindings.deep_view();
    let ghost parts = unpacked.deep_view();
    let ghost model = args.deep_view();
    let mut out: Vec<(String, String)> = Vec::new();
    let mut i: usize = 0;
    while i < args.len()
        invariant
            model == args.deep_view(),
            0 <= i <= args@.len(),
            bound == bindings.deep_view(),
            parts == unpacked.deep_view(),
            out.deep_view() =~= kwargs_of(model.take(i as int), bound, parts),
        decreases args.len() - i,
    {
        let ghost before = out.deep_view();
        proof {
            let t = model.take(i + 1);
            assert(t.drop_last() =~= model.take(i as int));
            assert(t.last() == args@[i as int]@);
        }
        match bzl_top_level_assignment(args[i].as_str()) {
            Some((name, value)) => {
                let name = trim_of(name);
                if is_bzl_identifier(name) {
                    let value = kwarg_value_of(trim_of(value), bindings, unpacked);
                    let ghost v = value@;
                    out.push((name.to_owned(), value));
                    assert(out.deep_view() =~= before.push((name@, v)));
                }
            },
            None => {},
        }
        i += 1;
    }
    assert(model.take(i as int) =~= model);
    out
}

fn line_in_comprehension(calls: &Vec<BzlmodCollectedTagCall>, line: usize) -> (r: bool)
    ensures
        r == in_comprehension(calls.deep_view(), line as int),
{
    let ghost model = calls.deep_view();
    let mut i: usize = 0;
    while i < calls.len()
        invariant
            model == calls.deep_view(),
            0 <= i <= calls@.len(),
            forall|j: int|
                0 <= j < i ==> !((#[trigger] model[j]).source_line <= line
                    < model[j].source_end_line),
        decreases calls.len() - i,
    {
        assert(model[i as int] == calls@[i as int].deep_view());
        if calls[i].source_line <= line && line < calls[i].source_end_line {
            return true;
        }
        i += 1;
    }
    false
}

/// The tag that a collected call makes.
fn tag_from(call: &BzlmodCollectedTagCall, prefix: &str) -> (r: Option<BzlmodExtensionTag>)
    ensures
        r.deep_view() == tag_of(call.deep_view(), prefix@),
{
    proof {
        reveal_strlit("(");
        assert("("@ =~= seq!['(']);
    }
    let rest = match strip_prefix_of(call.call.as_str(), prefix) {
        Some(rest) => rest,
        None => {
            return None;
        },
    };
    match split_once_of(rest, "(") {
        Some((tag_name, _)) => {
            if is_bzl_identifier(tag_name) {
                let args = bzl_call_args(call.call.as_str());
                Some(
                    BzlmodExtensionTag {
                        tag_name: tag_name.to_owned(),
                        bindings: call.bindings.duplicate(),
                        kwargs: kwargs_from(&args, &call.bindings, &call.unpacked),
                    },
                )
            } else {
                None
            }
        },
        None => None,
    }
}

/// The calls of an extension's tags, each with its place in the order of
/// evaluation.
fn ordered_tag_calls(
    lines: &Vec<String>,
    prefix: &str,
    constants: &Vec<(String, String)>,
) -> (r: Vec<(u128, BzlmodCollectedTagCall)>)
    ensures
        r.deep_view() == ({
            let expanded = comprehension_calls(
                lines.deep_view(),
                prefix@,
                constants.deep_view(),
                0,
            );
            plain_calls(calls(lines.deep_view(), prefix@, 0), expanded) + with_order(expanded)
        }),
{
    let expanded = collect_bzl_list_comprehension_calls(lines, prefix, constants);
    let found = collect_bzl_calls_with_order(lines, prefix);
    let ghost exp = expanded.deep_view();
    let ghost model = calls(lines.deep_view(), prefix@, 0);
    let mut out: Vec<(u128, BzlmodCollectedTagCall)> = Vec::new();
    let mut i: usize = 0;
    let n: usize = lines.len();
    while i < found.len()
        invariant
            n == lines@.len(),
            exp == expanded.deep_view(),
            model == positions_as_int(found.deep_view()),
            forall|k: int| 0 <= k < found@.len() ==> (#[trigger] found@[k]).0 < lines@.len(),
            0 <= i <= found@.len(),
            out.deep_view() =~= plain_calls(model.take(i as int), exp),
        decreases found.len() - i,
    {
        let ghost before = out.deep_view();
        let line: usize = found[i].0;
        proof {
            let t = model.take(i + 1);
            assert(t.drop_last() =~= model.take(i as int));
            assert(found.deep_view()[i as int] == found@[i as int].deep_view());
            assert(t.last() == (line as int, found@[i as int].1@));
        }
        if !line_in_comprehension(&expanded, line) {
            let order: u128 = line as u128 * BZL_CALL_ORDER_STRIDE as u128;
            let item = BzlmodCollectedTagCall {
                order,
                source_line: line,
                source_end_line: line + 1,
                call: found[i].1.clone(),
                bindings: Vec::new(),
                unpacked: Vec::new(),
            };
            let ghost g = (order, item.deep_view());
            assert(item.bindings.deep_view() =~= seq![]);
            assert(item.unpacked.deep_view() =~= seq![]);
            out.push((order, item));
            assert(out.deep_view() =~= before.push(g));
        }
        i += 1;
    }
    assert(model.take(i as int) =~= model);
    let ghost plain = out.deep_view();
    let ghost tail = with_order(exp);
    let mut j: usize = 0;
    while j < expanded.len()
        invariant
            exp == expanded.deep_view(),
            tail == with_order(exp),
            0 <= j <= expanded@.len(),
            out.deep_view() =~= plain + tail.take(j as int),
        decreases expanded.len() - j,
    {
        let ghost before = out.deep_view();
        assert(exp[j as int] == expanded@[j as int].deep_view());
        let c = &expanded[j];
        let copy = BzlmodCollectedTagCall {
            order: c.order,
            source_line: c.source_line,
            source_end_line: c.source_end_line,
            call: c.call.clone(),
            bindings: c.bindings.duplicate(),
            unpacked: c.unpacked.duplicate(),
        };
        out.push((c.order, copy));
        assert(out.deep_view() =~= before.push(tail[j as int]));
        j += 1;
    }
    assert(tail.take(j as int) =~= tail);
    out
}

/// The tags that a module file gives an extension, in the order of evaluation.
pub fn bzlmod_extension_tags(
    lines: &Vec<String>,
    proxy_name: &str,
    constants: &Vec<(String, String)>,
) -> (r: Vec<BzlmodExtensionTag>)
    ensures
        r.deep_view() == extension_tags(lines.deep_view(), proxy_name@, constants.deep_view()),
{
    let prefix = concat(proxy_name, ".");
    let sorted = sort_stable(ordered_tag_calls(lines, prefix.as_str(), constants));
    let ghost model = sorted.deep_view();
    let mut tags: Vec<BzlmodExtensionTag> = Vec::new();
    let mut i: usize = 0;
    while i < sorted.len()
        invariant
            model == sorted.deep_view(),
            0 <= i <= sorted@.len(),
            tags.deep_view() =~= tags_of(model.take(i as int), prefix@),
        decreases sorted.len() - i,
    {
        let ghost before = tags.deep_view();
        proof {
            let t = model.take(i + 1);
            assert(t.drop_last() =~= model.take(i as int));
            assert(t.last() == sorted@[i as int].deep_view());
        }
        match tag_from(&sorted[i].1, prefix.as_str()) {
            Some(tag) => {
                let ghost g = tag.deep_view();
                tags.push(tag);
                assert(tags.deep_view() =~= before.push(g));
            },
            None => {},
        }
        i += 1;
    }
    assert(model.take(i as int) =~= model);
    tags
}

/// File and name that a call's first two arguments give, as string literals.
pub open spec fn file_and_name(value: Text) -> Option<(Text, Text)> {
    let args = call_args(value);
    if args.len() < 2 {
        None
    } else {
        match (string_value(trim(args[0])), string_value(trim(args[1]))) {
            (Some(file), Some(name)) => Some((file, name)),
            _ => None,
        }
    }
}

pub fn file_and_name_of(value: &str) -> (r: Option<(String, String)>)
    ensures
        r.deep_view() == file_and_name(value@),
{
    let args = bzl_call_args(value);
    assert(args.deep_view().len() == args@.len());
    if args.len() < 2 {
        return None;
    }
    assert(args.deep_view()[0] == args@[0]@ && args.deep_view()[1] == args@[1]@);
    match bzl_string_value(trim_of(args[0].as_str())) {
        Some(file) => match bzl_string_value(trim_of(args[1].as_str())) {
            Some(name) => Some((file, name)),
            None => None,
        },
        None => None,
    }
}

/// The usage that an assignment of `use_extension(..)` starts.
pub open spec fn usage_of(
    name: Text,
    value: Text,
    lines: Seq<Text>,
    cs: Constants,
    ignore_dev: bool,
) -> Option<BzlmodExtensionUsageModel> {
    let proxy_name = trim(name);
    let dev_dependency = bool_arg(value, "dev_dependency"@);
    if !is_identifier(proxy_name) || !"use_extension("@.is_prefix_of(trim_start(value)) || (
    ignore_dev && dev_dependency) {
        None
    } else {
        match file_and_name(value) {
            Some((extension_bzl_file, extension_name)) => Some(
                BzlmodExtensionUsageModel {
                    proxy_name,
                    extension_bzl_file,
                    extension_name,
                    dev_dependency,
                    imports: extension_imports(lines, proxy_name, cs),
                    repo_overrides: extension_overrides(lines, proxy_name, cs),
                    tags: extension_tags(lines, proxy_name, cs),
                },
            ),
            None => None,
        }
    }
}

/// Two usages are of one extension under one name.
pub open spec fn same_usage(a: BzlmodExtensionUsageModel, b: BzlmodExtensionUsageModel) -> bool {
    a.proxy_name == b.proxy_name && a.extension_bzl_file == b.extension_bzl_file
        && a.extension_name == b.extension_name
}

/// One of the usages is of the same extension under the same name.
pub open spec fn usage_known(
    usages: Seq<BzlmodExtensionUsageModel>,
    u: BzlmodExtensionUsageModel,
) -> bool {
    exists|i: int| 0 <= i < usages.len() && same_usage(#[trigger] usages[i], u)
}

/// The usages that the assignments start; of those of one extension under one
/// name the first.
pub open spec fn usages_of(
    items: Seq<(Text, Text)>,
    lines: Seq<Text>,
    cs: Constants,
    ignore_dev: bool,
) -> Seq<BzlmodExtensionUsageModel>
    decreases items.len(),
{
    if items.len() == 0 {
        seq![]
    } else {
        let before = usages_of(items.drop_last(), lines, cs, ignore_dev);
        match usage_of(items.last().0, items.last().1, lines, cs, ignore_dev) {
            Some(u) if !usage_known(before, u) => before.push(u),
            _ => before,
        }
    }
}

/// The extension usages that a module file declares.
pub open spec fn extension_usages(lines: Seq<Text>, cs: Constants, ignore_dev: bool) -> Seq<
    BzlmodExtensionUsageModel,
> {
    usages_of(assignments(lines, 0), lines, cs, ignore_dev)
}

fn usage_from(
    name: &str,
    value: &str,
    lines: &Vec<String>,
    constants: &Vec<(String, String)>,
    ignore_dev_dependency: bool,
) -> (r: Option<BzlmodExtensionUsage>)
    ensures
        r.deep_view() == usage_of(
            name@,
            value@,
            lines.deep_view(),
            constants.deep_view(),
            ignore_dev_dependency,
        ),
{
    let proxy_name = trim_of(name);
    if !is_bzl_identifier(proxy_name) || !starts_with(trim_start_of(value), "use_extension(") {
        return None;
    }
    let dev_dependency = bzl_bool_arg(value, "dev_dependency");
    if ignore_dev_dependency && dev_dependency {
        return None;
    }
    match file_and_name_of(value) {
        Some((extension_bzl_file, extension_name)) => Some(
            BzlmodExtensionUsage {
                proxy_name: proxy_name.to_owned(),
                extension_bzl_file,
                extension_name,
                dev_dependency,
                imports: bzlmod_extension_imports(lines, proxy_name, constants),
                repo_overrides: bzlmod_extension_repo_overrides(lines, proxy_name, constants),
                tags: bzlmod_extension_tags(lines, proxy_name, constants),
            },
        ),
        None => None,
    }
}

fn is_usage_known(usages: &Vec<BzlmodExtensionUsage>, u: &BzlmodExtensionUsage) -> (r: bool)
    ensures
        r == usage_known(usages.deep_view(), u.deep_view()),
{
    let ghost model = usages.deep_view();
    let mut i: usize = 0;
    while i < usages.len()
        invariant
            model == usages.deep_view(),
            0 <= i <= usages@.len(),
            forall|j: int| 0 <= j < i ==> !same_usage(#[trigger] model[j], u.deep_view()),
        decreases usages.len() - i,
    {
        assert(model[i as int] == usages@[i as int].deep_view());
        if same(usages[i].proxy_name.as_str(), u.proxy_name.as_str()) && same(
            usages[i].extension_bzl_file.as_str(),
            u.extension_bzl_file.as_str(),
        ) && same(usages[i].extension_name.as_str(), u.extension_name.as_str()) {
            return true;
        }
        i += 1;
    }
    false
}

/// The extension usages that a module file declares.
pub fn bzlmod_extension_usages_from_lines(
    lines: &Vec<String>,
    constants: &Vec<(String, String)>,
    ignore_dev_dependency: bool,
) -> (r: Vec<BzlmodExtensionUsage>)
    ensures
        r.deep_view() == extension_usages(
            lines.deep_view(),
            constants.deep_view(),
            ignore_dev_dependency,
        ),
{
    let items = bzl_top_level_assignments(lines);
    let ghost model = items.deep_view();
    let mut usages: Vec<BzlmodExtensionUsage> = Vec::new();
    let mut i: usize = 0;
    while i < items.len()
        invariant
            model == items.deep_view(),
            0 <= i <= items@.len(),
            usages.deep_view() =~= usages_of(
                model.take(i as int),
                lines.deep_view(),
                constants.deep_view(),
                ignore_dev_dependency,
            ),
        decreases items.len() - i,
    {
        let ghost before = usages.deep_view();
        proof {
            let t = model.take(i + 1);
            assert(t.drop_last() =~= model.take(i as int));
            assert(t.last() == items@[i as int].deep_view());
        }
        match usage_from(
            items[i].0.as_str(),
            items[i].1.as_str(),
            lines,
            constants,
            ignore_dev_dependency,
        ) {
            Some(u) => {
                if !is_usage_known(&usages, &u) {
                    let ghost g = u.deep_view();
                    usages.push(u);
                    assert(usages.deep_view() =~= before.push(g));
                }
            },
            None => {},
        }
        i += 1;
    }
    assert(model.take(i as int) =~= model);
    usages
}

/// Where development dependencies do not count, no usage of an extension is one; and where
/// they count, each assignment of a usage is among the usages, by itself or by an earlier
/// one of the same extension under the same name.
pub proof fn law_dev_usages(items: Seq<(Text, Text)>, lines: Seq<Text>, cs: Constants, k: int)
    requires
        0 <= k < items.len(),
    ensures
        forall|i: int|
            0 <= i < usages_of(items, lines, cs, true).len() ==> !(#[trigger] usages_of(
                items,
                lines,
                cs,
                true,
            )[i]).dev_dependency,
        usage_of(items[k].0, items[k].1, lines, cs, false) matches Some(u) ==> usage_known(
            usages_of(items, lines, cs, false),
            u,
        ) && (!u.dev_dependency ==> usage_known(usages_of(items, lines, cs, true), u)),
    decreases items.len(),
{
    lemma_usages_lasting(items, lines, cs);
    lemma_usage_kept(items, lines, cs, false, k);
    lemma_usage_kept(items, lines, cs, true, k);
}

proof fn lemma_usages_lasting(items: Seq<(Text, Text)>, lines: Seq<Text>, cs: Constants)
    ensures
        forall|i: int|
            0 <= i < usages_of(items, lines, cs, true).len() ==> !(#[trigger] usages_of(
                items,
                lines,
                cs,
                true,
            )[i]).dev_dependency,
    decreases items.len(),
{
    if items.len() > 0 {
        let before = usages_of(items.drop_last(), lines, cs, true);
        let all = usages_of(items, lines, cs, true);
        lemma_usages_lasting(items.drop_last(), lines, cs);
        lemma_usages_step(items, lines, cs, true);
        assert forall|i: int| 0 <= i < all.len() implies !(#[trigger] all[i]).dev_dependency by {
            if i < before.len() {
                assert(all[i] == before[i]);
            }
        }
    }
}

proof fn lemma_usages_step(
    items: Seq<(Text, Text)>,
    lines: Seq<Text>,
    cs: Constants,
    ignore_dev: bool,
)
    requires
        items.len() > 0,
    ensures
        ({
            let before = usages_of(items.drop_last(), lines, cs, ignore_dev);
            let all = usages_of(items, lines, cs, ignore_dev);
            match usage_of(items.last().0, items.last().1, lines, cs, ignore_dev) {
                Some(u) => {
                    &&& usage_known(before, u) ==> all == before
                    &&& !usage_known(before, u) ==> all == before.push(u)
                    &&& ignore_dev ==> !u.dev_dependency
                },
                None => all == before,
            }
        }),
{
}

proof fn lemma_usage_kept(
    items: Seq<(Text, Text)>,
    lines: Seq<Text>,
    cs: Constants,
    ignore_dev: bool,
    k: int,
)
    requires
        0 <= k < items.len(),
    ensures
        usage_of(items[k].0, items[k].1, lines, cs, ignore_dev) matches Some(u) ==> usage_known(
            usages_of(items, lines, cs, ignore_dev),
            u,
        ),
    decreases items.len(),
{
    let init = items.drop_last();
    let before = usages_of(init, lines, cs, ignore_dev);
    let all = usages_of(items, lines, cs, ignore_dev);
    lemma_usages_step(items, lines, cs, ignore_dev);
    if let Some(u) = usage_of(items[k].0, items[k].1, lines, cs, ignore_dev) {
        if k < init.len() {
            lemma_usage_kept(init, lines, cs, ignore_dev, k);
            assert(init[k] == items[k]);
            lemma_known_longer(before, all, u);
        } else if !usage_known(before, u) {
            assert(all[all.len() - 1] == u);
            assert(same_usage(all[all.len() - 1], u));
        }
    }
}

proof fn lemma_known_longer(
    before: Seq<BzlmodExtensionUsageModel>,
    all: Seq<BzlmodExtensionUsageModel>,
    u: BzlmodExtensionUsageModel,
)
    requires
        usage_known(before, u),
        before.len() <= all.len(),
        forall|i: int| 0 <= i < before.len() ==> #[trigger] all[i] == before[i],
    ensures
        usage_known(all, u),
{
    let i = choose|i: int| 0 <= i < before.len() && same_usage(#[trigger] before[i], u);
    assert(same_usage(all[i], u));
}

/// An import under another name keeps the two apart: the name on the left is the one in
/// the module, the string on the right that of the repository.
pub proof fn law_import_sides(args: Seq<Text>, arg: Text, cs: Constants)
    requires
        trim(arg).len() > 0,
    ensures
        match assignment(trim(arg)) {
            Some((name, value)) => {
                &&& string_expression(trim(value), cs) is Some && is_identifier(trim(name)) && trim(
                    name,
                ) != "dev_dependency"@ ==> imports_of(args.push(arg), cs) == imports_of(
                    args,
                    cs,
                ).push(
                    BzlmodUseRepoImportModel {
                        alias: trim(name),
                        repo_name: string_expression(trim(value), cs)->0,
                    },
                )
                &&& trim(name) == "dev_dependency"@ ==> imports_of(args.push(arg), cs)
                    == imports_of(args, cs)
            },
            None => string_expression(trim(arg), cs) matches Some(name) ==> imports_of(
                args.push(arg),
                cs,
            ) == imports_of(args, cs).push(
                BzlmodUseRepoImportModel { alias: name, repo_name: name },
            ),
        },
{
    assert(args.push(arg).drop_last() =~= args);
    assert(args.push(arg).last() == arg);
}

proof fn lemma_overrides_exist(args: Seq<Text>, cs: Constants, must_exist: bool)
    ensures
        forall|i: int|
            0 <= i < overrides_of(args, cs, must_exist).len() ==> (#[trigger] overrides_of(
                args,
                cs,
                must_exist,
            )[i]).must_exist == must_exist,
    decreases args.len(),
{
    if args.len() > 0 {
        lemma_overrides_exist(args.drop_last(), cs, must_exist);
        let before = overrides_of(args.drop_last(), cs, must_exist);
        let more = overrides_of_arg(trim(args.last()), cs, must_exist);
        assert forall|i: int| 0 <= i < (before + more).len() implies (
        #[trigger] (before + more)[i]).must_exist == must_exist by {
            if i >= before.len() {
                assert(more[i - before.len()].must_exist == must_exist);
            }
        }
    }
}

proof fn lemma_call_overrides_exist(
    calls: Seq<Text>,
    proxy_name: Text,
    cs: Constants,
    must_exist: bool,
)
    ensures
        forall|i: int|
            0 <= i < call_overrides(calls, proxy_name, cs, must_exist).len() ==> (
            #[trigger] call_overrides(calls, proxy_name, cs, must_exist)[i]).must_exist
                == must_exist,
    decreases calls.len(),
{
    if calls.len() > 0 {
        lemma_call_overrides_exist(calls.drop_last(), proxy_name, cs, must_exist);
        let before = call_overrides(calls.drop_last(), proxy_name, cs, must_exist);
        let args = rest_args(call_args(calls.last()));
        lemma_overrides_exist(args, cs, must_exist);
        let more = overrides_of(args, cs, must_exist);
        assert forall|i: int| 0 <= i < (before + more).len() implies (
        #[trigger] (before + more)[i]).must_exist == must_exist by {
            if i >= before.len() {
                assert(more[i - before.len()].must_exist == must_exist);
            }
        }
    }
}

/// The repositories that `override_repo` replaces have to exist, those that `inject_repo`
/// adds do not; an override is declared by the one or the other.
pub proof fn law_override_or_inject(
    lines: Seq<Text>,
    proxy_name: Text,
    cs: Constants,
    o: BzlmodRepoOverrideModel,
)
    ensures
        extension_overrides(lines, proxy_name, cs).contains(o) && o.must_exist ==> call_overrides(
            call_texts(calls(lines, "override_repo("@, 0)),
            proxy_name,
            cs,
            true,
        ).contains(o),
        extension_overrides(lines, proxy_name, cs).contains(o) && !o.must_exist ==> call_overrides(
            call_texts(calls(lines, "inject_repo("@, 0)),
            proxy_name,
            cs,
            false,
        ).contains(o),
        call_overrides(
            call_texts(calls(lines, "override_repo("@, 0)),
            proxy_name,
            cs,
            true,
        ).contains(o) ==> o.must_exist && extension_overrides(lines, proxy_name, cs).contains(o),
        call_overrides(
            call_texts(calls(lines, "inject_repo("@, 0)),
            proxy_name,
            cs,
            false,
        ).contains(o) ==> !o.must_exist && extension_overrides(lines, proxy_name, cs).contains(o),
{
    let a = call_overrides(
        call_texts(calls(lines, "override_repo("@, 0)),
        proxy_name,
        cs,
        true,
    );
    let b = call_overrides(call_texts(calls(lines, "inject_repo("@, 0)), proxy_name, cs, false);
    lemma_call_overrides_exist(
        call_texts(calls(lines, "override_repo("@, 0)),
        proxy_name,
        cs,
        true,
    );
    lemma_call_overrides_exist(
        call_texts(calls(lines, "inject_repo("@, 0)),
        proxy_name,
        cs,
        false,
    );
    law_sorted_set_of::<BzlmodRepoOverride>(a + b);
    assert(sorted_set_of::<BzlmodRepoOverride>(a + b).contains(o) <==> (a + b).contains(o));
    if (a + b).contains(o) {
        let i = choose|i: int| 0 <= i < (a + b).len() && (a + b)[i] == o;
        if i < a.len() {
            assert(a[i] == o);
            assert(a[i].must_exist);
        } else {
            assert(b[i - a.len()] == o);
            assert(!b[i - a.len()].must_exist);
        }
    }
    if a.contains(o) {
        let i = choose|i: int| 0 <= i < a.len() && a[i] == o;
        assert(a[i].must_exist);
        assert((a + b)[i] == o);
    }
    if b.contains(o) {
        let i = choose|i: int| 0 <= i < b.len() && b[i] == o;
        assert(!b[i].must_exist);
        assert((a + b)[a.len() + i] == o);
    }
}

/// An override under a name replaces the repository on the left by the one on the right.
pub proof fn law_override_sides(name: Text, value: Text, cs: Constants, must_exist: bool)
    requires
        assignment(name + "="@ + value) == Some((name, value)),
        !("**"@.is_prefix_of(name + "="@ + value)),
        is_identifier(trim(name)),
        string_expression(trim(value), cs) is Some,
    ensures
        overrides_of_arg(name + "="@ + value, cs, must_exist) == seq![
            BzlmodRepoOverrideModel {
                repo_name: trim(name),
                overriding_repo_name: string_expression(trim(value), cs)->0,
                must_exist,
            },
        ],
{
    reveal_strlit("=");
    assert((name + "="@ + value).len() > 0);
}

/// A call `proxy.tag(..)` makes a tag of that name; the name ends at the parenthesis.
pub proof fn law_tag_name(call: CollectedCall, prefix: Text, tag: Text, rest: Text)
    requires
        call.call == prefix + tag + "("@ + rest,
        is_identifier(tag),
    ensures
        tag_of(call, prefix) matches Some(made) && made.tag_name == tag && made.bindings
            == call.bindings,
{
    reveal_strlit("(");
    assert("("@ =~= seq!['(']);
    assert(call.call =~= prefix + (tag + seq!['('] + rest));
    lemma_strip_put_prefix(prefix, tag + seq!['('] + rest);
    assert(!tag.contains('(')) by {
        if tag.contains('(') {
            let i = choose|i: int| 0 <= i < tag.len() && tag[i] == '(';
            assert(is_ident(tag[i]));
        }
    }
    lemma_split_at_char(tag, '(', rest);
}

/// A keyword argument of a tag keeps its name and its value; only a name that a
/// comprehension takes out of a tuple is read as what it stands for.
pub proof fn law_tag_arguments(
    args: Seq<Text>,
    name: Text,
    value: Text,
    bindings: Constants,
    unpacked: Seq<Text>,
)
    requires
        assignment(name + "="@ + value) == Some((name, value)),
        is_identifier(trim(name)),
    ensures
        !unpacked.contains(trim(value)) ==> kwargs_of(
            args.push(name + "="@ + value),
            bindings,
            unpacked,
        ) == kwargs_of(args, bindings, unpacked).push((trim(name), trim(value))),
        unpacked.contains(trim(value)) && lookup(bindings, trim(value)) is Some ==> kwargs_of(
            args.push(name + "="@ + value),
            bindings,
            unpacked,
        ) == kwargs_of(args, bindings, unpacked).push(
            (trim(name), lookup(bindings, trim(value))->0),
        ),
{
    let arg = name + "="@ + value;
    assert(args.push(arg).drop_last() =~= args);
    assert(args.push(arg).last() == arg);
}

} // verus!
