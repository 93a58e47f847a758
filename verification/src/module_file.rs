//! What the lines of a `MODULE.bazel` file declare.

use vstd::prelude::*;
use vstd::string::*;
use crate::blocks::{
    bare_line, block_end, block_from, block_lines, call_texts, calls, collect_bzl_calls,
    lemma_block_end,
};
use crate::calls::{
    arg_is_none, bool_arg, bzl_arg_is_none, bzl_bool_arg, bzl_call_args, bzl_repo_name_arg,
    bzl_string_arg, repo_name_arg, string_arg,
};
use crate::expr::{
    Constants, ForClauseModel, MAX_DEPTH, binding_groups, block_clauses,
    bzl_constants_with_bindings, bzl_list_comprehension_binding_groups,
    bzl_list_comprehension_for_clauses, bzl_string_expression_value, string_expression,
};
use crate::module::{BazelDep, BazelDepModel, BzlmodUseRepoImport, BzlmodUseRepoImportModel};
use crate::ordered::Duplicate;
use crate::scan::{
    assignment, bzl_top_level_assignment, call_args, calls_anywhere,
    collect_bzl_calls_anywhere_with_order, is_bzl_identifier, is_identifier, positions_as_int,
    strip_bzl_comment,
};
use crate::text::{Text, join, join_of, lines, same, starts_with, trim, trim_of, trim_start_of};

verus! {

/// The modules that `bazel_dep` calls declare; development dependencies apart
/// where they do not count.
pub open spec fn deps_of(calls: Seq<Text>, ignore_dev: bool) -> Seq<BazelDepModel>
    decreases calls.len(),
{
    if calls.len() == 0 {
        seq![]
    } else {
        let before = deps_of(calls.drop_last(), ignore_dev);
        let call = calls.last();
        if ignore_dev && bool_arg(call, "dev_dependency"@) {
            before
        } else {
            match string_arg(call, "name"@) {
                Some(name) => before.push(
                    BazelDepModel {
                        name,
                        version: match string_arg(call, "version"@) {
                            Some(version) => version,
                            None => seq![],
                        },
                        apparent_name: repo_name_arg(call, name),
                    },
                ),
                None => before,
            }
        }
    }
}

/// The modules that a module file depends on.
pub fn bzlmod_deps_from_lines(lines: &Vec<String>, ignore_dev_deps: bool) -> (r: Vec<BazelDep>)
    ensures
        r.deep_view() == deps_of(
            call_texts(calls(lines.deep_view(), "bazel_dep("@, 0)),
            ignore_dev_deps,
        ),
{
    let found = collect_bzl_calls(lines, "bazel_dep(");
    let ghost model = found.deep_view();
    let mut deps: Vec<BazelDep> = Vec::new();
    let mut i: usize = 0;
    while i < found.len()
        invariant
            model == found.deep_view(),
            0 <= i <= found@.len(),
            deps.deep_view() =~= deps_of(model.take(i as int), ignore_dev_deps),
        decreases found.len() - i,
    {
        let ghost before = deps.deep_view();
        proof {
            let t = model.take(i + 1);
            assert(t.drop_last() =~= model.take(i as int));
            assert(t.last() == found@[i as int]@);
        }
        let call = found[i].as_str();
        if !(ignore_dev_deps && bzl_bool_arg(call, "dev_dependency")) {
            match bzl_string_arg(call, "name") {
                Some(name) => {
                    let version = match bzl_string_arg(call, "version") {
                        Some(version) => version,
                        None => String::new(),
                    };
                    let apparent_name = bzl_repo_name_arg(call, name.as_str());
                    let dep = BazelDep { name, version, apparent_name };
                    let ghost g = dep.deep_view();
                    deps.push(dep);
                    assert(deps.deep_view() =~= before.push(g));
                },
                None => {},
            }
        }
        i += 1;
    }
    assert(model.take(i as int) =~= model);
    deps
}

/// The string that an argument gives, `None` apart.
pub open spec fn alias_arg(call: Text, arg: Text) -> Seq<Text> {
    match string_arg(call, arg) {
        Some(alias) if !arg_is_none(call, arg) => seq![alias],
        _ => seq![],
    }
}

/// The names that `module` calls give a module.
pub open spec fn aliases_of(calls: Seq<Text>) -> Seq<Text>
    decreases calls.len(),
{
    if calls.len() == 0 {
        seq![]
    } else {
        aliases_of(calls.drop_last()) + alias_arg(calls.last(), "name"@) + alias_arg(
            calls.last(),
            "repo_name"@,
        )
    }
}

fn push_alias(aliases: &mut Vec<String>, call: &str, arg: &str)
    ensures
        final(aliases).deep_view() == old(aliases).deep_view() + alias_arg(call@, arg@),
{
    let ghost before = aliases.deep_view();
    if !bzl_arg_is_none(call, arg) {
        match bzl_string_arg(call, arg) {
            Some(alias) => {
                let ghost g = alias@;
                aliases.push(alias);
                assert(aliases.deep_view() =~= before + seq![g]);
                return ;
            },
            None => {},
        }
    }
    assert(before + seq![] =~= before);
}

/// The names that a module file gives its module.
pub fn bzlmod_module_aliases(lines: &Vec<String>) -> (r: Vec<String>)
    ensures
        r.deep_view() == aliases_of(call_texts(calls(lines.deep_view(), "module("@, 0))),
{
    let found = collect_bzl_calls(lines, "module(");
    let ghost model = found.deep_view();
    let mut aliases: Vec<String> = Vec::new();
    let mut i: usize = 0;
    while i < found.len()
        invariant
            model == found.deep_view(),
            0 <= i <= found@.len(),
            aliases.deep_view() =~= aliases_of(model.take(i as int)),
        decreases found.len() - i,
    {
        proof {
            let t = model.take(i + 1);
            assert(t.drop_last() =~= model.take(i as int));
            assert(t.last() == found@[i as int]@);
        }
        push_alias(&mut aliases, found[i].as_str(), "name");
        push_alias(&mut aliases, found[i].as_str(), "repo_name");
        i += 1;
    }
    assert(model.take(i as int) =~= model);
    aliases
}

/// The arguments after the first.
pub open spec fn rest_args(args: Seq<Text>) -> Seq<Text> {
    if args.len() == 0 {
        args
    } else {
        args.skip(1)
    }
}

/// The imports that arguments of `use_repo` declare: by name, or as `alias =
/// name`.
pub open spec fn imports_of(args: Seq<Text>, cs: Constants) -> Seq<BzlmodUseRepoImportModel>
    decreases args.len(),
{
    if args.len() == 0 {
        seq![]
    } else {
        let before = imports_of(args.drop_last(), cs);
        let arg = trim(args.last());
        if arg.len() == 0 {
            before
        } else {
            match assignment(arg) {
                Some((name, actual)) => match string_expression(trim(actual), cs) {
                    Some(repo_name) if trim(name) != "dev_dependency"@ && is_identifier(
                        trim(name),
                    ) => before.push(BzlmodUseRepoImportModel { alias: trim(name), repo_name }),
                    _ => before,
                },
                None => match string_expression(arg, cs) {
                    Some(name) => before.push(
                        BzlmodUseRepoImportModel { alias: name, repo_name: name },
                    ),
                    None => before,
                },
            }
        }
    }
}

/// The imports that a `use_repo` call declares.
pub fn bzl_use_repo_imports(call: &str, constants: &Vec<(String, String)>) -> (r: Vec<
    BzlmodUseRepoImport,
>)
    ensures
        r.deep_view() == imports_of(rest_args(call_args(call@)), constants.deep_view()),
{
    let args = bzl_call_args(call);
    let ghost rest = rest_args(args.deep_view());
    let ghost cs = constants.deep_view();
    let mut imports: Vec<BzlmodUseRepoImport> = Vec::new();
    if args.len() == 0 {
        assert(imports.deep_view() =~= seq![]);
        return imports;
    }
    let mut i: usize = 1;
    while i < args.len()
        invariant
            cs == constants.deep_view(),
            rest == args.deep_view().skip(1),
            1 <= i <= args@.len(),
            imports.deep_view() =~= imports_of(rest.take(i - 1), cs),
        decreases args.len() - i,
    {
        let ghost before = imports.deep_view();
        proof {
            let t = rest.take(i as int);
            assert(t.drop_last() =~= rest.take(i - 1));
            assert(t.last() == args@[i as int]@);
        }
        let arg = trim_of(args[i].as_str());
        if !arg.is_empty() {
            match bzl_top_level_assignment(arg) {
                Some((alias, actual)) => {
                    let alias = trim_of(alias);
                    if !same(alias, "dev_dependency") && is_bzl_identifier(alias) {
                        match bzl_string_expression_value(trim_of(actual), constants) {
                            Some(repo_name) => {
                                let import = BzlmodUseRepoImport {
                                    alias: alias.to_owned(),
                                    repo_name,
                                };
                                let ghost g = import.deep_view();
                                imports.push(import);
                                assert(imports.deep_view() =~= before.push(g));
                            },
                            None => {},
                        }
                    }
                },
                None => match bzl_string_expression_value(arg, constants) {
                    Some(name) => {
                        let import = BzlmodUseRepoImport { alias: name.clone(), repo_name: name };
                        let ghost g = import.deep_view();
                        imports.push(import);
                        assert(imports.deep_view() =~= before.push(g));
                    },
                    None => {},
                },
            }
        }
        i += 1;
    }
    assert(rest.take(i - 1) =~= rest);
    imports
}

/// A call found in a list comprehension, with the bindings that it is expanded
/// under, those of the bound names that one clause binds together with others, and
/// its place in the order of evaluation.
#[derive(Debug, PartialEq, Eq)]
pub struct BzlmodCollectedTagCall {
    pub order: u128,
    pub source_line: usize,
    pub source_end_line: usize,
    pub call: String,
    pub bindings: Vec<(String, String)>,
    pub unpacked: Vec<String>,
}

/// The model of [`BzlmodCollectedTagCall`].
pub struct CollectedCall {
    pub order: int,
    pub source_line: int,
    pub source_end_line: int,
    pub call: Text,
    pub bindings: Constants,
    pub unpacked: Seq<Text>,
}

impl DeepView for BzlmodCollectedTagCall {
    type V = CollectedCall;

    open spec fn deep_view(&self) -> CollectedCall {
        CollectedCall {
            order: self.order as int,
            source_line: self.source_line as int,
            source_end_line: self.source_end_line as int,
            call: self.call@,
            bindings: self.bindings.deep_view(),
            unpacked: self.unpacked.deep_view(),
        }
    }
}

/// The names that clauses bind together with others: the parts of tuples.
pub open spec fn unpacked_names(clauses: Seq<ForClauseModel>) -> Seq<Text>
    decreases clauses.len(),
{
    if clauses.len() == 0 {
        seq![]
    } else {
        let before = unpacked_names(clauses.drop_last());
        if clauses.last().names.len() > 1 {
            before + clauses.last().names
        } else {
            before
        }
    }
}

/// The names that the clauses of the comprehension bind together with others.
pub open spec fn block_unpacked(block: Seq<Text>) -> Seq<Text> {
    match block_clauses(block) {
        Some(clauses) => unpacked_names(clauses),
        None => seq![],
    }
}

fn block_unpacked_of(block: &Vec<String>) -> (r: Vec<String>)
    ensures
        r.deep_view() == block_unpacked(block.deep_view()),
{
    let mut out: Vec<String> = Vec::new();
    assert(out.deep_view() =~= seq![]);
    let clauses = match bzl_list_comprehension_for_clauses(block) {
        Some(clauses) => clauses,
        None => {
            return out;
        },
    };
    let ghost model = clauses.deep_view();
    let mut i: usize = 0;
    while i < clauses.len()
        invariant
            model == clauses.deep_view(),
            0 <= i <= clauses@.len(),
            out.deep_view() =~= unpacked_names(model.take(i as int)),
        decreases clauses.len() - i,
    {
        let ghost before = out.deep_view();
        proof {
            let t = model.take(i + 1);
            assert(t.drop_last() =~= model.take(i as int));
            assert(t.last() == clauses@[i as int].deep_view());
            assert(clauses@[i as int].names.deep_view().len() == clauses@[i as int].names@.len());
        }
        if clauses[i].names.len() > 1 {
            let mut names = clauses[i].names.duplicate();
            let ghost more = names.deep_view();
            out.append(&mut names);
            assert(out.deep_view() =~= before + more);
        }
        i += 1;
    }
    assert(model.take(i as int) =~= model);
    out
}

/// How far apart the calls of two lines stand in the order of evaluation.
pub const BZL_CALL_ORDER_STRIDE: usize = 1_000_000;

/// The calls under the groups from `g` on, the first of them `start`th in the
/// block.
pub open spec fn expand_calls(
    line: int,
    end: int,
    groups: Seq<Constants>,
    g: int,
    unpacked: Seq<Text>,
    calls: Seq<Text>,
    start: int,
) -> Seq<CollectedCall>
    decreases groups.len() - g,
{
    if g < 0 || g >= groups.len() {
        seq![]
    } else {
        Seq::new(
            calls.len(),
            |c: int|
                CollectedCall {
                    order: line * BZL_CALL_ORDER_STRIDE + start + c,
                    source_line: line,
                    source_end_line: end,
                    call: calls[c],
                    bindings: groups[g],
                    unpacked,
                },
        ) + expand_calls(line, end, groups, g + 1, unpacked, calls, start + calls.len())
    }
}

/// The calls of `function` in the list comprehensions from line `i` on, once for
/// each group of bindings.
pub open spec fn comprehension_calls(lines: Seq<Text>, function: Text, cs: Constants, i: int) -> Seq<
    CollectedCall,
>
    decreases lines.len() - i,
{
    if i < 0 || i >= lines.len() {
        seq![]
    } else if seq!['['].is_prefix_of(bare_line(lines[i])) {
        proof {
            lemma_block_end(lines, i, i);
        }
        let e = block_end(lines, i, i);
        let block = block_lines(lines, i, e);
        let rest = comprehension_calls(lines, function, cs, e);
        match binding_groups(block, cs, MAX_DEPTH as nat) {
            Some(groups) => expand_calls(
                i,
                e,
                groups,
                0,
                block_unpacked(block),
                call_texts(calls_anywhere(join(block, seq!['\n']), function, 0, 0)),
                0,
            ) + rest,
            None => rest,
        }
    } else {
        comprehension_calls(lines, function, cs, i + 1)
    }
}

/// Appends the calls under each group.
fn push_expanded(
    calls: &mut Vec<BzlmodCollectedTagCall>,
    line: usize,
    end: usize,
    groups: &Vec<Vec<(String, String)>>,
    unpacked: &Vec<String>,
    block_calls: &Vec<(usize, String)>,
)
    ensures
        final(calls).deep_view() == old(calls).deep_view() + expand_calls(
            line as int,
            end as int,
            groups.deep_view(),
            0,
            unpacked.deep_view(),
            call_texts(positions_as_int(block_calls.deep_view())),
            0,
        ),
{
    let ghost first = calls.deep_view();
    let ghost gs = groups.deep_view();
    let ghost texts = call_texts(positions_as_int(block_calls.deep_view()));
    let base: usize = calls.len();
    let mut g: usize = 0;
    let mut start: usize = 0;
    let ghost names = unpacked.deep_view();
    let ghost whole = expand_calls(line as int, end as int, gs, 0, names, texts, 0);
    assert(texts.len() == block_calls@.len());
    assert(first + whole =~= calls.deep_view() + whole);
    while g < groups.len()
        invariant
            gs == groups.deep_view(),
            names == unpacked.deep_view(),
            texts == call_texts(positions_as_int(block_calls.deep_view())),
            texts.len() == block_calls@.len(),
            0 <= g <= groups@.len(),
            calls@.len() == base + start,
            first + whole =~= calls.deep_view() + expand_calls(
                line as int,
                end as int,
                gs,
                g as int,
                names,
                texts,
                start as int,
            ),
        decreases groups.len() - g,
    {
        assert(gs[g as int] == groups@[g as int].deep_view());
        let ghost before = calls.deep_view();
        let ghost row = Seq::new(
            texts.len(),
            |c: int|
                CollectedCall {
                    order: line * BZL_CALL_ORDER_STRIDE + start + c,
                    source_line: line as int,
                    source_end_line: end as int,
                    call: texts[c],
                    bindings: gs[g as int],
                    unpacked: names,
                },
        );
        let mut c: usize = 0;
        while c < block_calls.len()
            invariant
                gs == groups.deep_view(),
                names == unpacked.deep_view(),
                0 <= g < groups@.len(),
                gs[g as int] == groups@[g as int].deep_view(),
                texts == call_texts(positions_as_int(block_calls.deep_view())),
                texts.len() == block_calls@.len(),
                row == Seq::new(
                    texts.len(),
                    |c: int|
                        CollectedCall {
                            order: line * BZL_CALL_ORDER_STRIDE + start + c,
                            source_line: line as int,
                            source_end_line: end as int,
                            call: texts[c],
                            bindings: gs[g as int],
                            unpacked: names,
                        },
                ),
                0 <= c <= block_calls@.len(),
                calls@.len() == base + start + c,
                calls.deep_view() =~= before + row.take(c as int),
            decreases block_calls.len() - c,
        {
            let ghost so_far = calls.deep_view();
            let total: usize = calls.len();
            let order: u128 = line as u128 * BZL_CALL_ORDER_STRIDE as u128 + (start as u128
                + c as u128);
            let item = BzlmodCollectedTagCall {
                order,
                source_line: line,
                source_end_line: end,
                call: block_calls[c].1.clone(),
                bindings: groups[g].duplicate(),
                unpacked: unpacked.duplicate(),
            };
            proof {
                assert(block_calls.deep_view()[c as int] == block_calls@[c as int].deep_view());
                assert(positions_as_int(block_calls.deep_view())[c as int].1
                    == block_calls@[c as int].1@);
                assert(item.deep_view() == row[c as int]);
            }
            let ghost m = item.deep_view();
            calls.push(item);
            assert(calls.deep_view() =~= so_far.push(m));
            c += 1;
        }
        let total: usize = calls.len();
        assert(row.take(c as int) =~= row);
        start += block_calls.len();
        g += 1;
    }
    assert(calls.deep_view() + seq![] =~= calls.deep_view());
}

/// The calls of `function` in list comprehensions, once for each group of
/// bindings.
pub fn collect_bzl_list_comprehension_calls(
    lines: &Vec<String>,
    function: &str,
    constants: &Vec<(String, String)>,
) -> (r: Vec<BzlmodCollectedTagCall>)
    ensures
        r.deep_view() == comprehension_calls(
            lines.deep_view(),
            function@,
            constants.deep_view(),
            0,
        ),
{
    let ghost model = lines.deep_view();
    let ghost cs = constants.deep_view();
    let mut out: Vec<BzlmodCollectedTagCall> = Vec::new();
    let mut i: usize = 0;
    proof {
        reveal_strlit("[");
        reveal_strlit("\n");
        assert("["@ =~= seq!['[']);
        assert("\n"@ =~= seq!['\n']);
    }
    assert(out.deep_view() + comprehension_calls(model, function@, cs, 0) =~= comprehension_calls(
        model,
        function@,
        cs,
        0,
    ));
    while i < lines.len()
        invariant
            "["@ == seq!['['],
            "\n"@ == seq!['\n'],
            model == lines.deep_view(),
            cs == constants.deep_view(),
            0 <= i <= lines@.len(),
            out.deep_view() + comprehension_calls(model, function@, cs, i as int)
                =~= comprehension_calls(model, function@, cs, 0),
        decreases lines.len() - i,
    {
        assert(model[i as int] == lines@[i as int]@);
        let line = strip_bzl_comment(lines[i].as_str());
        if !starts_with(trim_start_of(line.as_str()), "[") {
            i += 1;
            continue ;
        }
        let (block, end) = block_from(lines, i);
        match bzl_list_comprehension_binding_groups(&block, constants) {
            Some(groups) => {
                let text = join_of(&block, "\n");
                let block_calls = collect_bzl_calls_anywhere_with_order(text.as_str(), function);
                let ghost before = out.deep_view();
                let unpacked = block_unpacked_of(&block);
                push_expanded(&mut out, i, end, &groups, &unpacked, &block_calls);
                proof {
                    let added = expand_calls(
                        i as int,
                        end as int,
                        groups.deep_view(),
                        0,
                        unpacked.deep_view(),
                        call_texts(positions_as_int(block_calls.deep_view())),
                        0,
                    );
                    let rest = comprehension_calls(model, function@, cs, end as int);
                    assert(before + (added + rest) =~= out.deep_view() + rest);
                }
            },
            None => {},
        }
        i = end;
    }
    out
}

/// Whether the first argument of a call is the given name.
pub open spec fn first_arg_is(call: Text, name: Text) -> bool {
    call_args(call).len() > 0 && trim(call_args(call)[0]) == name
}

pub fn first_arg_is_name(call: &str, name: &str) -> (r: bool)
    ensures
        r == first_arg_is(call@, name@),
{
    let args = bzl_call_args(call);
    assert(args.deep_view().len() == args@.len());
    if args.len() == 0 {
        false
    } else {
        assert(args.deep_view()[0] == args@[0]@);
        same(trim_of(args[0].as_str()), name)
    }
}

/// The texts of the calls.
pub open spec fn collected_texts(calls: Seq<CollectedCall>) -> Seq<Text> {
    Seq::new(calls.len(), |i: int| calls[i].call)
}

/// The imports of the calls that stand outside comprehensions.
pub open spec fn plain_imports(
    calls: Seq<Text>,
    expanded: Seq<Text>,
    proxy_name: Text,
    cs: Constants,
) -> Seq<BzlmodUseRepoImportModel>
    decreases calls.len(),
{
    if calls.len() == 0 {
        seq![]
    } else {
        let before = plain_imports(calls.drop_last(), expanded, proxy_name, cs);
        if !expanded.contains(calls.last()) && first_arg_is(calls.last(), proxy_name) {
            before + imports_of(rest_args(call_args(calls.last())), cs)
        } else {
            before
        }
    }
}

/// The imports of the calls in comprehensions, each under its bindings.
pub open spec fn expanded_imports(calls: Seq<CollectedCall>, proxy_name: Text, cs: Constants) -> Seq<
    BzlmodUseRepoImportModel,
>
    decreases calls.len(),
{
    if calls.len() == 0 {
        seq![]
    } else {
        let before = expanded_imports(calls.drop_last(), proxy_name, cs);
        let last = calls.last();
        if first_arg_is(last.call, proxy_name) {
            before + imports_of(rest_args(call_args(last.call)), last.bindings + cs)
        } else {
            before
        }
    }
}

/// The imports from an extension that a module file declares.
pub open spec fn extension_imports(lines: Seq<Text>, proxy_name: Text, cs: Constants) -> Seq<
    BzlmodUseRepoImportModel,
> {
    let expanded = comprehension_calls(lines, "use_repo("@, cs, 0);
    plain_imports(
        call_texts(calls(lines, "use_repo("@, 0)),
        collected_texts(expanded),
        proxy_name,
        cs,
    ) + expanded_imports(expanded, proxy_name, cs)
}

/// Whether one of the calls has this text.
fn has_call(calls: &Vec<BzlmodCollectedTagCall>, text: &str) -> (r: bool)
    ensures
        r == collected_texts(calls.deep_view()).contains(text@),
{
    let ghost texts = collected_texts(calls.deep_view());
    let mut i: usize = 0;
    while i < calls.len()
        invariant
            texts == collected_texts(calls.deep_view()),
            0 <= i <= calls@.len(),
            forall|j: int| 0 <= j < i ==> texts[j] != text@,
        decreases calls.len() - i,
    {
        assert(texts[i as int] == calls@[i as int].call@);
        if same(calls[i].call.as_str(), text) {
            return true;
        }
        i += 1;
    }
    false
}

fn append_imports(imports: &mut Vec<BzlmodUseRepoImport>, more: Vec<BzlmodUseRepoImport>)
    ensures
        final(imports).deep_view() == old(imports).deep_view() + more.deep_view(),
{
    let mut more = more;
    let ghost a = imports.deep_view();
    let ghost b = more.deep_view();
    imports.append(&mut more);
    assert(imports.deep_view() =~= a + b);
}

/// The imports from an extension that a module file declares.
pub fn bzlmod_extension_imports(
    lines: &Vec<String>,
    proxy_name: &str,
    constants: &Vec<(String, String)>,
) -> (r: Vec<BzlmodUseRepoImport>)
    ensures
        r.deep_view() == extension_imports(lines.deep_view(), proxy_name@, constants.deep_view()),
{
    let ghost cs = constants.deep_view();
    let expanded = collect_bzl_list_comprehension_calls(lines, "use_repo(", constants);
    let found = collect_bzl_calls(lines, "use_repo(");
    let ghost model = found.deep_view();
    let ghost texts = collected_texts(expanded.deep_view());
    let mut imports: Vec<BzlmodUseRepoImport> = Vec::new();
    let mut i: usize = 0;
    while i < found.len()
        invariant
            model == found.deep_view(),
            texts == collected_texts(expanded.deep_view()),
            cs == constants.deep_view(),
            0 <= i <= found@.len(),
            imports.deep_view() =~= plain_imports(model.take(i as int), texts, proxy_name@, cs),
        decreases found.len() - i,
    {
        proof {
            let t = model.take(i + 1);
            assert(t.drop_last() =~= model.take(i as int));
            assert(t.last() == found@[i as int]@);
        }
        let call = found[i].as_str();
        if !has_call(&expanded, call) && first_arg_is_name(call, proxy_name) {
            append_imports(&mut imports, bzl_use_repo_imports(call, constants));
        }
        i += 1;
    }
    assert(model.take(i as int) =~= model);
    let ghost plain = imports.deep_view();
    let ghost calls_model = expanded.deep_view();
    let mut j: usize = 0;
    assert(plain + seq![] =~= plain);
    while j < expanded.len()
        invariant
            calls_model == expanded.deep_view(),
            cs == constants.deep_view(),
            0 <= j <= expanded@.len(),
            imports.deep_view() =~= plain + expanded_imports(
                calls_model.take(j as int),
                proxy_name@,
                cs,
            ),
        decreases expanded.len() - j,
    {
        proof {
            let t = calls_model.take(j + 1);
            assert(t.drop_last() =~= calls_model.take(j as int));
            assert(t.last() == expanded@[j as int].deep_view());
        }
        let call = expanded[j].call.as_str();
        if first_arg_is_name(call, proxy_name) {
            let scope = bzl_constants_with_bindings(constants, &expanded[j].bindings);
            append_imports(&mut imports, bzl_use_repo_imports(call, &scope));
        }
        j += 1;
    }
    assert(calls_model.take(j as int) =~= calls_model);
    imports
}

/// Where development dependencies count, each call with a name gives a dependency of that
/// name, in order and whatever it says of itself. Where they do not, exactly the calls do
/// that are not marked `dev_dependency = True`.
pub proof fn law_dev_dependencies(calls: Seq<Text>)
    ensures
        deps_of(calls, false).map_values(|d: BazelDepModel| d.name) == calls.filter(
            |call: Text| string_arg(call, "name"@) is Some,
        ).map_values(|call: Text| string_arg(call, "name"@)->0),
        deps_of(calls, true) == deps_of(
            calls.filter(|call: Text| !bool_arg(call, "dev_dependency"@)),
            false,
        ),
    decreases calls.len(),
{
    reveal(Seq::filter);
    let counts = |call: Text| string_arg(call, "name"@) is Some;
    let lasting = |call: Text| !bool_arg(call, "dev_dependency"@);
    let names = |d: BazelDepModel| d.name;
    let name = |call: Text| string_arg(call, "name"@)->0;
    if calls.len() == 0 {
        assert(deps_of(calls, false).map_values(names) =~= calls.filter(counts).map_values(name));
    } else {
        let before = calls.drop_last();
        let call = calls.last();
        law_dev_dependencies(before);
        assert(deps_of(calls, false).map_values(names) =~= if counts(call) {
            deps_of(before, false).map_values(names).push(name(call))
        } else {
            deps_of(before, false).map_values(names)
        });
        assert(calls.filter(counts).map_values(name) =~= if counts(call) {
            before.filter(counts).map_values(name).push(name(call))
        } else {
            before.filter(counts).map_values(name)
        });
        if lasting(call) {
            let kept = before.filter(lasting).push(call);
            assert(calls.filter(lasting) == kept);
            assert(kept.drop_last() =~= before.filter(lasting));
            assert(kept.last() == call);
        }
    }
}

/// A single call that is marked as a development dependency gives its module with its
/// version to the root, and to no one else; one that is not gives it to all.
pub proof fn law_single_dependency(call: Text, name: Text, version: Text)
    requires
        string_arg(call, "name"@) == Some(name),
        string_arg(call, "version"@) == Some(version),
    ensures
        deps_of(seq![call], false).len() == 1,
        deps_of(seq![call], false)[0].name == name,
        deps_of(seq![call], false)[0].version == version,
        bool_arg(call, "dev_dependency"@) ==> deps_of(seq![call], true).len() == 0,
        !bool_arg(call, "dev_dependency"@) ==> deps_of(seq![call], true) == deps_of(
            seq![call],
            false,
        ),
{
    let calls = seq![call];
    assert(calls.drop_last() =~= seq![]);
    assert(calls.last() == call);
    assert(deps_of(calls.drop_last(), false) =~= seq![]);
    assert(deps_of(calls.drop_last(), true) =~= seq![]);
}

/// A module goes by the name of its `module` call and by its `repo_name`, as far as the
/// call gives them.
pub proof fn law_module_aliases(calls: Seq<Text>, call: Text, name: Text, repo_name: Text)
    ensures
        string_arg(call, "name"@) == Some(name) && !arg_is_none(call, "name"@) ==> aliases_of(
            calls.push(call),
        ).contains(name),
        string_arg(call, "repo_name"@) == Some(repo_name) && !arg_is_none(call, "repo_name"@)
            ==> aliases_of(calls.push(call)).contains(repo_name),
        string_arg(call, "name"@) is None && string_arg(call, "repo_name"@) is None ==> aliases_of(
            calls.push(call),
        ) == aliases_of(calls),
{
    let all = aliases_of(calls.push(call));
    let before = aliases_of(calls);
    let a = alias_arg(call, "name"@);
    let b = alias_arg(call, "repo_name"@);
    assert(calls.push(call).drop_last() =~= calls);
    assert(all =~= before + a + b);
    if a.len() > 0 {
        assert(all[before.len() as int] == a[0]);
    }
    if b.len() > 0 {
        assert(all[(before + a).len() as int] == b[0]);
    }
}

} // verus!
