//! Labels of extensions, rules and toolchains, resolved by the aliases of the
//! cell that they stand in.

use vstd::prelude::*;
use vstd::string::*;
use crate::external::{bzlmod_cell_name, cell_name_of};
use crate::module::{
    BzlmodExtensionId, BzlmodExtensionIdModel, BzlmodExtensionUsage, BzlmodExtensionUsageModel,
    BzlmodRepoOverrideModel, BzlmodResolvedExtension, BzlmodResolvedExtensionModel, InputError,
};
use crate::ordered::{
    Duplicate, KeyMap, law_lookup_after_put, law_put_sorted, lookup, put, result_view, sorted_items,
};
use crate::text::{
    Text, concat, concat3, contains, contains_text, is_whitespace, lemma_find_from,
    lemma_split_at_char, lemma_strip_put_prefix, occurs_at, rsplit_once, rsplit_once_of, same,
    split_once, split_once_of, starts_with, strip_prefix_of, trim, trim_of,
};

verus! {

/// The aliases of each cell: names of repositories with the cells that they
/// stand for.
pub type CellAliases = Seq<(Text, Seq<(Text, Text)>)>;

/// The aliases of one cell.
pub open spec fn aliases_in(aliases: CellAliases, cell: Text) -> Seq<(Text, Text)> {
    match lookup(aliases, cell) {
        Some(own) => own,
        None => seq![],
    }
}

/// The aliases with one more in a cell.
pub open spec fn with_alias(aliases: CellAliases, cell: Text, alias: Text, target: Text) -> CellAliases {
    put::<String, Seq<(Text, Text)>>(
        aliases,
        cell,
        put::<String, Text>(aliases_in(aliases, cell), alias, target),
    )
}

/// The cell that an alias stands for in a cell.
pub open spec fn alias_target(aliases: CellAliases, cell: Text, alias: Text) -> Option<Text> {
    lookup(aliases_in(aliases, cell), alias)
}

/// Cells in order, and the aliases of each in order.
pub open spec fn aliases_sorted(aliases: CellAliases) -> bool {
    &&& sorted_items::<String, Seq<(Text, Text)>>(aliases)
    &&& forall|i: int| 0 <= i < aliases.len() ==> sorted_items::<String, Text>(
        (#[trigger] aliases[i]).1,
    )
}

pub proof fn lemma_aliases_in_sorted(aliases: CellAliases, cell: Text)
    requires
        aliases_sorted(aliases),
    ensures
        sorted_items::<String, Text>(aliases_in(aliases, cell)),
    decreases aliases.len(),
{
    if aliases.len() > 0 {
        if aliases[0].0 != cell {
            let rest = aliases.skip(1);
            assert forall|i: int| 0 <= i < rest.len() implies sorted_items::<String, Text>(
                (#[trigger] rest[i]).1,
            ) by {
                assert(rest[i] == aliases[i + 1]);
            }
            assert(aliases_sorted(rest));
            lemma_aliases_in_sorted(rest, cell);
        }
    }
}

/// An alias added to a cell stands there for its target; every other alias, in
/// this cell or another, stands for what it stood for.
pub proof fn law_alias_after_add(
    aliases: CellAliases,
    cell: Text,
    alias: Text,
    target: Text,
    c: Text,
    a: Text,
)
    requires
        aliases_sorted(aliases),
    ensures
        alias_target(with_alias(aliases, cell, alias, target), c, a) == (if c == cell && a
            == alias {
            Some(target)
        } else {
            alias_target(aliases, c, a)
        }),
{
    let own = aliases_in(aliases, cell);
    let next = put::<String, Text>(own, alias, target);
    lemma_aliases_in_sorted(aliases, cell);
    law_lookup_after_put::<String, Seq<(Text, Text)>>(aliases, cell, next, c);
    law_lookup_after_put::<String, Text>(own, alias, target, a);
}

/// Adds an alias to a cell.
pub fn add_bzlmod_cell_alias(
    aliases_by_cell: &mut KeyMap<String, KeyMap<String, String>>,
    current_cell_name: &str,
    alias: &str,
    target_cell_name: &str,
)
    ensures
        final(aliases_by_cell).deep_view() == with_alias(
            old(aliases_by_cell).deep_view(),
            current_cell_name@,
            alias@,
            target_cell_name@,
        ),
{
    let cell = current_cell_name.to_owned();
    let mut own = match aliases_by_cell.get(&cell) {
        Some(own) => own.duplicate(),
        None => {
            let none: KeyMap<String, String> = KeyMap::new();
            assert(none.deep_view() =~= seq![]);
            none
        },
    };
    own.insert(alias.to_owned(), target_cell_name.to_owned());
    aliases_by_cell.insert(cell, own);
}

/// The cell that an alias stands for in a cell.
pub fn bzlmod_cell_alias_target<'a>(
    aliases_by_cell: &'a KeyMap<String, KeyMap<String, String>>,
    current_cell_name: &str,
    alias: &str,
) -> (r: Option<&'a str>)
    ensures
        match alias_target(aliases_by_cell.deep_view(), current_cell_name@, alias@) {
            Some(t) => r matches Some(x) && x@ == t,
            None => r is None,
        },
{
    match aliases_by_cell.get(&current_cell_name.to_owned()) {
        Some(own) => match own.get(&alias.to_owned()) {
            Some(target) => Some(target.as_str()),
            None => None,
        },
        None => None,
    }
}

/// The path of the file that package and target name; the message where the
/// target is empty.
pub open spec fn label_path(label: Text, package_and_target: Text) -> Result<Text, Text> {
    let (package, target) = match split_once(package_and_target, ":"@) {
        Some(t) => t,
        None => (
            package_and_target,
            match rsplit_once(package_and_target, "/"@) {
                Some((_, last)) => last,
                None => package_and_target,
            },
        ),
    };
    if target.len() == 0 {
        Err("bzlmod module extension label `"@ + label + "` has an empty target name"@)
    } else if package.len() == 0 {
        Ok(target)
    } else {
        Ok(package + "/"@ + target)
    }
}

/// The path of the file that package and target name.
pub fn bzlmod_label_package_target_to_path(label: &str, package_and_target: &str) -> (r: Result<
    String,
    InputError,
>)
    ensures
        result_view(r) == label_path(label@, package_and_target@),
{
    let (package, target) = match split_once_of(package_and_target, ":") {
        Some((package, target)) => (package, target),
        None => {
            let target = match rsplit_once_of(package_and_target, "/") {
                Some((_, last)) => last,
                None => package_and_target,
            };
            (package_and_target, target)
        },
    };
    if target.is_empty() {
        return Err(
            InputError {
                message: concat3(
                    "bzlmod module extension label `",
                    label,
                    "` has an empty target name",
                ),
            },
        );
    }
    if package.is_empty() {
        Ok(target.to_owned())
    } else {
        Ok(concat3(package, "/", target))
    }
}

/// The message for a label without `//`.
pub open spec fn not_absolute_message(label: Text) -> Text {
    "bzlmod module extension label `"@ + label + "` is not an absolute label"@
}

/// Cell and path where they are both known.
pub open spec fn in_cell(cell: Text, path: Result<Text, Text>) -> Result<(Text, Text), Text> {
    match path {
        Ok(path) => Ok((cell, path)),
        Err(message) => Err(message),
    }
}

/// Cell and path of the file that a label in a cell names.
pub open spec fn bzl_label(cell: Text, label: Text, aliases: CellAliases) -> Result<
    (Text, Text),
    Text,
> {
    if "@@"@.is_prefix_of(label) {
        match split_once(label.skip("@@"@.len() as int), "//"@) {
            None => Err(not_absolute_message(label)),
            Some((repo, rest)) => in_cell(
                if repo == "bazel_tools"@ {
                    "bazel_tools"@
                } else {
                    cell_name_of(repo)
                },
                label_path(label, rest),
            ),
        }
    } else if "@"@.is_prefix_of(label) {
        match split_once(label.skip("@"@.len() as int), "//"@) {
            None => Err(not_absolute_message(label)),
            Some((alias, rest)) => if alias == "bazel_tools"@ {
                in_cell("bazel_tools"@, label_path(label, rest))
            } else {
                match alias_target(aliases, cell, alias) {
                    Some(target) => in_cell(target, label_path(label, rest)),
                    None => Err(
                        "bzlmod module extension label `"@ + label + "` in cell `"@ + cell
                            + "` references unknown repo `"@ + alias + "`"@,
                    ),
                }
            },
        }
    } else if "//"@.is_prefix_of(label) {
        in_cell(cell, label_path(label, label.skip("//"@.len() as int)))
    } else if ":"@.is_prefix_of(label) {
        in_cell(cell, label_path(label, label))
    } else {
        Err(
            "bzlmod module extension label `"@ + label
                + "` is not an absolute or module-root-relative label"@,
        )
    }
}

fn not_absolute(label: &str) -> (r: InputError)
    ensures
        r.deep_view() == not_absolute_message(label@),
{
    InputError {
        message: concat3(
            "bzlmod module extension label `",
            label,
            "` is not an absolute label",
        ),
    }
}

fn with_cell(cell: &str, path: Result<String, InputError>) -> (r: Result<
    (String, String),
    InputError,
>)
    ensures
        result_view(r) == in_cell(cell@, result_view(path)),
{
    match path {
        Ok(path) => Ok((cell.to_owned(), path)),
        Err(e) => Err(e),
    }
}

/// Cell and path of the file that a label in a cell names.
pub fn bzlmod_resolve_extension_bzl_label(
    current_cell_name: &str,
    label: &str,
    cell_aliases_by_cell: &KeyMap<String, KeyMap<String, String>>,
) -> (r: Result<(String, String), InputError>)
    ensures
        result_view(r) == bzl_label(
            current_cell_name@,
            label@,
            cell_aliases_by_cell.deep_view(),
        ),
{
    match strip_prefix_of(label, "@@") {
        Some(rest) => {
            return match split_once_of(rest, "//") {
                None => Err(not_absolute(label)),
                Some((repo, rest)) => {
                    let cell = if same(repo, "bazel_tools") {
                        "bazel_tools".to_owned()
                    } else {
                        bzlmod_cell_name(repo)
                    };
                    with_cell(cell.as_str(), bzlmod_label_package_target_to_path(label, rest))
                },
            };
        },
        None => {},
    }
    match strip_prefix_of(label, "@") {
        Some(rest) => {
            return match split_once_of(rest, "//") {
                None => Err(not_absolute(label)),
                Some((alias, rest)) => {
                    if same(alias, "bazel_tools") {
                        with_cell(
                            "bazel_tools",
                            bzlmod_label_package_target_to_path(label, rest),
                        )
                    } else {
                        match bzlmod_cell_alias_target(
                            cell_aliases_by_cell,
                            current_cell_name,
                            alias,
                        ) {
                            Some(target) => with_cell(
                                target,
                                bzlmod_label_package_target_to_path(label, rest),
                            ),
                            None => {
                                let mut message = concat3(
                                    "bzlmod module extension label `",
                                    label,
                                    "` in cell `",
                                );
                                message.append(current_cell_name);
                                message.append("` references unknown repo `");
                                message.append(alias);
                                message.append("`");
                                Err(InputError { message })
                            },
                        }
                    }
                },
            };
        },
        None => {},
    }
    match strip_prefix_of(label, "//") {
        Some(rest) => {
            return with_cell(current_cell_name, bzlmod_label_package_target_to_path(label, rest));
        },
        None => {},
    }
    if starts_with(label, ":") {
        return with_cell(current_cell_name, bzlmod_label_package_target_to_path(label, label));
    }
    Err(
        InputError {
            message: concat3(
                "bzlmod module extension label `",
                label,
                "` is not an absolute or module-root-relative label",
            ),
        },
    )
}

/// The extension that a usage in a cell is of.
pub open spec fn extension_id(
    cell: Text,
    usage: BzlmodExtensionUsageModel,
    aliases: CellAliases,
) -> Result<BzlmodExtensionIdModel, Text> {
    match bzl_label(cell, usage.extension_bzl_file, aliases) {
        Ok((bzl_cell_name, bzl_path)) => Ok(
            BzlmodExtensionIdModel {
                bzl_cell_name,
                bzl_path,
                extension_name: usage.extension_name,
            },
        ),
        Err(message) => Err(message),
    }
}

/// The extension that a usage in a cell is of.
pub fn bzlmod_resolve_extension_id(
    current_cell_name: &str,
    usage: &BzlmodExtensionUsage,
    cell_aliases_by_cell: &KeyMap<String, KeyMap<String, String>>,
) -> (r: Result<BzlmodExtensionId, InputError>)
    ensures
        result_view(r) == extension_id(
            current_cell_name@,
            usage.deep_view(),
            cell_aliases_by_cell.deep_view(),
        ),
{
    match bzlmod_resolve_extension_bzl_label(
        current_cell_name,
        usage.extension_bzl_file.as_str(),
        cell_aliases_by_cell,
    ) {
        Ok((bzl_cell_name, bzl_path)) => Ok(
            BzlmodExtensionId {
                bzl_cell_name,
                bzl_path,
                extension_name: usage.extension_name.clone(),
            },
        ),
        Err(e) => Err(e),
    }
}

/// The extension that a usage in a cell is of, with its unique name.
pub open spec fn resolved_extension(
    cell: Text,
    usage: BzlmodExtensionUsageModel,
    aliases: CellAliases,
    unique_names: Seq<(BzlmodExtensionIdModel, Text)>,
) -> Result<BzlmodResolvedExtensionModel, Text> {
    match extension_id(cell, usage, aliases) {
        Err(message) => Err(message),
        Ok(id) => match lookup(unique_names, id) {
            Some(unique_name) => Ok(BzlmodResolvedExtensionModel { id, unique_name }),
            None => Err(
                "bzlmod module extension `"@ + usage.extension_bzl_file + "`%`"@
                    + usage.extension_name + "` in cell `"@ + cell
                    + "` was not assigned a unique name"@,
            ),
        },
    }
}

/// The extension that a usage in a cell is of, with its unique name.
pub fn bzlmod_resolve_extension(
    current_cell_name: &str,
    usage: &BzlmodExtensionUsage,
    cell_aliases_by_cell: &KeyMap<String, KeyMap<String, String>>,
    extension_unique_names: &KeyMap<BzlmodExtensionId, String>,
) -> (r: Result<BzlmodResolvedExtension, InputError>)
    ensures
        result_view(r) == resolved_extension(
            current_cell_name@,
            usage.deep_view(),
            cell_aliases_by_cell.deep_view(),
            extension_unique_names.deep_view(),
        ),
{
    let id = match bzlmod_resolve_extension_id(current_cell_name, usage, cell_aliases_by_cell) {
        Ok(id) => id,
        Err(e) => {
            return Err(e);
        },
    };
    match extension_unique_names.get(&id) {
        Some(unique_name) => {
            let unique_name = unique_name.clone();
            Ok(BzlmodResolvedExtension { id, unique_name })
        },
        None => {
            let mut message = concat3(
                "bzlmod module extension `",
                usage.extension_bzl_file.as_str(),
                "`%`",
            );
            message.append(usage.extension_name.as_str());
            message.append("` in cell `");
            message.append(current_cell_name);
            message.append("` was not assigned a unique name");
            Err(InputError { message })
        },
    }
}

/// The repository name of what an extension generates.
pub open spec fn extension_repo_name(unique_name: Text, repo_name: Text) -> Text {
    unique_name + "+"@ + repo_name
}

/// The repository name of what an extension generates.
pub fn bzlmod_extension_unique_repo_canonical_repo_name(
    extension_unique_name: &str,
    repo_name: &str,
) -> (r: String)
    ensures
        r@ == extension_repo_name(extension_unique_name@, repo_name@),
{
    concat3(extension_unique_name, "+", repo_name)
}

/// The repository name of what an extension generates.
pub fn bzlmod_extension_repo_canonical_repo_name(
    extension: &BzlmodResolvedExtension,
    repo_name: &str,
) -> (r: String)
    ensures
        r@ == extension_repo_name(extension.unique_name@, repo_name@),
{
    bzlmod_extension_unique_repo_canonical_repo_name(extension.unique_name.as_str(), repo_name)
}

/// The repository name of what a repository rule declares.
pub open spec fn rule_repo_name(parent: Text, parent_is_root: bool, rule: Text, repo: Text) -> Text {
    extension_repo_name(
        if parent_is_root {
            "+"@ + rule
        } else {
            parent + "+"@ + rule
        },
        repo,
    )
}

/// The repository name of what a repository rule declares.
pub fn bzlmod_use_repo_rule_canonical_repo_name(
    parent_canonical_repo_name: &str,
    parent_is_root: bool,
    rule_name: &str,
    repo_name: &str,
) -> (r: String)
    ensures
        r@ == rule_repo_name(
            parent_canonical_repo_name@,
            parent_is_root,
            rule_name@,
            repo_name@,
        ),
{
    let unique_name = if parent_is_root {
        concat("+", rule_name)
    } else {
        concat3(parent_canonical_repo_name, "+", rule_name)
    };
    bzlmod_extension_unique_repo_canonical_repo_name(unique_name.as_str(), repo_name)
}

/// The path of a file as a label writes it: package, colon, file.
pub open spec fn path_as_label(path: Text) -> Text {
    match rsplit_once(path, "/"@) {
        Some((package, target)) => package + ":"@ + target,
        None => ":"@ + path,
    }
}

/// The path of a file as a label writes it.
pub fn bzlmod_bzl_path_to_label_path(path: &str) -> (r: String)
    ensures
        r@ == path_as_label(path@),
{
    match rsplit_once_of(path, "/") {
        Some((package, target)) => concat3(package, ":", target),
        None => concat(":", path),
    }
}

/// The message for an extension in a cell that nothing is known of.
pub open spec fn unknown_cell_message(id: BzlmodExtensionIdModel) -> Text {
    "bzlmod module extension `"@ + id.bzl_cell_name + "//"@ + id.bzl_path + "%"@
        + id.extension_name + "` resolves to unknown cell `"@ + id.bzl_cell_name + "`"@
}

/// The error for an extension in a cell that nothing is known of.
pub fn unknown_extension_cell(id: &BzlmodExtensionId) -> (r: InputError)
    ensures
        r.deep_view() == unknown_cell_message(id.deep_view()),
{
    let mut message = concat3("bzlmod module extension `", id.bzl_cell_name.as_str(), "//");
    message.append(id.bzl_path.as_str());
    message.append("%");
    message.append(id.extension_name.as_str());
    message.append("` resolves to unknown cell `");
    message.append(id.bzl_cell_name.as_str());
    message.append("`");
    InputError { message }
}

/// The key that the lockfile has for an extension.
pub open spec fn lockfile_key(id: BzlmodExtensionIdModel, names: Seq<(Text, Text)>) -> Result<
    Text,
    Text,
> {
    let repo = if id.bzl_cell_name == "root"@ {
        Some(seq![])
    } else {
        lookup(names, id.bzl_cell_name)
    };
    match repo {
        None => Err(unknown_cell_message(id)),
        Some(repo) => if repo.len() == 0 {
            Ok("//"@ + path_as_label(id.bzl_path) + "%"@ + id.extension_name)
        } else {
            Ok("@@"@ + repo + "//"@ + path_as_label(id.bzl_path) + "%"@ + id.extension_name)
        },
    }
}

/// The key that the lockfile has for an extension.
pub fn bzlmod_lockfile_extension_key(
    extension_id: &BzlmodExtensionId,
    canonical_repo_names_by_cell: &KeyMap<String, String>,
) -> (r: Result<String, InputError>)
    ensures
        result_view(r) == lockfile_key(
            extension_id.deep_view(),
            canonical_repo_names_by_cell.deep_view(),
        ),
{
    let path = bzlmod_bzl_path_to_label_path(extension_id.bzl_path.as_str());
    let mut key = String::new();
    if same(extension_id.bzl_cell_name.as_str(), "root") {
        key.append("//");
        assert(key@ =~= "//"@);
    } else {
        match canonical_repo_names_by_cell.get(&extension_id.bzl_cell_name) {
            None => {
                return Err(unknown_extension_cell(extension_id));
            },
            Some(repo) => {
                if repo.as_str().is_empty() {
                    key.append("//");
                    assert(key@ =~= "//"@);
                } else {
                    key.append("@@");
                    assert(key@ =~= "@@"@);
                    key.append(repo.as_str());
                    key.append("//");
                }
            },
        }
    }
    key.append(path.as_str());
    key.append("%");
    key.append(extension_id.extension_name.as_str());
    Ok(key)
}

/// The message for a toolchain pattern without `//`.
pub open spec fn pattern_not_absolute(pattern: Text, cell: Text) -> Text {
    "bzlmod registered toolchain pattern `"@ + pattern + "` in cell `"@ + cell
        + "` is not an absolute target pattern"@
}

/// A toolchain pattern of a module, with the cell that it lies in.
pub open spec fn qualified_toolchain(pattern: Text, cell: Text, aliases: CellAliases) -> Result<
    Text,
    Text,
> {
    let p = trim(pattern);
    if "//"@.is_prefix_of(p) {
        Ok(cell + "//"@ + p.skip("//"@.len() as int))
    } else if "@@"@.is_prefix_of(p) {
        Ok(p)
    } else if "@"@.is_prefix_of(p) {
        match split_once(p.skip("@"@.len() as int), "//"@) {
            None => Err(pattern_not_absolute(p, cell)),
            Some((alias, rest)) => if alias.len() == 0 {
                Ok(cell + "//"@ + rest)
            } else if alias == "bazel_tools"@ {
                Ok("bazel_tools//"@ + rest)
            } else {
                match alias_target(aliases, cell, alias) {
                    Some(target) => Ok(target + "//"@ + rest),
                    None => Err(
                        "bzlmod registered toolchain pattern `"@ + p + "` in cell `"@ + cell
                            + "` references unknown repo `"@ + alias + "`"@,
                    ),
                }
            },
        }
    } else if contains_text(p, "//"@) {
        Ok(p)
    } else {
        Err(pattern_not_absolute(p, cell))
    }
}

fn pattern_error(pattern: &str, cell: &str) -> (r: InputError)
    ensures
        r.deep_view() == pattern_not_absolute(pattern@, cell@),
{
    let mut message = concat3("bzlmod registered toolchain pattern `", pattern, "` in cell `");
    message.append(cell);
    message.append("` is not an absolute target pattern");
    InputError { message }
}

/// A toolchain pattern of a module, with the cell that it lies in.
pub fn qualify_bzlmod_registered_toolchain(
    pattern: &str,
    module_cell_name: &str,
    cell_aliases_by_cell: &KeyMap<String, KeyMap<String, String>>,
) -> (r: Result<String, InputError>)
    ensures
        result_view(r) == qualified_toolchain(
            pattern@,
            module_cell_name@,
            cell_aliases_by_cell.deep_view(),
        ),
{
    let p = trim_of(pattern);
    match strip_prefix_of(p, "//") {
        Some(rest) => {
            return Ok(concat3(module_cell_name, "//", rest));
        },
        None => {},
    }
    if starts_with(p, "@@") {
        return Ok(p.to_owned());
    }
    match strip_prefix_of(p, "@") {
        Some(rest) => {
            return match split_once_of(rest, "//") {
                None => Err(pattern_error(p, module_cell_name)),
                Some((alias, rest)) => {
                    if alias.is_empty() {
                        Ok(concat3(module_cell_name, "//", rest))
                    } else if same(alias, "bazel_tools") {
                        Ok(concat("bazel_tools//", rest))
                    } else {
                        match bzlmod_cell_alias_target(
                            cell_aliases_by_cell,
                            module_cell_name,
                            alias,
                        ) {
                            Some(target) => Ok(concat3(target, "//", rest)),
                            None => {
                                let mut message = concat3(
                                    "bzlmod registered toolchain pattern `",
                                    p,
                                    "` in cell `",
                                );
                                message.append(module_cell_name);
                                message.append("` references unknown repo `");
                                message.append(alias);
                                message.append("`");
                                Err(InputError { message })
                            },
                        }
                    }
                },
            };
        },
        None => {},
    }
    if contains(p, "//") {
        Ok(p.to_owned())
    } else {
        Err(pattern_error(p, module_cell_name))
    }
}

/// The cell that each overridden repository of an extension stands for, from the
/// override `i` on; the message where the overriding repository is not visible.
pub open spec fn override_targets(
    overrides: Seq<BzlmodRepoOverrideModel>,
    cell: Text,
    aliases: CellAliases,
    id: BzlmodExtensionIdModel,
    i: int,
    done: Seq<(Text, Text)>,
) -> Result<Seq<(Text, Text)>, Text>
    decreases overrides.len() - i,
{
    if i < 0 || i >= overrides.len() {
        Ok(done)
    } else {
        let o = overrides[i];
        match alias_target(aliases, cell, o.overriding_repo_name) {
            Some(target) => override_targets(
                overrides,
                cell,
                aliases,
                id,
                i + 1,
                put::<String, Text>(done, o.repo_name, target),
            ),
            None => Err(
                "bzlmod module extension `"@ + id.bzl_cell_name + "//"@ + id.bzl_path + "%"@
                    + id.extension_name + "` maps repository `"@ + o.repo_name + "` to `"@
                    + o.overriding_repo_name + "`, but `"@ + o.overriding_repo_name
                    + "` is not visible from `"@ + cell + "`"@,
            ),
        }
    }
}

/// The cell that each overridden repository of an extension stands for.
pub fn bzlmod_extension_repo_override_targets(
    usage: &BzlmodExtensionUsage,
    parent_cell_name: &str,
    cell_aliases_by_cell: &KeyMap<String, KeyMap<String, String>>,
    resolved_extension: &BzlmodResolvedExtension,
) -> (r: Result<KeyMap<String, String>, InputError>)
    ensures
        result_view(r) == override_targets(
            usage.deep_view().repo_overrides,
            parent_cell_name@,
            cell_aliases_by_cell.deep_view(),
            resolved_extension.deep_view().id,
            0,
            seq![],
        ),
{
    let overrides = &usage.repo_overrides;
    let ghost model = overrides.deep_view();
    let ghost id = resolved_extension.deep_view().id;
    let mut targets: KeyMap<String, String> = KeyMap::new();
    let mut i: usize = 0;
    assert(targets.deep_view() =~= seq![]);
    while i < overrides.len()
        invariant
            model == usage.deep_view().repo_overrides,
            model == overrides.deep_view(),
            id == resolved_extension.deep_view().id,
            0 <= i <= overrides@.len(),
            override_targets(
                model,
                parent_cell_name@,
                cell_aliases_by_cell.deep_view(),
                id,
                0,
                seq![],
            ) == override_targets(
                model,
                parent_cell_name@,
                cell_aliases_by_cell.deep_view(),
                id,
                i as int,
                targets.deep_view(),
            ),
        decreases overrides.len() - i,
    {
        let o = &overrides[i];
        assert(model[i as int] == o.deep_view());
        match bzlmod_cell_alias_target(
            cell_aliases_by_cell,
            parent_cell_name,
            o.overriding_repo_name.as_str(),
        ) {
            Some(target) => {
                targets.insert(o.repo_name.clone(), target.to_owned());
            },
            None => {
                let id = &resolved_extension.id;
                let mut message = concat3(
                    "bzlmod module extension `",
                    id.bzl_cell_name.as_str(),
                    "//",
                );
                message.append(id.bzl_path.as_str());
                message.append("%");
                message.append(id.extension_name.as_str());
                message.append("` maps repository `");
                message.append(o.repo_name.as_str());
                message.append("` to `");
                message.append(o.overriding_repo_name.as_str());
                message.append("`, but `");
                message.append(o.overriding_repo_name.as_str());
                message.append("` is not visible from `");
                message.append(parent_cell_name);
                message.append("`");
                return Err(InputError { message });
            },
        }
        i += 1;
    }
    Ok(targets)
}

proof fn lemma_after_slashes(a: Text, x: Text)
    requires
        !a.contains('/'),
    ensures
        split_once(a + "//"@ + x, "//"@) == Some((a, x)),
{
    reveal_strlit("//");
    let p = "//"@;
    let s = a + p + x;
    let n = a.len() as int;
    lemma_find_from(s, p, 0);
    assert(s.subrange(n, n + 2) =~= p);
    assert(occurs_at(s, p, n));
    assert forall|j: int| 0 <= j < n implies !#[trigger] occurs_at(s, p, j) by {
        if occurs_at(s, p, j) {
            assert(s.subrange(j, j + 2)[0] == a[j]);
            assert(a.contains(a[j]));
        }
    }
    assert(s.take(n) =~= a);
    assert(s.skip(n + 2) =~= x);
}

/// The file of a label lies in the repository behind `@@`, in the one that the cell knows by
/// the name behind `@`, or in the cell itself where no repository is named; its path is the
/// package with the target below it.
pub proof fn law_label_names_file(
    cell: Text,
    repo: Text,
    package: Text,
    target: Text,
    aliases: CellAliases,
)
    requires
        repo.len() > 0,
        !repo.contains('/'),
        repo[0] != '@',
        repo != "bazel_tools"@,
        package.len() > 0,
        !package.contains(':'),
        target.len() > 0,
    ensures
        bzl_label(cell, "@@"@ + repo + "//"@ + package + ":"@ + target, aliases) == Ok::<
            (Text, Text),
            Text,
        >((cell_name_of(repo), package + "/"@ + target)),
        alias_target(aliases, cell, repo) is Some ==> bzl_label(
            cell,
            "@"@ + repo + "//"@ + package + ":"@ + target,
            aliases,
        ) == Ok::<(Text, Text), Text>(
            (alias_target(aliases, cell, repo)->0, package + "/"@ + target),
        ),
        alias_target(aliases, cell, repo) is None ==> bzl_label(
            cell,
            "@"@ + repo + "//"@ + package + ":"@ + target,
            aliases,
        ) is Err,
        bzl_label(cell, "//"@ + package + ":"@ + target, aliases) == Ok::<(Text, Text), Text>(
            (cell, package + "/"@ + target),
        ),
{
    reveal_strlit("@@");
    reveal_strlit("@");
    reveal_strlit("//");
    reveal_strlit(":");
    assert(":"@ =~= seq![':']);
    let rest = package + ":"@ + target;
    lemma_split_at_char(package, ':', target);
    lemma_after_slashes(repo, rest);
    let whole = "@@"@ + repo + "//"@ + package + ":"@ + target;
    assert(whole =~= "@@"@ + (repo + "//"@ + rest));
    lemma_strip_put_prefix("@@"@, repo + "//"@ + rest);
    let near = "@"@ + repo + "//"@ + package + ":"@ + target;
    assert(near =~= "@"@ + (repo + "//"@ + rest));
    lemma_strip_put_prefix("@"@, repo + "//"@ + rest);
    if "@@"@.is_prefix_of(near) {
        assert(near.subrange(0, 2)[1] == near[1]);
        assert(near[1] == repo[0]);
    }
    let own = "//"@ + package + ":"@ + target;
    assert(own =~= "//"@ + rest);
    lemma_strip_put_prefix("//"@, rest);
    assert(own[0] == '/');
    if "@@"@.is_prefix_of(own) {
        assert(own.subrange(0, 2)[0] == own[0]);
    }
    if "@"@.is_prefix_of(own) {
        assert(own.subrange(0, 1)[0] == own[0]);
    }
}

/// The override that stands last for a repository decides what takes its place: the cell
/// that the overriding name stands for in the module's cell.
pub proof fn law_last_override_decides(
    overrides: Seq<BzlmodRepoOverrideModel>,
    cell: Text,
    aliases: CellAliases,
    id: BzlmodExtensionIdModel,
    i: int,
    done: Seq<(Text, Text)>,
    name: Text,
)
    requires
        0 <= i <= overrides.len(),
        sorted_items::<String, Text>(done),
    ensures
        override_targets(overrides, cell, aliases, id, i, done) matches Ok(out) ==> {
            &&& (forall|j: int|
                i <= j < overrides.len() ==> (#[trigger] overrides[j]).repo_name != name)
                ==> lookup(out, name) == lookup(done, name)
            &&& forall|k: int|
                i <= k < overrides.len() && (#[trigger] overrides[k]).repo_name == name && (forall|
                    j: int,
                |
                    k < j < overrides.len() ==> (#[trigger] overrides[j]).repo_name != name)
                    ==> lookup(out, name) is Some && lookup(out, name) == alias_target(
                    aliases,
                    cell,
                    overrides[k].overriding_repo_name,
                )
        },
    decreases overrides.len() - i,
{
    if i < overrides.len() {
        let o = overrides[i];
        if let Some(target) = alias_target(aliases, cell, o.overriding_repo_name) {
            law_put_sorted::<String, Text>(done, o.repo_name, target);
            law_lookup_after_put::<String, Text>(done, o.repo_name, target, name);
            law_last_override_decides(
                overrides,
                cell,
                aliases,
                id,
                i + 1,
                put::<String, Text>(done, o.repo_name, target),
                name,
            );
        }
    }
}

/// A toolchain pattern lies in the module's own cell where it names no repository, in the
/// one that the cell knows by the name behind `@`, and stays as it is behind `@@`.
pub proof fn law_toolchain_pattern(cell: Text, repo: Text, rest: Text, aliases: CellAliases)
    requires
        repo.len() > 0,
        !repo.contains('/'),
        repo[0] != '@',
        repo != "bazel_tools"@,
        rest.len() > 0,
        !is_whitespace(rest.last()),
    ensures
        qualified_toolchain("//"@ + rest, cell, aliases) == Ok::<Text, Text>(cell + "//"@ + rest),
        qualified_toolchain("@@"@ + rest, cell, aliases) == Ok::<Text, Text>("@@"@ + rest),
        alias_target(aliases, cell, repo) is Some ==> qualified_toolchain(
            "@"@ + repo + "//"@ + rest,
            cell,
            aliases,
        ) == Ok::<Text, Text>(alias_target(aliases, cell, repo)->0 + "//"@ + rest),
        alias_target(aliases, cell, repo) is None ==> qualified_toolchain(
            "@"@ + repo + "//"@ + rest,
            cell,
            aliases,
        ) is Err,
{
    reveal_strlit("@@");
    reveal_strlit("@");
    reveal_strlit("//");
    let own = "//"@ + rest;
    let whole = "@@"@ + rest;
    let near = "@"@ + repo + "//"@ + rest;
    assert(own[0] == '/' && whole[0] == '@' && near[0] == '@');
    assert(own.last() == rest.last() && whole.last() == rest.last() && near.last() == rest.last());
    assert(trim(own) == own && trim(whole) == whole && trim(near) == near);
    lemma_strip_put_prefix("//"@, rest);
    lemma_strip_put_prefix("@@"@, rest);
    assert(near =~= "@"@ + (repo + "//"@ + rest));
    lemma_strip_put_prefix("@"@, repo + "//"@ + rest);
    lemma_after_slashes(repo, rest);
    if "//"@.is_prefix_of(whole) {
        assert(whole.subrange(0, 2)[0] == whole[0]);
    }
    if "//"@.is_prefix_of(near) {
        assert(near.subrange(0, 2)[0] == near[0]);
    }
    if "@@"@.is_prefix_of(near) {
        assert(near.subrange(0, 2)[1] == near[1]);
        assert(near[1] == repo[0]);
    }
}

} // verus!
