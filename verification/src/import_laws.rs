//! What holds of the aliases that usages of extensions give cells.

use vstd::prelude::*;
use crate::extension_repos::{
    UsageContext, UsageRun, extension_repo_generator, implied_names, import_repo_names, import_step,
    import_steps, import_steps_left, open_imports, remaining_repos, required_overrides, usage_repos,
    usage_repos_left, with_group_repo, with_override_group,
};
use crate::external::cell_name_of;
use crate::generated::{lemma_repo_appended, repos_appended, tag_repo_names, with_repo};
use crate::graph::put_all;
use crate::labels::{
    CellAliases, alias_target, aliases_in, aliases_sorted, extension_repo_name, law_alias_after_add,
    lemma_aliases_in_sorted, lockfile_key, override_targets, resolved_extension, with_alias,
};
use crate::module::{BzlmodExtensionIdModel, BzlmodExtensionUsageModel, BzlmodUseRepoImportModel};
use crate::ordered::{
    OrderedKey, law_put_sorted, law_set_put_contains, lookup, put, set_put, set_put_all,
    sorted_items,
};
use crate::resolved::GeneratedReposModel;
use crate::text::Text;

verus! {

/// Every alias that stood for a cell stands for the same cell.
pub open spec fn aliases_kept(before: CellAliases, after: CellAliases) -> bool {
    forall|cell: Text, alias: Text|
        (#[trigger] alias_target(before, cell, alias)) is Some ==> alias_target(after, cell, alias)
            == alias_target(before, cell, alias)
}

proof fn lemma_put_sorted_aliases(aliases: CellAliases, cell: Text, own: Seq<(Text, Text)>)
    requires
        forall|i: int| 0 <= i < aliases.len() ==> sorted_items::<String, Text>(
            (#[trigger] aliases[i]).1,
        ),
        sorted_items::<String, Text>(own),
    ensures
        ({
            let out = put::<String, Seq<(Text, Text)>>(aliases, cell, own);
            forall|i: int| 0 <= i < out.len() ==> sorted_items::<String, Text>(
                (#[trigger] out[i]).1,
            )
        }),
    decreases aliases.len(),
{
    let out = put::<String, Seq<(Text, Text)>>(aliases, cell, own);
    if aliases.len() > 0 {
        let rest = aliases.skip(1);
        assert forall|i: int| 0 <= i < rest.len() implies sorted_items::<String, Text>(
            (#[trigger] rest[i]).1,
        ) by {
            assert(rest[i] == aliases[i + 1]);
        }
        lemma_put_sorted_aliases(rest, cell, own);
        let tail = put::<String, Seq<(Text, Text)>>(rest, cell, own);
        assert forall|i: int| 0 <= i < out.len() implies sorted_items::<String, Text>(
            (#[trigger] out[i]).1,
        ) by {
            if aliases[0].0 == cell {
                assert(i > 0 ==> out[i] == aliases[i]);
            } else if String::key_lt(cell, aliases[0].0) {
                assert(i > 0 ==> out[i] == aliases[i - 1]);
            } else {
                assert(i > 0 ==> out[i] == tail[i - 1]);
                assert(out[0] == aliases[0]);
            }
        }
    }
}

/// An alias leaves cells and aliases in order.
pub proof fn law_alias_in_order(aliases: CellAliases, cell: Text, alias: Text, target: Text)
    requires
        aliases_sorted(aliases),
    ensures
        aliases_sorted(with_alias(aliases, cell, alias, target)),
{
    let own = put::<String, Text>(aliases_in(aliases, cell), alias, target);
    lemma_aliases_in_sorted(aliases, cell);
    law_put_sorted::<String, Text>(aliases_in(aliases, cell), alias, target);
    law_put_sorted::<String, Seq<(Text, Text)>>(aliases, cell, own);
    lemma_put_sorted_aliases(aliases, cell, own);
}

proof fn lemma_import_step(c: UsageContext, import: BzlmodUseRepoImportModel, run: UsageRun)
    requires
        aliases_sorted(run.repos.aliases),
    ensures
        import_step(c, import, run) matches Ok(next) ==> {
            &&& aliases_sorted(next.repos.aliases)
            &&& alias_target(next.repos.aliases, c.cell, import.alias) is Some
            &&& forall|cell: Text, alias: Text|
                !(cell == c.cell && alias == import.alias) ==> #[trigger] alias_target(
                    next.repos.aliases,
                    cell,
                    alias,
                ) == alias_target(run.repos.aliases, cell, alias)
        },
{
    if let Ok(next) = import_step(c, import, run) {
        let repo = import.repo_name;
        let target = match lookup(c.targets, repo) {
            Some(target) => target,
            None => match lookup(run.existing, repo) {
                Some(cell) => cell,
                None => cell_name_of(extension_repo_name(c.extension.unique_name, repo)),
            },
        };
        assert(next.repos.aliases == with_alias(run.repos.aliases, c.cell, import.alias, target));
        law_alias_in_order(run.repos.aliases, c.cell, import.alias, target);
        law_alias_after_add(
            run.repos.aliases,
            c.cell,
            import.alias,
            target,
            c.cell,
            import.alias,
        );
        assert forall|cell: Text, alias: Text|
            !(cell == c.cell && alias == import.alias) implies #[trigger] alias_target(
            next.repos.aliases,
            cell,
            alias,
        ) == alias_target(run.repos.aliases, cell, alias) by {
            law_alias_after_add(
                run.repos.aliases,
                c.cell,
                import.alias,
                target,
                cell,
                alias,
            );
        }
    }
}

proof fn lemma_import_steps(
    c: UsageContext,
    imports: Seq<BzlmodUseRepoImportModel>,
    i: int,
    run: UsageRun,
    before: CellAliases,
)
    requires
        0 <= i <= imports.len(),
        aliases_sorted(run.repos.aliases),
        aliases_kept(before, run.repos.aliases),
        forall|j: int|
            0 <= j < imports.len() ==> alias_target(
                before,
                c.cell,
                (#[trigger] imports[j]).alias,
            ) is None,
        forall|j: int|
            0 <= j < i ==> alias_target(
                run.repos.aliases,
                c.cell,
                (#[trigger] imports[j]).alias,
            ) is Some,
    ensures
        import_steps(c, imports, i, run) matches Ok(done) ==> {
            &&& aliases_sorted(done.repos.aliases)
            &&& aliases_kept(before, done.repos.aliases)
            &&& forall|j: int|
                0 <= j < imports.len() ==> alias_target(
                    done.repos.aliases,
                    c.cell,
                    (#[trigger] imports[j]).alias,
                ) is Some
        },
    decreases imports.len() - i,
{
    if i < imports.len() {
        lemma_import_step(c, imports[i], run);
        if let Ok(next) = import_step(c, imports[i], run) {
            assert forall|j: int| 0 <= j < i + 1 implies alias_target(
                next.repos.aliases,
                c.cell,
                (#[trigger] imports[j]).alias,
            ) is Some by {
                if j < i && imports[j].alias != imports[i].alias {
                    assert(alias_target(next.repos.aliases, c.cell, imports[j].alias)
                        == alias_target(run.repos.aliases, c.cell, imports[j].alias));
                }
            }
            assert forall|cell: Text, alias: Text|
                (#[trigger] alias_target(before, cell, alias)) is Some implies alias_target(
                next.repos.aliases,
                cell,
                alias,
            ) == alias_target(before, cell, alias) by {
                assert(alias_target(before, c.cell, imports[i].alias) is None);
                assert(alias_target(next.repos.aliases, cell, alias) == alias_target(
                    run.repos.aliases,
                    cell,
                    alias,
                ));
            }
            lemma_import_steps(c, imports, i + 1, next, before);
        }
    }
}

/// An alias stands for what it stood for, but for those of a cell's imports that
/// stood for nothing there.
pub open spec fn only_imports_added(
    before: CellAliases,
    after: CellAliases,
    cell: Text,
    imports: Seq<BzlmodUseRepoImportModel>,
) -> bool {
    forall|c: Text, a: Text|
        (#[trigger] alias_target(after, c, a)) == alias_target(before, c, a) || (c == cell
            && alias_target(before, c, a) is None && names_import(imports, a))
}

/// One of the imports has the alias.
pub open spec fn names_import(imports: Seq<BzlmodUseRepoImportModel>, alias: Text) -> bool {
    exists|i: int| 0 <= i < imports.len() && (#[trigger] imports[i]).alias == alias
}

proof fn lemma_step_appends(
    before: GeneratedReposModel,
    c: UsageContext,
    import: BzlmodUseRepoImportModel,
    run: UsageRun,
)
    requires
        repos_appended(before, run.repos),
    ensures
        import_step(c, import, run) matches Ok(next) ==> repos_appended(before, next.repos),
{
    if let Ok(next) = import_step(c, import, run) {
        if lookup(c.targets, import.repo_name) is None && lookup(
            run.existing,
            import.repo_name,
        ) is None {
            lemma_repo_appended(
                before,
                run.repos,
                next.repos,
                next.repos.modules.last(),
                next.repos.declaring_cells.last(),
            );
        }
    }
}

proof fn lemma_steps_append(
    before: GeneratedReposModel,
    c: UsageContext,
    imports: Seq<BzlmodUseRepoImportModel>,
    i: int,
    run: UsageRun,
)
    requires
        repos_appended(before, run.repos),
    ensures
        repos_appended(before, import_steps_left(c, imports, i, run)),
        import_steps(c, imports, i, run) matches Ok(done) ==> repos_appended(before, done.repos),
    decreases imports.len() - i,
{
    if 0 <= i < imports.len() {
        lemma_step_appends(before, c, imports[i], run);
        if let Ok(next) = import_step(c, imports[i], run) {
            lemma_steps_append(before, c, imports, i + 1, next);
        }
    }
}

proof fn lemma_remaining_appends(
    before: GeneratedReposModel,
    c: UsageContext,
    names: Seq<Text>,
    i: int,
    g: GeneratedReposModel,
    existing: Seq<(Text, Text)>,
)
    requires
        repos_appended(before, g),
    ensures
        repos_appended(before, remaining_repos(c, names, i, g, existing)),
    decreases names.len() - i,
{
    if 0 <= i < names.len() {
        if lookup(existing, names[i]) is Some {
            lemma_remaining_appends(before, c, names, i + 1, g, existing);
        } else {
            let canonical = extension_repo_name(c.extension.unique_name, names[i]);
            let generator = extension_repo_generator(
                c.extension,
                c.parent,
                c.is_root,
                c.usage,
                names[i],
                c.json,
            );
            let next = with_group_repo(
                with_repo(g, c.extension.id.bzl_cell_name, canonical, generator),
                c.extension.unique_name,
                names[i],
                cell_name_of(canonical),
            );
            lemma_repo_appended(
                before,
                g,
                next,
                next.modules.last(),
                next.declaring_cells.last(),
            );
            lemma_remaining_appends(
                before,
                c,
                names,
                i + 1,
                next,
                put::<String, Text>(existing, names[i], cell_name_of(canonical)),
            );
        }
    }
}

proof fn lemma_steps_add(
    before: CellAliases,
    all: Seq<BzlmodUseRepoImportModel>,
    c: UsageContext,
    imports: Seq<BzlmodUseRepoImportModel>,
    i: int,
    run: UsageRun,
)
    requires
        0 <= i,
        aliases_sorted(run.repos.aliases),
        only_imports_added(before, run.repos.aliases, c.cell, all),
        forall|j: int|
            0 <= j < imports.len() ==> names_import(all, (#[trigger] imports[j]).alias)
                && alias_target(before, c.cell, imports[j].alias) is None,
    ensures
        only_imports_added(before, import_steps_left(c, imports, i, run).aliases, c.cell, all),
        import_steps(c, imports, i, run) matches Ok(done) ==> only_imports_added(
            before,
            done.repos.aliases,
            c.cell,
            all,
        ),
    decreases imports.len() - i,
{
    if i < imports.len() {
        lemma_import_step(c, imports[i], run);
        if let Ok(next) = import_step(c, imports[i], run) {
            assert forall|cell: Text, a: Text|
                (#[trigger] alias_target(next.repos.aliases, cell, a)) == alias_target(
                    before,
                    cell,
                    a,
                ) || (cell == c.cell && alias_target(before, cell, a) is None && names_import(
                    all,
                    a,
                )) by {
                if !(cell == c.cell && a == imports[i].alias) {
                    assert(alias_target(next.repos.aliases, cell, a) == alias_target(
                        run.repos.aliases,
                        cell,
                        a,
                    ));
                }
            }
            lemma_steps_add(before, all, c, imports, i + 1, next);
        }
    }
}

proof fn lemma_open_named(
    imports: Seq<BzlmodUseRepoImportModel>,
    cell: Text,
    aliases: CellAliases,
)
    ensures
        forall|j: int|
            0 <= j < open_imports(imports, cell, aliases).len() ==> names_import(
                imports,
                (#[trigger] open_imports(imports, cell, aliases)[j]).alias,
            ),
    decreases imports.len(),
{
    if imports.len() > 0 {
        let init = imports.drop_last();
        lemma_open_named(init, cell, aliases);
        let before = open_imports(init, cell, aliases);
        let open = open_imports(imports, cell, aliases);
        assert forall|j: int| 0 <= j < open.len() implies names_import(
            imports,
            (#[trigger] open[j]).alias,
        ) by {
            if j < before.len() {
                assert(open[j] == before[j]);
                let k = choose|k: int|
                    0 <= k < init.len() && (#[trigger] init[k]).alias == before[j].alias;
                assert(imports[k] == init[k]);
            } else {
                assert(imports[imports.len() - 1].alias == open[j].alias);
            }
        }
    }
}

/// Whether a usage of an extension succeeds or fails: the modules and declaring
/// cells of before stand in front of the new ones, every name that stood for a cell
/// stands for the same cell, and new names are those of the usage's imports, in its
/// own cell.
pub proof fn law_usage_adds(
    usage: BzlmodExtensionUsageModel,
    parent: Text,
    cell: Text,
    is_root: bool,
    locked: Seq<(Text, Seq<Text>)>,
    cells: Seq<(Text, Text)>,
    unique: Seq<(BzlmodExtensionIdModel, Text)>,
    jsons: Seq<(BzlmodExtensionIdModel, Text)>,
    g: GeneratedReposModel,
)
    ensures
        ({
            let left = usage_repos_left(
                usage,
                parent,
                cell,
                is_root,
                locked,
                cells,
                unique,
                jsons,
                g,
            );
            &&& repos_appended(g, left)
            &&& aliases_sorted(g.aliases) ==> only_imports_added(
                g.aliases,
                left.aliases,
                cell,
                usage.imports,
            )
            &&& usage_repos(usage, parent, cell, is_root, locked, cells, unique, jsons, g) matches
                Ok(out) ==> out == left
        }),
{
    assert(repos_appended(g, g)) by {
        assert(g.modules =~= g.modules.subrange(0, g.modules.len() as int));
        assert(g.declaring_cells =~= g.declaring_cells.subrange(
            0,
            g.declaring_cells.len() as int,
        ));
    }
    if let Ok(extension) = resolved_extension(cell, usage, g.aliases, unique) {
        if let Ok(key) = lockfile_key(extension.id, cells) {
            if let Ok(targets) = override_targets(
                usage.repo_overrides,
                cell,
                g.aliases,
                extension.id,
                0,
                seq![],
            ) {
                let start = with_override_group(g, extension.unique_name, targets);
                let imports = open_imports(usage.imports, cell, g.aliases);
                let names = implied_names(imports, usage, lookup(locked, key));
                assert(repos_appended(g, start));
                if let Some(json) = lookup(jsons, extension.id) {
                    let c = UsageContext {
                        usage,
                        parent,
                        cell,
                        is_root,
                        extension,
                        targets,
                        json,
                    };
                    let run = UsageRun {
                        repos: start,
                        existing: put_all(
                            seq![],
                            aliases_in(g.repo_groups, extension.unique_name),
                            0,
                        ),
                        names,
                    };
                    lemma_steps_append(g, c, imports, 0, run);
                    lemma_open_imports(usage.imports, cell, g.aliases);
                    lemma_open_named(usage.imports, cell, g.aliases);
                    if aliases_sorted(g.aliases) {
                        lemma_steps_add(g.aliases, usage.imports, c, imports, 0, run);
                    }
                    if let Ok(done) = import_steps(c, imports, 0, run) {
                        lemma_remaining_appends(
                            g,
                            c,
                            done.names,
                            0,
                            done.repos,
                            done.existing,
                        );
                        lemma_remaining(c, done.names, 0, done.repos, done.existing);
                    }
                }
            }
        }
    }
}

proof fn lemma_remaining(
    c: UsageContext,
    names: Seq<Text>,
    i: int,
    g: GeneratedReposModel,
    existing: Seq<(Text, Text)>,
)
    ensures
        remaining_repos(c, names, i, g, existing).aliases == g.aliases,
    decreases names.len() - i,
{
    if 0 <= i < names.len() {
        if lookup(existing, names[i]) is Some {
            lemma_remaining(c, names, i + 1, g, existing);
        } else {
            let canonical = extension_repo_name(c.extension.unique_name, names[i]);
            let generator = extension_repo_generator(
                c.extension,
                c.parent,
                c.is_root,
                c.usage,
                names[i],
                c.json,
            );
            lemma_remaining(
                c,
                names,
                i + 1,
                with_group_repo(
                    with_repo(g, c.extension.id.bzl_cell_name, canonical, generator),
                    c.extension.unique_name,
                    names[i],
                    cell_name_of(canonical),
                ),
                put::<String, Text>(existing, names[i], cell_name_of(canonical)),
            );
        }
    }
}

proof fn lemma_open_imports(
    imports: Seq<BzlmodUseRepoImportModel>,
    cell: Text,
    aliases: CellAliases,
)
    ensures
        ({
            let open = open_imports(imports, cell, aliases);
            &&& forall|j: int|
                0 <= j < open.len() ==> alias_target(aliases, cell, (#[trigger] open[j]).alias)
                    is None
            &&& forall|j: int|
                0 <= j < imports.len() && alias_target(
                    aliases,
                    cell,
                    (#[trigger] imports[j]).alias,
                ) is None ==> open.contains(imports[j])
        }),
    decreases imports.len(),
{
    if imports.len() > 0 {
        let init = imports.drop_last();
        lemma_open_imports(init, cell, aliases);
        let before = open_imports(init, cell, aliases);
        let open = open_imports(imports, cell, aliases);
        assert forall|j: int| 0 <= j < open.len() implies alias_target(
            aliases,
            cell,
            (#[trigger] open[j]).alias,
        ) is None by {
            if j < before.len() {
                assert(open[j] == before[j]);
            }
        }
        assert forall|j: int|
            0 <= j < imports.len() && alias_target(
                aliases,
                cell,
                (#[trigger] imports[j]).alias,
            ) is None implies open.contains(imports[j]) by {
            if j < init.len() {
                assert(init[j] == imports[j]);
                let k = choose|k: int| 0 <= k < before.len() && before[k] == imports[j];
                assert(open[k] == imports[j]);
            } else {
                assert(open[open.len() - 1] == imports[j]);
            }
        }
    }
}

proof fn lemma_put_all_some(items: Seq<Text>, more: Seq<Text>, i: int)
    ensures
        items.len() > 0 || 0 <= i < more.len() ==> set_put_all::<String>(items, more, i).len() > 0,
    decreases more.len() - i,
{
    if 0 <= i < more.len() {
        law_set_put_contains::<String>(items, more[i], more[i]);
        lemma_put_all_some(set_put::<String>(items, more[i]), more, i + 1);
    }
}

proof fn lemma_implied_some(
    imports: Seq<BzlmodUseRepoImportModel>,
    usage: BzlmodExtensionUsageModel,
    locked: Option<Seq<Text>>,
)
    ensures
        imports.len() > 0 ==> implied_names(imports, usage, locked).len() > 0,
{
    let a = set_put_all::<String>(seq![], import_repo_names(imports), 0);
    let b = set_put_all::<String>(a, tag_repo_names(usage), 0);
    let c = set_put_all::<String>(b, required_overrides(usage.repo_overrides), 0);
    lemma_put_all_some(seq![], import_repo_names(imports), 0);
    lemma_put_all_some(a, tag_repo_names(usage), 0);
    lemma_put_all_some(b, required_overrides(usage.repo_overrides), 0);
    if let Some(names) = locked {
        lemma_put_all_some(c, names, 0);
    }
}

/// Once the repositories of a usage are generated, every repository that it imports
/// has its name in the cell, and no name of any cell stands for another cell than
/// before.
pub proof fn law_imports_resolve(
    usage: BzlmodExtensionUsageModel,
    parent: Text,
    cell: Text,
    is_root: bool,
    locked: Seq<(Text, Seq<Text>)>,
    cells: Seq<(Text, Text)>,
    unique: Seq<(BzlmodExtensionIdModel, Text)>,
    jsons: Seq<(BzlmodExtensionIdModel, Text)>,
    g: GeneratedReposModel,
)
    requires
        aliases_sorted(g.aliases),
    ensures
        usage_repos(usage, parent, cell, is_root, locked, cells, unique, jsons, g) matches Ok(
            out,
        ) ==> {
            &&& aliases_sorted(out.aliases)
            &&& aliases_kept(g.aliases, out.aliases)
            &&& forall|i: int|
                0 <= i < usage.imports.len() ==> alias_target(
                    out.aliases,
                    cell,
                    (#[trigger] usage.imports[i]).alias,
                ) is Some
        },
{
    if let Ok(out) = usage_repos(
        usage,
        parent,
        cell,
        is_root,
        locked,
        cells,
        unique,
        jsons,
        g,
    ) {
        let extension = resolved_extension(cell, usage, g.aliases, unique)->Ok_0;
        let key = lockfile_key(extension.id, cells)->Ok_0;
        let targets = override_targets(
            usage.repo_overrides,
            cell,
            g.aliases,
            extension.id,
            0,
            seq![],
        )->Ok_0;
        let json = lookup(jsons, extension.id)->0;
        let imports = open_imports(usage.imports, cell, g.aliases);
        let names = implied_names(imports, usage, lookup(locked, key));
        let start = with_override_group(g, extension.unique_name, targets);
        lemma_open_imports(usage.imports, cell, g.aliases);
        lemma_implied_some(imports, usage, lookup(locked, key));
        assert(start.aliases == g.aliases);
        if names.len() > 0 {
            let c = UsageContext { usage, parent, cell, is_root, extension, targets, json };
            let run = UsageRun {
                repos: start,
                existing: put_all(seq![], aliases_in(g.repo_groups, extension.unique_name), 0),
                names,
            };
            lemma_import_steps(c, imports, 0, run, g.aliases);
            let done = import_steps(c, imports, 0, run)->Ok_0;
            lemma_remaining(c, done.names, 0, done.repos, done.existing);
            assert forall|i: int| 0 <= i < usage.imports.len() implies alias_target(
                out.aliases,
                cell,
                (#[trigger] usage.imports[i]).alias,
            ) is Some by {
                if alias_target(g.aliases, cell, usage.imports[i].alias) is None {
                    let j = choose|j: int|
                        0 <= j < imports.len() && imports[j] == usage.imports[i];
                    assert(alias_target(out.aliases, cell, imports[j].alias) is Some);
                }
            }
        } else {
            assert forall|i: int| 0 <= i < usage.imports.len() implies alias_target(
                out.aliases,
                cell,
                (#[trigger] usage.imports[i]).alias,
            ) is Some by {
                if alias_target(g.aliases, cell, usage.imports[i].alias) is None {
                    assert(imports.contains(usage.imports[i]));
                }
            }
        }
    }
}

} // verus!
