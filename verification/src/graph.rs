//! Building and inspecting the graph of selected modules.

use vstd::prelude::*;
use vstd::string::*;
use crate::dep_graph::{
    GraphAliases, UsageStep, UsageStepModel, add_bzlmod_dep_alias, add_bzlmod_dep_cell_alias,
    add_module_aliases, all_named, bzlmod_extension_unique_names, canonical_names_by_cell,
    collect_usages, extension_names, graph_usages, modules_aliases, names_by_cell, root_dep_aliases,
    versions_by_name, versions_of,
};
use crate::external::{bzlmod_cell_name, cell_name_of};
use crate::labels::{
    CellAliases, add_bzlmod_cell_alias, bzlmod_extension_repo_canonical_repo_name,
    bzlmod_extension_repo_override_targets, bzlmod_resolve_extension, extension_id,
    extension_repo_name, override_targets, resolved_extension, with_alias,
};
use crate::module::{
    BazelDep, BazelDepModel, BzlmodDepGraph, BzlmodDepGraphModel, BzlmodExtensionId,
    BzlmodExtensionIdModel, BzlmodExtensionUsage, BzlmodExtensionUsageModel, BzlmodSelectionResult,
    BzlmodSelectionResultModel, BzlmodUseRepoImportModel, DiscoveredBcrModule,
    DiscoveredBcrModuleModel, InputError, RootBzlmodModule, RootBzlmodModuleModel,
};
use crate::ordered::{
    Duplicate, KeyMap, KeySet, OrderedKey, law_lookup_after_put, law_put_sorted, lookup, put,
    result_view, sorted_items,
};
use crate::select::{canonical_name, canonical_names, has_other_version, selection};
use crate::selection::{Discovered, ModuleKey};
use crate::text::Text;

verus! {

/// The cell that an imported repository of an extension stands for.
pub open spec fn import_target(
    targets: Seq<(Text, Text)>,
    unique_name: Text,
    repo_name: Text,
) -> Text {
    match lookup(targets, repo_name) {
        Some(target) => target,
        None => cell_name_of(extension_repo_name(unique_name, repo_name)),
    }
}

/// The aliases after the imports from `i` on.
pub open spec fn import_aliases(
    imports: Seq<BzlmodUseRepoImportModel>,
    i: int,
    cell: Text,
    targets: Seq<(Text, Text)>,
    unique_name: Text,
    aliases: CellAliases,
) -> CellAliases
    decreases imports.len() - i,
{
    if i < 0 || i >= imports.len() {
        aliases
    } else {
        import_aliases(
            imports,
            i + 1,
            cell,
            targets,
            unique_name,
            with_alias(
                aliases,
                cell,
                imports[i].alias,
                import_target(targets, unique_name, imports[i].repo_name),
            ),
        )
    }
}

/// The aliases after one usage of an extension, resolved by the base aliases.
pub open spec fn usage_eval_aliases(
    usage: BzlmodExtensionUsageModel,
    cell: Text,
    base: CellAliases,
    aliases: CellAliases,
    unique: Seq<(BzlmodExtensionIdModel, Text)>,
) -> Result<CellAliases, Text> {
    match resolved_extension(cell, usage, base, unique) {
        Err(message) => Err(message),
        Ok(extension) => match override_targets(
            usage.repo_overrides,
            cell,
            base,
            extension.id,
            0,
            seq![],
        ) {
            Err(message) => Err(message),
            Ok(targets) => Ok(
                import_aliases(usage.imports, 0, cell, targets, extension.unique_name, aliases),
            ),
        },
    }
}

/// Adds the aliases of one usage of an extension.
pub fn add_bzlmod_extension_usage_eval_aliases(
    usage: &BzlmodExtensionUsage,
    parent_cell_name: &str,
    base_cell_aliases_by_cell: &KeyMap<String, KeyMap<String, String>>,
    cell_aliases_by_cell: &mut KeyMap<String, KeyMap<String, String>>,
    extension_unique_names: &KeyMap<BzlmodExtensionId, String>,
) -> (r: Result<(), InputError>)
    ensures
        match usage_eval_aliases(
            usage.deep_view(),
            parent_cell_name@,
            base_cell_aliases_by_cell.deep_view(),
            old(cell_aliases_by_cell).deep_view(),
            extension_unique_names.deep_view(),
        ) {
            Ok(next) => r is Ok && final(cell_aliases_by_cell).deep_view() == next,
            Err(message) => r matches Err(e) && e.deep_view() == message
                && final(cell_aliases_by_cell).deep_view()
                == old(cell_aliases_by_cell).deep_view(),
        },
{
    let extension = match bzlmod_resolve_extension(
        parent_cell_name,
        usage,
        base_cell_aliases_by_cell,
        extension_unique_names,
    ) {
        Ok(extension) => extension,
        Err(e) => {
            return Err(e);
        },
    };
    let targets = match bzlmod_extension_repo_override_targets(
        usage,
        parent_cell_name,
        base_cell_aliases_by_cell,
        &extension,
    ) {
        Ok(targets) => targets,
        Err(e) => {
            return Err(e);
        },
    };
    let ghost first = cell_aliases_by_cell.deep_view();
    let ghost imports = usage.deep_view().imports;
    let mut i: usize = 0;
    while i < usage.imports.len()
        invariant
            imports == usage.deep_view().imports,
            0 <= i <= usage.imports@.len(),
            import_aliases(
                imports,
                0,
                parent_cell_name@,
                targets.deep_view(),
                extension.unique_name@,
                first,
            ) == import_aliases(
                imports,
                i as int,
                parent_cell_name@,
                targets.deep_view(),
                extension.unique_name@,
                cell_aliases_by_cell.deep_view(),
            ),
        decreases usage.imports.len() - i,
    {
        let import = &usage.imports[i];
        assert(imports[i as int] == import.deep_view());
        match targets.get(&import.repo_name) {
            Some(target) => {
                add_bzlmod_cell_alias(
                    cell_aliases_by_cell,
                    parent_cell_name,
                    import.alias.as_str(),
                    target.as_str(),
                );
            },
            None => {
                let canonical = bzlmod_extension_repo_canonical_repo_name(
                    &extension,
                    import.repo_name.as_str(),
                );
                let target = bzlmod_cell_name(canonical.as_str());
                add_bzlmod_cell_alias(
                    cell_aliases_by_cell,
                    parent_cell_name,
                    import.alias.as_str(),
                    target.as_str(),
                );
            },
        }
        i += 1;
    }
    Ok(())
}

/// The aliases after the usages from `i` on.
pub open spec fn steps_eval_aliases(
    steps: Seq<UsageStepModel>,
    i: int,
    base: CellAliases,
    aliases: CellAliases,
    unique: Seq<(BzlmodExtensionIdModel, Text)>,
) -> Result<CellAliases, Text>
    decreases steps.len() - i,
{
    if i < 0 || i >= steps.len() {
        Ok(aliases)
    } else {
        match steps[i] {
            UsageStepModel::Unnamed { error } => Err(error),
            UsageStepModel::Usage { cell, usage } => match usage_eval_aliases(
                usage,
                cell,
                base,
                aliases,
                unique,
            ) {
                Err(message) => Err(message),
                Ok(next) => steps_eval_aliases(steps, i + 1, base, next, unique),
            },
        }
    }
}

/// The aliases of each cell with those of the repositories that extensions
/// generate.
pub fn bzlmod_extension_eval_cell_aliases_by_cell(
    root_module: &RootBzlmodModule,
    discovered: &KeyMap<(String, String), DiscoveredBcrModule>,
    selected_keys: &KeySet<(String, String)>,
    canonical_repo_names_by_key: &KeyMap<(String, String), String>,
    base_cell_aliases_by_cell: &KeyMap<String, KeyMap<String, String>>,
    extension_unique_names: &KeyMap<BzlmodExtensionId, String>,
) -> (r: Result<KeyMap<String, KeyMap<String, String>>, InputError>)
    ensures
        result_view(r) == steps_eval_aliases(
            graph_usages(
                root_module.deep_view(),
                selected_keys.deep_view(),
                discovered.deep_view(),
                canonical_repo_names_by_key.deep_view(),
            ),
            0,
            base_cell_aliases_by_cell.deep_view(),
            base_cell_aliases_by_cell.deep_view(),
            extension_unique_names.deep_view(),
        ),
{
    let steps = collect_usages(
        root_module,
        &selected_keys.items,
        discovered,
        canonical_repo_names_by_key,
    );
    let ghost model = steps.deep_view();
    let ghost base = base_cell_aliases_by_cell.deep_view();
    let ghost unique = extension_unique_names.deep_view();
    let mut aliases = base_cell_aliases_by_cell.duplicate();
    let mut i: usize = 0;
    while i < steps.len()
        invariant
            model == steps.deep_view(),
            model == graph_usages(
                root_module.deep_view(),
                selected_keys.deep_view(),
                discovered.deep_view(),
                canonical_repo_names_by_key.deep_view(),
            ),
            base == base_cell_aliases_by_cell.deep_view(),
            unique == extension_unique_names.deep_view(),
            0 <= i <= steps@.len(),
            steps_eval_aliases(model, 0, base, base, unique) == steps_eval_aliases(
                model,
                i as int,
                base,
                aliases.deep_view(),
                unique,
            ),
        decreases steps.len() - i,
    {
        assert(model[i as int] == steps@[i as int].deep_view());
        match &steps[i] {
            UsageStep::Unnamed { error } => {
                return Err(error.duplicate());
            },
            UsageStep::Usage { cell, usage } => match add_bzlmod_extension_usage_eval_aliases(
                usage,
                cell.as_str(),
                base_cell_aliases_by_cell,
                &mut aliases,
                extension_unique_names,
            ) {
                Ok(_) => {},
                Err(e) => {
                    return Err(e);
                },
            },
        }
        i += 1;
    }
    Ok(aliases)
}

/// The aliases that a graph starts with: the root module's own name.
pub open spec fn start_aliases(root: RootBzlmodModuleModel) -> GraphAliases {
    GraphAliases {
        by_key: seq![],
        by_cell: if root.repo_name.len() > 0 {
            with_alias(seq![], "root"@, root.repo_name, "root"@)
        } else {
            seq![]
        },
    }
}

/// The aliases of the root's dependencies and of the selected modules.
pub open spec fn graph_aliases(
    root_deps: Seq<BazelDepModel>,
    root: RootBzlmodModuleModel,
    discovered: Discovered,
    keys: Seq<ModuleKey>,
    names: Seq<(ModuleKey, Text)>,
) -> Result<GraphAliases, Text> {
    let versions = versions_of(keys, keys.len() as int);
    match root_dep_aliases(root_deps, 0, versions, names, start_aliases(root)) {
        Err(message) => Err(message),
        Ok(a) => modules_aliases(keys, 0, discovered, root.name, versions, names, a),
    }
}

/// The graph of a selection.
pub open spec fn dep_graph(
    root_deps: Seq<BazelDepModel>,
    root: RootBzlmodModuleModel,
    discovered: Discovered,
    selection: BzlmodSelectionResultModel,
) -> Result<BzlmodDepGraphModel, Text> {
    let keys = selection.selected_keys;
    let names = selection.canonical_repo_names_by_key;
    match graph_aliases(root_deps, root, discovered, keys, names) {
        Err(message) => Err(message),
        Ok(a) => {
            let cells = names_by_cell(root.canonical_repo_name, keys, names, keys.len() as int);
            match extension_names(root, discovered, keys, names, a.by_cell, cells) {
                Err(message) => Err(message),
                Ok(unique) => match steps_eval_aliases(
                    graph_usages(root, keys, discovered, names),
                    0,
                    a.by_cell,
                    a.by_cell,
                    unique,
                ) {
                    Err(message) => Err(message),
                    Ok(eval) => Ok(
                        BzlmodDepGraphModel {
                            root_module: root,
                            discovered,
                            selected_keys: keys,
                            selected_keys_in_bfs_order: selection.selected_keys_in_bfs_order,
                            selected_keys_in_dependency_order:
                                selection.selected_keys_in_dependency_order,
                            canonical_repo_names_by_key: names,
                            canonical_repo_names_by_cell: cells,
                            root_aliases_by_key: a.by_key,
                            cell_aliases_by_cell: a.by_cell,
                            extension_eval_cell_aliases_by_cell: eval,
                            extension_unique_names: unique,
                        },
                    ),
                },
            }
        },
    }
}

fn collect_aliases(
    root_deps: &Vec<BazelDep>,
    root_module: &RootBzlmodModule,
    discovered: &KeyMap<(String, String), DiscoveredBcrModule>,
    selected_keys: &KeySet<(String, String)>,
    names: &KeyMap<(String, String), String>,
) -> (r: Result<
    (KeyMap<(String, String), KeySet<String>>, KeyMap<String, KeyMap<String, String>>),
    InputError,
>)
    ensures
        match graph_aliases(
            root_deps.deep_view(),
            root_module.deep_view(),
            discovered.deep_view(),
            selected_keys.deep_view(),
            names.deep_view(),
        ) {
            Ok(a) => r matches Ok((x, y)) && x.deep_view() == a.by_key && y.deep_view()
                == a.by_cell,
            Err(message) => r matches Err(e) && e.deep_view() == message,
        },
{
    let versions = versions_by_name(selected_keys);
    let mut by_key: KeyMap<(String, String), KeySet<String>> = KeyMap::new();
    let mut by_cell: KeyMap<String, KeyMap<String, String>> = KeyMap::new();
    assert(by_key.deep_view() =~= seq![]);
    assert(by_cell.deep_view() =~= seq![]);
    if !root_module.repo_name.as_str().is_empty() {
        add_bzlmod_cell_alias(&mut by_cell, "root", root_module.repo_name.as_str(), "root");
    }
    let ghost whole = graph_aliases(
        root_deps.deep_view(),
        root_module.deep_view(),
        discovered.deep_view(),
        selected_keys.deep_view(),
        names.deep_view(),
    );
    let ghost vs = versions.deep_view();
    let ghost first = start_aliases(root_module.deep_view());
    let ghost deps = root_deps.deep_view();
    let mut i: usize = 0;
    while i < root_deps.len()
        invariant
            deps == root_deps.deep_view(),
            vs == versions.deep_view(),
            whole == graph_aliases(
                root_deps.deep_view(),
                root_module.deep_view(),
                discovered.deep_view(),
                selected_keys.deep_view(),
                names.deep_view(),
            ),
            whole == (match root_dep_aliases(deps, 0, vs, names.deep_view(), first) {
                Err(message) => Err(message),
                Ok(a) => modules_aliases(
                    selected_keys.deep_view(),
                    0,
                    discovered.deep_view(),
                    root_module.deep_view().name,
                    vs,
                    names.deep_view(),
                    a,
                ),
            }),
            0 <= i <= root_deps@.len(),
            root_dep_aliases(deps, 0, vs, names.deep_view(), first) == root_dep_aliases(
                deps,
                i as int,
                vs,
                names.deep_view(),
                (GraphAliases { by_key: by_key.deep_view(), by_cell: by_cell.deep_view() }),
            ),
        decreases root_deps.len() - i,
    {
        assert(deps[i as int] == root_deps@[i as int].deep_view());
        add_bzlmod_dep_alias(&root_deps[i], &versions, &mut by_key);
        match add_bzlmod_dep_cell_alias("root", &root_deps[i], &versions, names, &mut by_cell) {
            Ok(_) => {},
            Err(e) => {
                return Err(e);
            },
        }
        i += 1;
    }
    let ghost keys = selected_keys.deep_view();
    let mut j: usize = 0;
    while j < selected_keys.items.len()
        invariant
            keys == selected_keys.deep_view(),
            vs == versions.deep_view(),
            0 <= j <= selected_keys.items@.len(),
            whole == graph_aliases(
                root_deps.deep_view(),
                root_module.deep_view(),
                discovered.deep_view(),
                selected_keys.deep_view(),
                names.deep_view(),
            ),
            whole == modules_aliases(
                keys,
                j as int,
                discovered.deep_view(),
                root_module.deep_view().name,
                vs,
                names.deep_view(),
                (GraphAliases { by_key: by_key.deep_view(), by_cell: by_cell.deep_view() }),
            ),
        decreases selected_keys.items.len() - j,
    {
        assert(keys[j as int] == selected_keys.items@[j as int].deep_view());
        match discovered.get(&selected_keys.items[j]) {
            None => {},
            Some(module) => match add_module_aliases(
                &selected_keys.items[j],
                module,
                root_module.name.as_str(),
                &versions,
                names,
                &mut by_key,
                &mut by_cell,
            ) {
                Ok(_) => {},
                Err(e) => {
                    return Err(e);
                },
            },
        }
        j += 1;
    }
    Ok((by_key, by_cell))
}

/// The graph of a selection.
pub fn bzlmod_dep_graph_from_selection(
    root_deps: &Vec<BazelDep>,
    root_module: RootBzlmodModule,
    discovered: KeyMap<(String, String), DiscoveredBcrModule>,
    selection: &BzlmodSelectionResult,
) -> (r: Result<BzlmodDepGraph, InputError>)
    requires
        all_named(
            selection.selected_keys.deep_view(),
            selection.canonical_repo_names_by_key.deep_view(),
        ),
    ensures
        result_view(r) == dep_graph(
            root_deps.deep_view(),
            root_module.deep_view(),
            discovered.deep_view(),
            selection.deep_view(),
        ),
{
    let selected_keys = selection.selected_keys.duplicate();
    let canonical_repo_names_by_key = selection.canonical_repo_names_by_key.duplicate();
    let (root_aliases_by_key, cell_aliases_by_cell) = match collect_aliases(
        root_deps,
        &root_module,
        &discovered,
        &selected_keys,
        &canonical_repo_names_by_key,
    ) {
        Ok(aliases) => aliases,
        Err(e) => {
            return Err(e);
        },
    };
    let canonical_repo_names_by_cell = canonical_names_by_cell(
        root_module.canonical_repo_name.as_str(),
        &selected_keys,
        &canonical_repo_names_by_key,
    );
    let extension_unique_names = match bzlmod_extension_unique_names(
        &root_module,
        &discovered,
        &selected_keys,
        &canonical_repo_names_by_key,
        &cell_aliases_by_cell,
        &canonical_repo_names_by_cell,
    ) {
        Ok(names) => names,
        Err(e) => {
            return Err(e);
        },
    };
    let extension_eval_cell_aliases_by_cell = match bzlmod_extension_eval_cell_aliases_by_cell(
        &root_module,
        &discovered,
        &selected_keys,
        &canonical_repo_names_by_key,
        &cell_aliases_by_cell,
        &extension_unique_names,
    ) {
        Ok(aliases) => aliases,
        Err(e) => {
            return Err(e);
        },
    };
    Ok(
        BzlmodDepGraph {
            root_module,
            discovered,
            selected_keys,
            selected_keys_in_bfs_order: selection.selected_keys_in_bfs_order.duplicate(),
            selected_keys_in_dependency_order:
                selection.selected_keys_in_dependency_order.duplicate(),
            canonical_repo_names_by_key,
            canonical_repo_names_by_cell,
            root_aliases_by_key,
            cell_aliases_by_cell,
            extension_eval_cell_aliases_by_cell,
            extension_unique_names,
        },
    )
}

proof fn lemma_canonical_names(keys: Seq<ModuleKey>, i: int)
    requires
        0 <= i <= keys.len(),
    ensures
        sorted_items::<(String, String), Text>(canonical_names(keys, i)),
        forall|j: int| 0 <= j < i ==> lookup(canonical_names(keys, i), #[trigger] keys[j]) is Some,
    decreases i,
{
    if i > 0 {
        lemma_canonical_names(keys, i - 1);
        let before = canonical_names(keys, i - 1);
        let key = keys[i - 1];
        let name = canonical_name(key.0, key.1, has_other_version(keys, key));
        law_put_sorted::<(String, String), Text>(before, key, name);
        assert forall|j: int| 0 <= j < i implies lookup(
            canonical_names(keys, i),
            #[trigger] keys[j],
        ) is Some by {
            law_lookup_after_put::<(String, String), Text>(before, key, name, keys[j]);
        }
    }
}

/// Every module that a selection selects has a repository name.
pub proof fn law_selection_all_named(
    root_deps: Seq<BazelDepModel>,
    builtin: DiscoveredBcrModuleModel,
    discovered: Discovered,
)
    ensures
        selection(root_deps, builtin, discovered) matches Ok(s) ==> all_named(
            s.selected_keys,
            s.canonical_repo_names_by_key,
        ),
{
    match selection(root_deps, builtin, discovered) {
        Ok(s) => {
            lemma_canonical_names(s.selected_keys, s.selected_keys.len() as int);
        },
        Err(_) => {},
    }
}

/// The targets of the overrides of one usage of the extension, after those
/// already found; of a usage of another extension, nothing.
pub open spec fn usage_overrides(
    usage: BzlmodExtensionUsageModel,
    cell: Text,
    aliases: CellAliases,
    unique: Seq<(BzlmodExtensionIdModel, Text)>,
    id: BzlmodExtensionIdModel,
    done: Seq<(Text, Text)>,
) -> Result<Seq<(Text, Text)>, Text> {
    match resolved_extension(cell, usage, aliases, unique) {
        Err(message) => Err(message),
        Ok(extension) => if extension.id != id {
            Ok(done)
        } else {
            match override_targets(usage.repo_overrides, cell, aliases, id, 0, seq![]) {
                Err(message) => Err(message),
                Ok(targets) => Ok(put_all(done, targets, 0)),
            }
        },
    }
}

/// The entries with those from `i` on put among them.
pub open spec fn put_all(items: Seq<(Text, Text)>, more: Seq<(Text, Text)>, i: int) -> Seq<
    (Text, Text),
>
    decreases more.len() - i,
{
    if i < 0 || i >= more.len() {
        items
    } else {
        put_all(put::<String, Text>(items, more[i].0, more[i].1), more, i + 1)
    }
}

/// Puts the entries of one map into another.
pub fn extend_map(items: &mut KeyMap<String, String>, more: &KeyMap<String, String>)
    ensures
        final(items).deep_view() == put_all(old(items).deep_view(), more.deep_view(), 0),
{
    let ghost first = items.deep_view();
    let ghost model = more.deep_view();
    let mut i: usize = 0;
    while i < more.entries.len()
        invariant
            model == more.deep_view(),
            0 <= i <= more.entries@.len(),
            put_all(first, model, 0) == put_all(items.deep_view(), model, i as int),
        decreases more.entries.len() - i,
    {
        assert(model[i as int] == more.entries@[i as int].deep_view());
        items.insert(more.entries[i].0.clone(), more.entries[i].1.clone());
        i += 1;
    }
}

/// Adds the targets of the overrides of one usage of the extension.
pub fn add_bzlmod_module_extension_repo_overrides_for_usage(
    usage: &BzlmodExtensionUsage,
    parent_cell_name: &str,
    dep_graph: &BzlmodDepGraph,
    extension_id: &BzlmodExtensionId,
    targets: &mut KeyMap<String, String>,
) -> (r: Result<(), InputError>)
    ensures
        match usage_overrides(
            usage.deep_view(),
            parent_cell_name@,
            dep_graph.cell_aliases_by_cell.deep_view(),
            dep_graph.extension_unique_names.deep_view(),
            extension_id.deep_view(),
            old(targets).deep_view(),
        ) {
            Ok(next) => r is Ok && final(targets).deep_view() == next,
            Err(message) => r matches Err(e) && e.deep_view() == message
                && final(targets).deep_view() == old(targets).deep_view(),
        },
{
    let extension = match bzlmod_resolve_extension(
        parent_cell_name,
        usage,
        &dep_graph.cell_aliases_by_cell,
        &dep_graph.extension_unique_names,
    ) {
        Ok(extension) => extension,
        Err(e) => {
            return Err(e);
        },
    };
    if !extension.id.same_key(extension_id) {
        return Ok(());
    }
    match bzlmod_extension_repo_override_targets(
        usage,
        parent_cell_name,
        &dep_graph.cell_aliases_by_cell,
        &extension,
    ) {
        Ok(more) => {
            extend_map(targets, &more);
            Ok(())
        },
        Err(e) => Err(e),
    }
}

/// The targets of the overrides of the usages from `i` on.
pub open spec fn steps_overrides(
    steps: Seq<UsageStepModel>,
    i: int,
    aliases: CellAliases,
    unique: Seq<(BzlmodExtensionIdModel, Text)>,
    id: BzlmodExtensionIdModel,
    done: Seq<(Text, Text)>,
) -> Result<Seq<(Text, Text)>, Text>
    decreases steps.len() - i,
{
    if i < 0 || i >= steps.len() {
        Ok(done)
    } else {
        match steps[i] {
            UsageStepModel::Unnamed { error } => Err(error),
            UsageStepModel::Usage { cell, usage } => match usage_overrides(
                usage,
                cell,
                aliases,
                unique,
                id,
                done,
            ) {
                Err(message) => Err(message),
                Ok(next) => steps_overrides(steps, i + 1, aliases, unique, id, next),
            },
        }
    }
}

/// The targets of the overrides of an extension in a graph, in order.
pub open spec fn extension_overrides_in(
    graph: BzlmodDepGraphModel,
    id: BzlmodExtensionIdModel,
) -> Result<Seq<(Text, Text)>, Text> {
    steps_overrides(
        graph_usages(
            graph.root_module,
            graph.selected_keys,
            graph.discovered,
            graph.canonical_repo_names_by_key,
        ),
        0,
        graph.cell_aliases_by_cell,
        graph.extension_unique_names,
        id,
        seq![],
    )
}

/// The targets of the overrides of an extension in a graph, in order.
pub fn bzlmod_module_extension_repo_overrides_for_extension(
    dep_graph: &BzlmodDepGraph,
    extension_id: &BzlmodExtensionId,
) -> (r: Result<Vec<(String, String)>, InputError>)
    ensures
        result_view(r) == extension_overrides_in(dep_graph.deep_view(), extension_id.deep_view()),
{
    let steps = collect_usages(
        &dep_graph.root_module,
        &dep_graph.selected_keys.items,
        &dep_graph.discovered,
        &dep_graph.canonical_repo_names_by_key,
    );
    let ghost model = steps.deep_view();
    let mut targets: KeyMap<String, String> = KeyMap::new();
    let mut i: usize = 0;
    assert(targets.deep_view() =~= seq![]);
    while i < steps.len()
        invariant
            model == steps.deep_view(),
            0 <= i <= steps@.len(),
            extension_overrides_in(dep_graph.deep_view(), extension_id.deep_view())
                == steps_overrides(
                model,
                i as int,
                dep_graph.cell_aliases_by_cell.deep_view(),
                dep_graph.extension_unique_names.deep_view(),
                extension_id.deep_view(),
                targets.deep_view(),
            ),
        decreases steps.len() - i,
    {
        assert(model[i as int] == steps@[i as int].deep_view());
        match &steps[i] {
            UsageStep::Unnamed { error } => {
                return Err(error.duplicate());
            },
            UsageStep::Usage { cell, usage } => {
                match add_bzlmod_module_extension_repo_overrides_for_usage(
                    usage,
                    cell.as_str(),
                    dep_graph,
                    extension_id,
                    &mut targets,
                ) {
                    Ok(_) => {},
                    Err(e) => {
                        return Err(e);
                    },
                }
            },
        }
        i += 1;
    }
    Ok(targets.entries)
}

} // verus!
