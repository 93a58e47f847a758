//! From the graph of modules to the cells, aliases and toolchains of a project.

use vstd::prelude::*;
use vstd::string::*;
use crate::extension_repos::{resolve_bzlmod_extension_usage_generated_repos, usage_repos};
use crate::external::{
    BzlmodGeneratedCellGenerator, BzlmodGeneratedCellGeneratorModel, BzlmodXcodeConfigSetup,
    BzlmodXcodeConfigSetupModel, bzlmod_cell_name, cell_name_of,
};
use crate::generated::{
    BuiltinModule, add_builtin_repos, add_shell_repos, add_unimported_generated_bzlmod_repo,
    builtin_repos, bzlmod_extension_imports_from_usages, imports_from,
    resolve_bzlmod_use_repo_rule_generated_repos, rule_repos, shell_repos, with_repo,
    with_repo_alias,
};
use crate::graph::{extend_map, put_all};
use crate::import_laws::law_alias_in_order;
use crate::labels::{
    CellAliases, add_bzlmod_cell_alias, alias_target, aliases_in, aliases_sorted,
    law_alias_after_add, lemma_aliases_in_sorted, with_alias,
};
use crate::module::{
    BzlmodExtensionId, BzlmodExtensionIdModel, BzlmodExtensionUsage, BzlmodExtensionUsageModel,
    DiscoveredBcrModule, DiscoveredBcrModuleModel, InputError, RootBzlmodModule,
    RootBzlmodModuleModel,
};
use crate::ordered::{
    Duplicate, KeyMap, KeySet, law_lookup_after_put, law_put_sorted, lookup, put, result_view,
    set_put, sorted_items,
};
use crate::resolved::{
    GeneratedRepos, GeneratedReposModel, ResolvedExternalModule, ResolvedExternalModuleModel,
};
use crate::select::{bzlmod_selected_canonical_repo_name, selected_name};
use crate::selection::{Discovered, ModuleKey};
use crate::text::{Text, same};

verus! {

/// The aliases after the repositories from `i` on got those of the cells whose
/// aliases they share; each pair counts once.
pub open spec fn shared_aliases(
    declaring: Seq<(Text, Text)>,
    i: int,
    mapped: Seq<(Text, Text)>,
    aliases: CellAliases,
) -> CellAliases
    decreases declaring.len() - i,
{
    if i < 0 || i >= declaring.len() {
        aliases
    } else if mapped.contains(declaring[i]) {
        shared_aliases(declaring, i + 1, mapped, aliases)
    } else {
        let next = match lookup(aliases, declaring[i].1) {
            Some(shared) => put::<String, Seq<(Text, Text)>>(
                aliases,
                declaring[i].0,
                put_all(aliases_in(aliases, declaring[i].0), shared, 0),
            ),
            None => aliases,
        };
        shared_aliases(
            declaring,
            i + 1,
            set_put::<(String, String)>(mapped, declaring[i]),
            next,
        )
    }
}

/// The aliases after the names from `i` on stand for their cells in one cell.
pub open spec fn visible_aliases(
    cell: Text,
    visible: Seq<(Text, Text)>,
    i: int,
    aliases: CellAliases,
) -> CellAliases
    decreases visible.len() - i,
{
    if i < 0 || i >= visible.len() {
        aliases
    } else {
        visible_aliases(
            cell,
            visible,
            i + 1,
            with_alias(aliases, cell, visible[i].0, visible[i].1),
        )
    }
}

/// The aliases after the names are visible in the cells from `i` on.
pub open spec fn group_aliases(
    cells: Seq<(Text, Text)>,
    i: int,
    visible: Seq<(Text, Text)>,
    aliases: CellAliases,
) -> CellAliases
    decreases cells.len() - i,
{
    if i < 0 || i >= cells.len() {
        aliases
    } else {
        group_aliases(
            cells,
            i + 1,
            visible,
            visible_aliases(cells[i].1, visible, 0, aliases),
        )
    }
}

/// The aliases after the extensions from `i` on: the repositories of one
/// extension see each other and what overrides them.
pub open spec fn extension_aliases(
    groups: Seq<(Text, Seq<(Text, Text)>)>,
    i: int,
    overrides: Seq<(Text, Seq<(Text, Text)>)>,
    aliases: CellAliases,
) -> CellAliases
    decreases groups.len() - i,
{
    if i < 0 || i >= groups.len() {
        aliases
    } else {
        let own = put_all(seq![], groups[i].1, 0);
        let visible = put_all(own, aliases_in(overrides, groups[i].0), 0);
        extension_aliases(groups, i + 1, overrides, group_aliases(own, 0, visible, aliases))
    }
}

/// The aliases with those of the generated repositories.
pub open spec fn repo_mappings(g: GeneratedReposModel) -> CellAliases {
    extension_aliases(
        g.repo_groups,
        0,
        g.override_groups,
        shared_aliases(g.declaring_cells, 0, seq![], g.aliases),
    )
}

fn add_shared_aliases(
    declaring: &Vec<(String, String)>,
    aliases: &mut KeyMap<String, KeyMap<String, String>>,
)
    ensures
        final(aliases).deep_view() == shared_aliases(
            declaring.deep_view(),
            0,
            seq![],
            old(aliases).deep_view(),
        ),
{
    let ghost model = declaring.deep_view();
    let ghost first = aliases.deep_view();
    let mut mapped: KeySet<(String, String)> = KeySet::new();
    let mut i: usize = 0;
    assert(mapped.deep_view() =~= seq![]);
    while i < declaring.len()
        invariant
            model == declaring.deep_view(),
            0 <= i <= declaring@.len(),
            shared_aliases(model, 0, seq![], first) == shared_aliases(
                model,
                i as int,
                mapped.deep_view(),
                aliases.deep_view(),
            ),
        decreases declaring.len() - i,
    {
        assert(model[i as int] == declaring@[i as int].deep_view());
        if mapped.contains(&declaring[i]) {
            i += 1;
            continue ;
        }
        let mut shared: Option<KeyMap<String, String>> = None;
        match aliases.get(&declaring[i].1) {
            Some(found) => {
                shared = Some(found.duplicate());
            },
            None => {},
        }
        match shared {
            Some(shared) => {
                let mut own = match aliases.get(&declaring[i].0) {
                    Some(own) => own.duplicate(),
                    None => {
                        let none: KeyMap<String, String> = KeyMap::new();
                        assert(none.deep_view() =~= seq![]);
                        none
                    },
                };
                extend_map(&mut own, &shared);
                aliases.insert(declaring[i].0.clone(), own);
            },
            None => {},
        }
        mapped.insert(declaring[i].duplicate());
        i += 1;
    }
}

fn add_visible_aliases(
    cell: &str,
    visible: &KeyMap<String, String>,
    aliases: &mut KeyMap<String, KeyMap<String, String>>,
)
    ensures
        final(aliases).deep_view() == visible_aliases(
            cell@,
            visible.deep_view(),
            0,
            old(aliases).deep_view(),
        ),
{
    let ghost model = visible.deep_view();
    let ghost first = aliases.deep_view();
    let mut i: usize = 0;
    while i < visible.entries.len()
        invariant
            model == visible.deep_view(),
            0 <= i <= visible.entries@.len(),
            visible_aliases(cell@, model, 0, first) == visible_aliases(
                cell@,
                model,
                i as int,
                aliases.deep_view(),
            ),
        decreases visible.entries.len() - i,
    {
        assert(model[i as int] == visible.entries@[i as int].deep_view());
        add_bzlmod_cell_alias(
            aliases,
            cell,
            visible.entries[i].0.as_str(),
            visible.entries[i].1.as_str(),
        );
        i += 1;
    }
}

fn add_group_aliases(
    cells: &KeyMap<String, String>,
    visible: &KeyMap<String, String>,
    aliases: &mut KeyMap<String, KeyMap<String, String>>,
)
    ensures
        final(aliases).deep_view() == group_aliases(
            cells.deep_view(),
            0,
            visible.deep_view(),
            old(aliases).deep_view(),
        ),
{
    let ghost model = cells.deep_view();
    let ghost first = aliases.deep_view();
    let mut i: usize = 0;
    while i < cells.entries.len()
        invariant
            model == cells.deep_view(),
            0 <= i <= cells.entries@.len(),
            group_aliases(model, 0, visible.deep_view(), first) == group_aliases(
                model,
                i as int,
                visible.deep_view(),
                aliases.deep_view(),
            ),
        decreases cells.entries.len() - i,
    {
        assert(model[i as int] == cells.entries@[i as int].deep_view());
        add_visible_aliases(cells.entries[i].1.as_str(), visible, aliases);
        i += 1;
    }
}

fn extend_with_pairs(items: &mut KeyMap<String, String>, more: &Vec<(String, String)>)
    ensures
        final(items).deep_view() == put_all(old(items).deep_view(), more.deep_view(), 0),
{
    let ghost first = items.deep_view();
    let ghost model = more.deep_view();
    let mut i: usize = 0;
    while i < more.len()
        invariant
            model == more.deep_view(),
            0 <= i <= more@.len(),
            put_all(first, model, 0) == put_all(items.deep_view(), model, i as int),
        decreases more.len() - i,
    {
        assert(model[i as int] == more@[i as int].deep_view());
        items.insert(more[i].0.clone(), more[i].1.clone());
        i += 1;
    }
}

/// Adds the aliases of the generated repositories.
pub fn add_generated_bzlmod_repo_mappings(repos: &mut GeneratedRepos)
    ensures
        final(repos).aliases.deep_view() == repo_mappings(old(repos).deep_view()),
        final(repos).modules == old(repos).modules,
        final(repos).declaring_cells == old(repos).declaring_cells,
        final(repos).repo_groups == old(repos).repo_groups,
        final(repos).override_groups == old(repos).override_groups,
{
    add_shared_aliases(&repos.declaring_cells, &mut repos.aliases);
    let ghost groups = repos.repo_groups.deep_view();
    let ghost overrides = repos.override_groups.deep_view();
    let ghost first = repos.aliases.deep_view();
    let mut i: usize = 0;
    while i < repos.repo_groups.entries.len()
        invariant
            groups == repos.repo_groups.deep_view(),
            overrides == repos.override_groups.deep_view(),
            repos.modules == old(repos).modules,
            repos.declaring_cells == old(repos).declaring_cells,
            repos.repo_groups == old(repos).repo_groups,
            repos.override_groups == old(repos).override_groups,
            0 <= i <= repos.repo_groups.entries@.len(),
            extension_aliases(groups, 0, overrides, first) == extension_aliases(
                groups,
                i as int,
                overrides,
                repos.aliases.deep_view(),
            ),
        decreases repos.repo_groups.entries.len() - i,
    {
        assert(groups[i as int] == repos.repo_groups.entries@[i as int].deep_view());
        let mut own: KeyMap<String, String> = KeyMap::new();
        assert(own.deep_view() =~= seq![]);
        extend_with_pairs(&mut own, &repos.repo_groups.entries[i].1);
        let mut visible = own.duplicate();
        match repos.override_groups.get(&repos.repo_groups.entries[i].0) {
            Some(more) => {
                extend_with_pairs(&mut visible, more);
            },
            None => {},
        }
        add_group_aliases(&own, &visible, &mut repos.aliases);
        i += 1;
    }
}

/// The repository that holds the Xcode configuration.
pub open spec fn xcode_repo_name() -> Text {
    "bazel_tools+xcode_configure_extension+local_config_xcode"@
}

/// The repositories with the Xcode configuration, which the root and the built-in
/// tools see.
pub open spec fn with_xcode_repo(g: GeneratedReposModel) -> GeneratedReposModel {
    let cell = cell_name_of(xcode_repo_name());
    with_repo_alias(
        with_repo_alias(
            with_repo(
                g,
                "bazel_tools"@,
                xcode_repo_name(),
                BzlmodGeneratedCellGeneratorModel::XcodeConfig(BzlmodXcodeConfigSetupModel {  }),
            ),
            "root"@,
            "local_config_xcode"@,
            cell,
        ),
        "bazel_tools"@,
        "local_config_xcode"@,
        cell,
    )
}

/// The repositories after the usages from `i` on of one module.
pub open spec fn module_usage_repos(
    usages: Seq<BzlmodExtensionUsageModel>,
    i: int,
    parent: Text,
    cell: Text,
    is_root: bool,
    locked: Seq<(Text, Seq<Text>)>,
    cells: Seq<(Text, Text)>,
    unique: Seq<(BzlmodExtensionIdModel, Text)>,
    jsons: Seq<(BzlmodExtensionIdModel, Text)>,
    g: GeneratedReposModel,
) -> Result<GeneratedReposModel, Text>
    decreases usages.len() - i,
{
    if i < 0 || i >= usages.len() {
        Ok(g)
    } else {
        match usage_repos(
            usages[i],
            parent,
            cell,
            is_root,
            locked,
            cells,
            unique,
            jsons,
            g,
        ) {
            Err(message) => Err(message),
            Ok(next) => module_usage_repos(
                usages,
                i + 1,
                parent,
                cell,
                is_root,
                locked,
                cells,
                unique,
                jsons,
                next,
            ),
        }
    }
}

/// The repositories after the imports of the modules that are known to import
/// built-in ones.
pub open spec fn known_repos(
    module: DiscoveredBcrModuleModel,
    parent: Text,
    cell: Text,
    g: GeneratedReposModel,
) -> GeneratedReposModel {
    if module.dep.name == "rules_shell"@ {
        shell_repos(module.use_repo_aliases, 0, parent, cell, g)
    } else if module.dep.name == "platforms"@ {
        builtin_repos(
            BuiltinModule::Platforms,
            imports_from(module.extension_usages, "host_platform"@),
            0,
            parent,
            cell,
            g,
        )
    } else if module.dep.name == "bazel_features"@ {
        builtin_repos(
            BuiltinModule::BazelFeatures,
            imports_from(module.extension_usages, "version_extension"@),
            0,
            parent,
            cell,
            g,
        )
    } else {
        g
    }
}

/// The repositories after one module: of its repository rules, of the built-in
/// imports, and of its extensions.
pub open spec fn module_repos(
    module: DiscoveredBcrModuleModel,
    names: Seq<(ModuleKey, Text)>,
    locked: Seq<(Text, Seq<Text>)>,
    cells: Seq<(Text, Text)>,
    unique: Seq<(BzlmodExtensionIdModel, Text)>,
    jsons: Seq<(BzlmodExtensionIdModel, Text)>,
    g: GeneratedReposModel,
) -> Result<GeneratedReposModel, Text> {
    match selected_name(names, module.dep.name, module.dep.version) {
        Err(message) => Err(message),
        Ok(parent) => {
            let cell = cell_name_of(parent);
            match rule_repos(module.use_repo_rule_invocations, 0, parent, cell, false, g) {
                Err(message) => Err(message),
                Ok(next) => module_usage_repos(
                    module.extension_usages,
                    0,
                    parent,
                    cell,
                    false,
                    locked,
                    cells,
                    unique,
                    jsons,
                    known_repos(module, parent, cell, next),
                ),
            }
        },
    }
}

/// The repositories after the modules from `i` on.
pub open spec fn modules_repos(
    keys: Seq<ModuleKey>,
    i: int,
    discovered: Discovered,
    names: Seq<(ModuleKey, Text)>,
    locked: Seq<(Text, Seq<Text>)>,
    cells: Seq<(Text, Text)>,
    unique: Seq<(BzlmodExtensionIdModel, Text)>,
    jsons: Seq<(BzlmodExtensionIdModel, Text)>,
    g: GeneratedReposModel,
) -> Result<GeneratedReposModel, Text>
    decreases keys.len() - i,
{
    if i < 0 || i >= keys.len() {
        Ok(g)
    } else {
        match lookup(discovered, keys[i]) {
            None => modules_repos(
                keys,
                i + 1,
                discovered,
                names,
                locked,
                cells,
                unique,
                jsons,
                g,
            ),
            Some(module) => match module_repos(module, names, locked, cells, unique, jsons, g) {
                Err(message) => Err(message),
                Ok(next) => modules_repos(
                    keys,
                    i + 1,
                    discovered,
                    names,
                    locked,
                    cells,
                    unique,
                    jsons,
                    next,
                ),
            },
        }
    }
}

/// All generated repositories: those of the root's repository rules, the Xcode
/// configuration, those of the modules, and those of the root's extensions.
pub open spec fn all_repos(
    root: RootBzlmodModuleModel,
    discovered: Discovered,
    keys: Seq<ModuleKey>,
    names: Seq<(ModuleKey, Text)>,
    aliases: CellAliases,
    cells: Seq<(Text, Text)>,
    unique: Seq<(BzlmodExtensionIdModel, Text)>,
    jsons: Seq<(BzlmodExtensionIdModel, Text)>,
) -> Result<GeneratedReposModel, Text> {
    let start = GeneratedReposModel {
        aliases,
        modules: seq![],
        declaring_cells: seq![],
        repo_groups: seq![],
        override_groups: seq![],
    };
    let locked = root.lockfile_extension_generated_repos;
    match rule_repos(
        root.use_repo_rule_invocations,
        0,
        root.canonical_repo_name,
        "root"@,
        true,
        start,
    ) {
        Err(message) => Err(message),
        Ok(a) => match modules_repos(
            keys,
            0,
            discovered,
            names,
            locked,
            cells,
            unique,
            jsons,
            with_xcode_repo(a),
        ) {
            Err(message) => Err(message),
            Ok(b) => module_usage_repos(
                root.extension_usages,
                0,
                root.canonical_repo_name,
                "root"@,
                true,
                locked,
                cells,
                unique,
                jsons,
                b,
            ),
        },
    }
}

fn add_module_usage_repos(
    usages: &Vec<BzlmodExtensionUsage>,
    parent: &str,
    cell: &str,
    is_root: bool,
    root_module: &RootBzlmodModule,
    cells: &KeyMap<String, String>,
    unique: &KeyMap<BzlmodExtensionId, String>,
    jsons: &KeyMap<BzlmodExtensionId, String>,
    repos: &mut GeneratedRepos,
) -> (r: Result<(), InputError>)
    ensures
        match module_usage_repos(
            usages.deep_view(),
            0,
            parent@,
            cell@,
            is_root,
            root_module.deep_view().lockfile_extension_generated_repos,
            cells.deep_view(),
            unique.deep_view(),
            jsons.deep_view(),
            old(repos).deep_view(),
        ) {
            Ok(next) => r is Ok && final(repos).deep_view() == next,
            Err(message) => r matches Err(e) && e.deep_view() == message,
        },
{
    let ghost model = usages.deep_view();
    let ghost first = repos.deep_view();
    let ghost locked = root_module.deep_view().lockfile_extension_generated_repos;
    let mut i: usize = 0;
    while i < usages.len()
        invariant
            first == old(repos).deep_view(),
            model == usages.deep_view(),
            locked == root_module.deep_view().lockfile_extension_generated_repos,
            0 <= i <= usages@.len(),
            module_usage_repos(
                model,
                0,
                parent@,
                cell@,
                is_root,
                locked,
                cells.deep_view(),
                unique.deep_view(),
                jsons.deep_view(),
                first,
            ) == module_usage_repos(
                model,
                i as int,
                parent@,
                cell@,
                is_root,
                locked,
                cells.deep_view(),
                unique.deep_view(),
                jsons.deep_view(),
                repos.deep_view(),
            ),
        decreases usages.len() - i,
    {
        assert(model[i as int] == usages@[i as int].deep_view());
        match resolve_bzlmod_extension_usage_generated_repos(
            &usages[i],
            parent,
            cell,
            is_root,
            root_module,
            cells,
            unique,
            jsons,
            repos,
        ) {
            Ok(_) => {},
            Err(e) => {
                return Err(e);
            },
        }
        i += 1;
    }
    Ok(())
}

fn add_module_repos(
    module: &DiscoveredBcrModule,
    names: &KeyMap<(String, String), String>,
    root_module: &RootBzlmodModule,
    cells: &KeyMap<String, String>,
    unique: &KeyMap<BzlmodExtensionId, String>,
    jsons: &KeyMap<BzlmodExtensionId, String>,
    repos: &mut GeneratedRepos,
) -> (r: Result<(), InputError>)
    ensures
        match module_repos(
            module.deep_view(),
            names.deep_view(),
            root_module.deep_view().lockfile_extension_generated_repos,
            cells.deep_view(),
            unique.deep_view(),
            jsons.deep_view(),
            old(repos).deep_view(),
        ) {
            Ok(next) => r is Ok && final(repos).deep_view() == next,
            Err(message) => r matches Err(e) && e.deep_view() == message,
        },
{
    let parent = match bzlmod_selected_canonical_repo_name(
        names,
        module.dep.name.as_str(),
        module.dep.version.as_str(),
    ) {
        Ok(parent) => parent,
        Err(e) => {
            return Err(e);
        },
    };
    let cell = bzlmod_cell_name(parent.as_str());
    match resolve_bzlmod_use_repo_rule_generated_repos(
        &module.use_repo_rule_invocations,
        parent.as_str(),
        cell.as_str(),
        false,
        repos,
    ) {
        Ok(_) => {},
        Err(e) => {
            return Err(e);
        },
    }
    let name = module.dep.name.as_str();
    if same(name, "rules_shell") {
        add_shell_repos(&module.use_repo_aliases, parent.as_str(), cell.as_str(), repos);
    } else if same(name, "platforms") {
        let imports = bzlmod_extension_imports_from_usages(
            &module.extension_usages,
            "host_platform",
        );
        add_builtin_repos(
            BuiltinModule::Platforms,
            &imports,
            parent.as_str(),
            cell.as_str(),
            repos,
        );
    } else if same(name, "bazel_features") {
        let imports = bzlmod_extension_imports_from_usages(
            &module.extension_usages,
            "version_extension",
        );
        add_builtin_repos(
            BuiltinModule::BazelFeatures,
            &imports,
            parent.as_str(),
            cell.as_str(),
            repos,
        );
    }
    add_module_usage_repos(
        &module.extension_usages,
        parent.as_str(),
        cell.as_str(),
        false,
        root_module,
        cells,
        unique,
        jsons,
        repos,
    )
}

fn add_xcode_repo(repos: &mut GeneratedRepos)
    ensures
        final(repos).deep_view() == with_xcode_repo(old(repos).deep_view()),
{
    let cell = add_unimported_generated_bzlmod_repo(
        repos,
        "bazel_tools",
        "bazel_tools+xcode_configure_extension+local_config_xcode",
        BzlmodGeneratedCellGenerator::XcodeConfig(BzlmodXcodeConfigSetup {  }),
    );
    add_bzlmod_cell_alias(&mut repos.aliases, "root", "local_config_xcode", cell.as_str());
    add_bzlmod_cell_alias(&mut repos.aliases, "bazel_tools", "local_config_xcode", cell.as_str());
}

/// The repositories and aliases that repository rules and extensions bring about.
pub open spec fn generated_repos(
    root: RootBzlmodModuleModel,
    discovered: Discovered,
    keys: Seq<ModuleKey>,
    names: Seq<(ModuleKey, Text)>,
    aliases: CellAliases,
    cells: Seq<(Text, Text)>,
    unique: Seq<(BzlmodExtensionIdModel, Text)>,
    jsons: Seq<(BzlmodExtensionIdModel, Text)>,
) -> Result<(Seq<ResolvedExternalModuleModel>, CellAliases), Text> {
    match all_repos(root, discovered, keys, names, aliases, cells, unique, jsons) {
        Err(message) => Err(message),
        Ok(g) => Ok((g.modules, repo_mappings(g))),
    }
}

/// Generates the repositories of repository rules and extensions: returns them,
/// and the aliases of each cell.
pub fn resolve_generated_bzlmod_repos(
    root_module: &RootBzlmodModule,
    discovered: &KeyMap<(String, String), DiscoveredBcrModule>,
    selected_keys_in_dependency_order: &Vec<(String, String)>,
    canonical_repo_names_by_key: &KeyMap<(String, String), String>,
    cell_aliases_by_cell: &KeyMap<String, KeyMap<String, String>>,
    canonical_repo_names_by_cell: &KeyMap<String, String>,
    extension_unique_names: &KeyMap<BzlmodExtensionId, String>,
    extension_usages_json_by_id: &KeyMap<BzlmodExtensionId, String>,
) -> (r: Result<
    (Vec<ResolvedExternalModule>, KeyMap<String, KeyMap<String, String>>),
    InputError,
>)
    ensures
        result_view(r) == generated_repos(
            root_module.deep_view(),
            discovered.deep_view(),
            selected_keys_in_dependency_order.deep_view(),
            canonical_repo_names_by_key.deep_view(),
            cell_aliases_by_cell.deep_view(),
            canonical_repo_names_by_cell.deep_view(),
            extension_unique_names.deep_view(),
            extension_usages_json_by_id.deep_view(),
        ),
{
    let keys = selected_keys_in_dependency_order;
    let ghost locked = root_module.deep_view().lockfile_extension_generated_repos;
    let ghost whole = all_repos(
        root_module.deep_view(),
        discovered.deep_view(),
        keys.deep_view(),
        canonical_repo_names_by_key.deep_view(),
        cell_aliases_by_cell.deep_view(),
        canonical_repo_names_by_cell.deep_view(),
        extension_unique_names.deep_view(),
        extension_usages_json_by_id.deep_view(),
    );
    let mut repos = GeneratedRepos {
        aliases: cell_aliases_by_cell.duplicate(),
        modules: Vec::new(),
        declaring_cells: Vec::new(),
        repo_groups: KeyMap::new(),
        override_groups: KeyMap::new(),
    };
    assert(repos.modules.deep_view() =~= seq![]);
    assert(repos.declaring_cells.deep_view() =~= seq![]);
    assert(repos.repo_groups.deep_view() =~= seq![]);
    assert(repos.override_groups.deep_view() =~= seq![]);
    match resolve_bzlmod_use_repo_rule_generated_repos(
        &root_module.use_repo_rule_invocations,
        root_module.canonical_repo_name.as_str(),
        "root",
        true,
        &mut repos,
    ) {
        Ok(_) => {},
        Err(e) => {
            return Err(e);
        },
    }
    add_xcode_repo(&mut repos);
    let ghost model = keys.deep_view();
    let ghost first = repos.deep_view();
    let mut i: usize = 0;
    while i < keys.len()
        invariant
            model == keys.deep_view(),
            keys == selected_keys_in_dependency_order,
            locked == root_module.deep_view().lockfile_extension_generated_repos,
            whole == all_repos(
                root_module.deep_view(),
                discovered.deep_view(),
                keys.deep_view(),
                canonical_repo_names_by_key.deep_view(),
                cell_aliases_by_cell.deep_view(),
                canonical_repo_names_by_cell.deep_view(),
                extension_unique_names.deep_view(),
                extension_usages_json_by_id.deep_view(),
            ),
            whole == (match modules_repos(
                model,
                i as int,
                discovered.deep_view(),
                canonical_repo_names_by_key.deep_view(),
                locked,
                canonical_repo_names_by_cell.deep_view(),
                extension_unique_names.deep_view(),
                extension_usages_json_by_id.deep_view(),
                repos.deep_view(),
            ) {
                Err(message) => Err(message),
                Ok(b) => module_usage_repos(
                    root_module.deep_view().extension_usages,
                    0,
                    root_module.deep_view().canonical_repo_name,
                    "root"@,
                    true,
                    locked,
                    canonical_repo_names_by_cell.deep_view(),
                    extension_unique_names.deep_view(),
                    extension_usages_json_by_id.deep_view(),
                    b,
                ),
            }),
            0 <= i <= keys@.len(),
        decreases keys.len() - i,
    {
        assert(model[i as int] == keys@[i as int].deep_view());
        match discovered.get(&keys[i]) {
            None => {},
            Some(module) => match add_module_repos(
                module,
                canonical_repo_names_by_key,
                root_module,
                canonical_repo_names_by_cell,
                extension_unique_names,
                extension_usages_json_by_id,
                &mut repos,
            ) {
                Ok(_) => {},
                Err(e) => {
                    return Err(e);
                },
            },
        }
        i += 1;
    }
    match add_module_usage_repos(
        &root_module.extension_usages,
        root_module.canonical_repo_name.as_str(),
        "root",
        true,
        root_module,
        canonical_repo_names_by_cell,
        extension_unique_names,
        extension_usages_json_by_id,
        &mut repos,
    ) {
        Ok(_) => {},
        Err(e) => {
            return Err(e);
        },
    }
    add_generated_bzlmod_repo_mappings(&mut repos);
    Ok((repos.modules, repos.aliases))
}

proof fn lemma_visible_kept(
    cell: Text,
    visible: Seq<(Text, Text)>,
    i: int,
    aliases: CellAliases,
    c: Text,
    alias: Text,
)
    requires
        0 <= i <= visible.len(),
        aliases_sorted(aliases),
        c != cell || forall|j: int| i <= j < visible.len() ==> (#[trigger] visible[j]).0 != alias,
    ensures
        aliases_sorted(visible_aliases(cell, visible, i, aliases)),
        alias_target(visible_aliases(cell, visible, i, aliases), c, alias) == alias_target(
            aliases,
            c,
            alias,
        ),
    decreases visible.len() - i,
{
    if i < visible.len() {
        law_alias_in_order(aliases, cell, visible[i].0, visible[i].1);
        law_alias_after_add(aliases, cell, visible[i].0, visible[i].1, c, alias);
        assert(visible[i].0 != alias || c != cell);
        lemma_visible_kept(
            cell,
            visible,
            i + 1,
            with_alias(aliases, cell, visible[i].0, visible[i].1),
            c,
            alias,
        );
    }
}

proof fn lemma_visible_there(
    cell: Text,
    visible: Seq<(Text, Text)>,
    i: int,
    aliases: CellAliases,
    k: int,
)
    requires
        0 <= i <= k < visible.len(),
        aliases_sorted(aliases),
        forall|j: int| k < j < visible.len() ==> (#[trigger] visible[j]).0 != visible[k].0,
    ensures
        aliases_sorted(visible_aliases(cell, visible, i, aliases)),
        alias_target(visible_aliases(cell, visible, i, aliases), cell, visible[k].0) == Some(
            visible[k].1,
        ),
    decreases visible.len() - i,
{
    let next = with_alias(aliases, cell, visible[i].0, visible[i].1);
    law_alias_in_order(aliases, cell, visible[i].0, visible[i].1);
    law_alias_after_add(aliases, cell, visible[i].0, visible[i].1, cell, visible[k].0);
    if i < k {
        lemma_visible_there(cell, visible, i + 1, next, k);
    } else {
        lemma_visible_kept(cell, visible, i + 1, next, cell, visible[k].0);
    }
}

/// In each repository of an extension every name that is visible there stands for its
/// cell: the repositories of one extension see each other.
pub proof fn law_group_sees_each_other(
    cells: Seq<(Text, Text)>,
    i: int,
    visible: Seq<(Text, Text)>,
    aliases: CellAliases,
    c: int,
    k: int,
)
    requires
        0 <= i <= cells.len(),
        0 <= c < cells.len(),
        0 <= k < visible.len(),
        aliases_sorted(aliases),
        forall|j: int| k < j < visible.len() ==> (#[trigger] visible[j]).0 != visible[k].0,
        i <= c || alias_target(aliases, cells[c].1, visible[k].0) == Some(visible[k].1),
    ensures
        alias_target(group_aliases(cells, i, visible, aliases), cells[c].1, visible[k].0) == Some(
            visible[k].1,
        ),
    decreases cells.len() - i,
{
    if i < cells.len() {
        let next = visible_aliases(cells[i].1, visible, 0, aliases);
        lemma_visible_there(cells[i].1, visible, 0, aliases, k);
        if cells[i].1 != cells[c].1 {
            lemma_visible_kept(cells[i].1, visible, 0, aliases, cells[c].1, visible[k].0);
        }
        law_group_sees_each_other(cells, i + 1, visible, next, c, k);
    }
}

proof fn lemma_put_all_keeps(items: Seq<(Text, Text)>, more: Seq<(Text, Text)>, i: int, q: Text)
    requires
        0 <= i <= more.len(),
        sorted_items::<String, Text>(items),
        forall|j: int| i <= j < more.len() ==> (#[trigger] more[j]).0 != q,
    ensures
        sorted_items::<String, Text>(put_all(items, more, i)),
        lookup(put_all(items, more, i), q) == lookup(items, q),
    decreases more.len() - i,
{
    if i < more.len() {
        law_put_sorted::<String, Text>(items, more[i].0, more[i].1);
        law_lookup_after_put::<String, Text>(items, more[i].0, more[i].1, q);
        assert(more[i].0 != q);
        lemma_put_all_keeps(
            put::<String, Text>(items, more[i].0, more[i].1),
            more,
            i + 1,
            q,
        );
    }
}

/// Of entries that are put among others the last under a key counts, and it counts more
/// than the one that was there.
pub proof fn law_put_all(items: Seq<(Text, Text)>, more: Seq<(Text, Text)>, i: int, k: int)
    requires
        0 <= i <= k < more.len(),
        sorted_items::<String, Text>(items),
        forall|j: int| k < j < more.len() ==> (#[trigger] more[j]).0 != more[k].0,
    ensures
        lookup(put_all(items, more, i), more[k].0) == Some(more[k].1),
    decreases more.len() - i,
{
    let next = put::<String, Text>(items, more[i].0, more[i].1);
    law_put_sorted::<String, Text>(items, more[i].0, more[i].1);
    law_lookup_after_put::<String, Text>(items, more[i].0, more[i].1, more[k].0);
    if i < k {
        law_put_all(next, more, i + 1, k);
    } else {
        lemma_put_all_keeps(next, more, i + 1, more[k].0);
    }
}

/// A generated repository knows all names that the cell knows whose aliases it shares.
pub proof fn law_aliases_shared(
    repo: Text,
    cell: Text,
    shared: Seq<(Text, Text)>,
    aliases: CellAliases,
    k: int,
)
    requires
        aliases_sorted(aliases),
        lookup(aliases, cell) == Some(shared),
        0 <= k < shared.len(),
        forall|j: int| k < j < shared.len() ==> (#[trigger] shared[j]).0 != shared[k].0,
    ensures
        alias_target(
            shared_aliases(seq![(repo, cell)], 0, seq![], aliases),
            repo,
            shared[k].0,
        ) == Some(shared[k].1),
{
    let own = aliases_in(aliases, repo);
    lemma_aliases_in_sorted(aliases, repo);
    law_put_all(own, shared, 0, k);
    law_lookup_after_put::<String, Seq<(Text, Text)>>(
        aliases,
        repo,
        put_all(own, shared, 0),
        repo,
    );
    reveal_with_fuel(shared_aliases, 2);
}

} // verus!
