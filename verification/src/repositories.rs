//! What the repositories of a project come to once its modules are known.

use vstd::prelude::*;
use vstd::string::*;
use crate::dep_graph::all_named;
use crate::evaluation::{EvalContext, bzlmod_module_extension_evaluation_config, evaluation_config};
use crate::external::{
    BzlmodGeneratedCellGenerator, BzlmodGeneratedCellGeneratorModel, BzlmodModuleExtensionRepoSetup,
    BzlmodModuleExtensionRepoSetupModel, ExternalCellRegistry, blake3_hex,
    register_bzlmod_cell_canonical_repo_name_for_cell,
};
use crate::graph::{
    bzlmod_dep_graph_from_selection, bzlmod_module_extension_repo_overrides_for_extension,
    dep_graph, extension_overrides_in,
};
use crate::labels::{CellAliases, bzlmod_resolve_extension_id, extension_id};
use crate::module::{
    BcrSourceJson, BcrSourceJsonModel, BzlmodDepGraph, BzlmodDepGraphModel, BzlmodExtensionId,
    BzlmodExtensionIdModel, BzlmodExtensionUsageModel, BzlmodModuleExtensionEvaluationConfig,
    BzlmodModuleExtensionEvaluationConfigModel, BzlmodModuleLockfileData,
    BzlmodModuleLockfileDataModel, BzlmodRegistryValue, BzlmodSelectionResult, DiscoveredBcrModule,
    DiscoveredBcrModuleModel, InputError, RootBzlmodModuleModel,
};
use crate::module_aliases::{
    BazelModuleCellAliases, BazelModuleCellAliasesModel, alias_pairs,
    bzlmod_external_module_is_configure_repo, bzlmod_external_module_is_local, configures, normal,
    with_cell_aliases, with_modules,
};
use crate::module_inputs::BzlmodRootResolutionInput;
use crate::ordered::{
    Duplicate, KeyMap, KeySet, law_sorted_set_of, lemma_push_contains, lookup, put, result_view,
    set_put, set_put_all, sort_and_dedup, sorted_set_of,
};
use crate::origins::OriginJson;
use crate::resolved::{
    BazelCompatCellAlias, BazelCompatCellAliasModel, BazelCompatExternalModule,
    BazelCompatExternalModuleModel,
};
use crate::selection::{Discovered, ModuleKey};
use crate::text::{Text, concat3, same};

verus! {

/// The selected modules that a registry describes: all but the bundled tools.
pub open spec fn registry_keys(selected: Seq<ModuleKey>) -> Seq<ModuleKey>
    decreases selected.len(),
{
    if selected.len() == 0 {
        seq![]
    } else if selected.last().0 == "bazel_tools"@ {
        registry_keys(selected.drop_last())
    } else {
        registry_keys(selected.drop_last()).push(selected.last())
    }
}

/// The selected modules that a registry describes.
pub fn repo_spec_keys(selection: &BzlmodSelectionResult) -> (r: Vec<(String, String)>)
    ensures
        r.deep_view() == registry_keys(selection.selected_keys.deep_view()),
{
    let keys = &selection.selected_keys.items;
    let ghost model = keys.deep_view();
    let mut out: Vec<(String, String)> = Vec::new();
    assert(out.deep_view() =~= seq![]);
    let mut i: usize = 0;
    while i < keys.len()
        invariant
            model == keys.deep_view(),
            0 <= i <= keys@.len(),
            out.deep_view() == registry_keys(model.take(i as int)),
        decreases keys.len() - i,
    {
        let ghost before = out.deep_view();
        proof {
            let t = model.take(i + 1);
            assert(t.drop_last() =~= model.take(i as int));
            assert(t.last() == keys@[i as int].deep_view());
        }
        if !same(keys[i].0.as_str(), "bazel_tools") {
            out.push(keys[i].duplicate());
            assert(out.deep_view() =~= before.push(model[i as int]));
        }
        i += 1;
    }
    assert(model.take(i as int) =~= model);
    out
}

/// The hashes that a registry has on record for a module's source.
pub open spec fn source_hashes(
    hashes: Seq<(Text, Option<Text>)>,
    registry: Text,
    key: ModuleKey,
) -> Seq<(Text, Option<Text>)> {
    let url = registry + "/modules/"@ + key.0 + "/"@ + key.1 + "/source.json"@;
    match lookup(hashes, url) {
        Some(hash) => seq![(url, hash)],
        None => seq![],
    }
}

/// The hashes that a registry has on record for a module's source.
pub fn repo_spec_file_hashes(registry: &BzlmodRegistryValue, name: &str, version: &str) -> (r:
    KeyMap<String, Option<String>>)
    ensures
        r.deep_view() == source_hashes(
            registry.registry_file_hashes.deep_view(),
            registry.url@,
            (name@, version@),
        ),
{
    let mut url = concat3(registry.url.as_str(), "/modules/", name);
    url.append("/");
    url.append(version);
    url.append("/source.json");
    let mut entries: Vec<(String, Option<String>)> = Vec::new();
    let ghost u = url@;
    match registry.registry_file_hashes.get(&url) {
        Some(hash) => {
            let copy = hash.duplicate();
            let ghost h = copy.deep_view();
            entries.push((url, copy));
            assert(entries.deep_view() =~= seq![(u, h)]);
        },
        None => {
            assert(entries.deep_view() =~= seq![]);
        },
    }
    KeyMap { entries }
}

/// The modules with the sources from `i` on, those of them that are there.
pub open spec fn with_sources(
    discovered: Discovered,
    specs: Seq<(ModuleKey, BcrSourceJsonModel)>,
    i: int,
) -> Discovered
    decreases specs.len() - i,
{
    if i < 0 || i >= specs.len() {
        discovered
    } else {
        let (key, source_json) = specs[i];
        match lookup(discovered, key) {
            Some(module) => with_sources(
                put::<(String, String), DiscoveredBcrModuleModel>(
                    discovered,
                    key,
                    DiscoveredBcrModuleModel { source_json, ..module },
                ),
                specs,
                i + 1,
            ),
            None => with_sources(discovered, specs, i + 1),
        }
    }
}

/// The repositories by extension, with those of the entries from `i` on.
pub open spec fn with_repos(
    repos: Seq<(Text, Seq<Text>)>,
    more: Seq<(Text, Seq<Text>)>,
    i: int,
) -> Seq<(Text, Seq<Text>)>
    decreases more.len() - i,
{
    if i < 0 || i >= more.len() {
        repos
    } else {
        let known = match lookup(repos, more[i].0) {
            Some(known) => known,
            None => seq![],
        };
        with_repos(
            put::<String, Seq<Text>>(
                repos,
                more[i].0,
                set_put_all::<String>(known, more[i].1, 0),
            ),
            more,
            i + 1,
        )
    }
}

/// The root module with what the two lock files have on record.
pub open spec fn with_lockfiles(
    root: RootBzlmodModuleModel,
    lockfile: BzlmodModuleLockfileDataModel,
    hidden: BzlmodModuleLockfileDataModel,
) -> RootBzlmodModuleModel {
    RootBzlmodModuleModel {
        lockfile_extension_generated_repos: with_repos(
            lockfile.extension_generated_repos,
            hidden.extension_generated_repos,
            0,
        ),
        lockfile_extension_facts: set_put_all::<String>(
            lockfile.extension_facts,
            hidden.extension_facts,
            0,
        ),
        ..root
    }
}

fn add_sources(
    discovered: &mut KeyMap<(String, String), DiscoveredBcrModule>,
    specs: &Vec<((String, String), BcrSourceJson)>,
)
    ensures
        final(discovered).deep_view() == with_sources(
            old(discovered).deep_view(),
            specs.deep_view(),
            0,
        ),
{
    let ghost model = specs.deep_view();
    let ghost first = discovered.deep_view();
    let mut i: usize = 0;
    while i < specs.len()
        invariant
            model == specs.deep_view(),
            0 <= i <= specs@.len(),
            with_sources(first, model, 0) == with_sources(
                discovered.deep_view(),
                model,
                i as int,
            ),
        decreases specs.len() - i,
    {
        assert(model[i as int] == specs@[i as int].deep_view());
        let key = &specs[i].0;
        let changed = match discovered.get(key) {
            Some(module) => {
                let mut module = module.duplicate();
                module.source_json = specs[i].1.duplicate();
                Some(module)
            },
            None => None,
        };
        match changed {
            Some(module) => {
                discovered.insert(key.duplicate(), module);
            },
            None => {},
        }
        i += 1;
    }
}

fn add_repos(repos: &mut KeyMap<String, KeySet<String>>, more: &KeyMap<String, KeySet<String>>)
    ensures
        final(repos).deep_view() == with_repos(old(repos).deep_view(), more.deep_view(), 0),
{
    let ghost model = more.deep_view();
    let ghost first = repos.deep_view();
    let mut i: usize = 0;
    while i < more.entries.len()
        invariant
            model == more.deep_view(),
            0 <= i <= more.entries@.len(),
            with_repos(first, model, 0) == with_repos(repos.deep_view(), model, i as int),
        decreases more.entries.len() - i,
    {
        assert(model[i as int] == more.entries@[i as int].deep_view());
        let entry = &more.entries[i];
        let mut known = match repos.get(&entry.0) {
            Some(known) => known.duplicate(),
            None => {
                let none: KeySet<String> = KeySet::new();
                assert(none.deep_view() =~= seq![]);
                none
            },
        };
        known.insert_all(&entry.1.items);
        repos.insert(entry.0.clone(), known);
        i += 1;
    }
}

/// The graph of the project's modules, with the sources that the registry gave
/// and with what the two lock files have on record.
pub fn bzlmod_dep_graph(
    root: &BzlmodRootResolutionInput,
    lockfile: &BzlmodModuleLockfileData,
    hidden_lockfile: &BzlmodModuleLockfileData,
    selection: &BzlmodSelectionResult,
    repo_specs: &Vec<((String, String), BcrSourceJson)>,
) -> (r: Result<BzlmodDepGraph, InputError>)
    requires
        all_named(
            selection.selected_keys.deep_view(),
            selection.canonical_repo_names_by_key.deep_view(),
        ),
    ensures
        result_view(r) == dep_graph(
            root.deep_view().root_deps,
            with_lockfiles(
                root.deep_view().root_module,
                lockfile.deep_view(),
                hidden_lockfile.deep_view(),
            ),
            with_sources(selection.deep_view().discovered, repo_specs.deep_view(), 0),
            selection.deep_view(),
        ),
{
    let mut discovered = selection.discovered.duplicate();
    add_sources(&mut discovered, repo_specs);
    let mut repos = lockfile.extension_generated_repos.duplicate();
    add_repos(&mut repos, &hidden_lockfile.extension_generated_repos);
    let mut facts = lockfile.extension_facts.duplicate();
    facts.insert_all(&hidden_lockfile.extension_facts.items);
    let mut root_module = root.root_module.duplicate();
    root_module.lockfile_extension_generated_repos = repos;
    root_module.lockfile_extension_facts = facts;
    bzlmod_dep_graph_from_selection(&root.root_deps, root_module, discovered, selection)
}

/// The name and the evaluation of an extension in the graph.
pub open spec fn single_extension(graph: BzlmodDepGraphModel, id: BzlmodExtensionIdModel) -> Result<
    (Text, BzlmodModuleExtensionEvaluationConfigModel),
    Text,
> {
    match lookup(graph.extension_unique_names, id) {
        None => Err(
            "bzlmod module extension `"@ + id.bzl_cell_name + "//"@ + id.bzl_path + "%"@
                + id.extension_name + "` has no usages"@,
        ),
        Some(unique_name) => match evaluation_config(
            graph.root_module,
            graph.discovered,
            graph.selected_keys_in_bfs_order,
            graph.canonical_repo_names_by_key,
            EvalContext {
                aliases: graph.extension_eval_cell_aliases_by_cell,
                unique: graph.extension_unique_names,
                cells: graph.canonical_repo_names_by_cell,
                id,
            },
        ) {
            Err(e) => Err(e),
            Ok(config) => Ok((unique_name, config)),
        },
    }
}

/// The name and the evaluation of an extension in the graph.
pub fn bzlmod_single_extension_usages(dep_graph: &BzlmodDepGraph, extension_id: &BzlmodExtensionId) -> (r:
    Result<(String, BzlmodModuleExtensionEvaluationConfig), InputError>)
    ensures
        result_view(r) == single_extension(dep_graph.deep_view(), extension_id.deep_view()),
{
    let unique_name = match dep_graph.extension_unique_names.get(extension_id) {
        Some(unique_name) => unique_name.clone(),
        None => {
            let mut message = concat3(
                "bzlmod module extension `",
                extension_id.bzl_cell_name.as_str(),
                "//",
            );
            message.append(extension_id.bzl_path.as_str());
            message.append("%");
            message.append(extension_id.extension_name.as_str());
            message.append("` has no usages");
            return Err(InputError { message });
        },
    };
    match bzlmod_module_extension_evaluation_config(
        &dep_graph.root_module,
        &dep_graph.discovered,
        &dep_graph.selected_keys_in_bfs_order,
        &dep_graph.canonical_repo_names_by_key,
        &dep_graph.canonical_repo_names_by_cell,
        &dep_graph.extension_eval_cell_aliases_by_cell,
        extension_id,
        &dep_graph.extension_unique_names,
    ) {
        Ok(config) => Ok((unique_name, config)),
        Err(e) => Err(e),
    }
}

/// The evaluation of an extension for its own sake, apart from any repository.
pub fn bzlmod_single_extension_eval_setup(
    extension_id: &BzlmodExtensionId,
    unique_name: &str,
    extension_usages_json: &str,
) -> (r: BzlmodModuleExtensionRepoSetup)
    ensures
        r.deep_view() == (BzlmodModuleExtensionRepoSetupModel {
            parent_canonical_repo_name: ""@,
            parent_is_root: true,
            extension_bzl_file: extension_id.bzl_cell_name@ + "//"@ + extension_id.bzl_path@,
            extension_bzl_cell: extension_id.bzl_cell_name@,
            extension_bzl_path: extension_id.bzl_path@,
            extension_unique_name: unique_name@,
            extension_name: extension_id.extension_name@,
            repo_name: ""@,
            extension_usages_key: blake3_hex(extension_usages_json@),
            extension_usages_json: extension_usages_json@,
        }),
{
    BzlmodModuleExtensionRepoSetup {
        parent_canonical_repo_name: "".to_owned(),
        parent_is_root: true,
        extension_bzl_file: concat3(
            extension_id.bzl_cell_name.as_str(),
            "//",
            extension_id.bzl_path.as_str(),
        ),
        extension_bzl_cell: extension_id.bzl_cell_name.clone(),
        extension_bzl_path: extension_id.bzl_path.clone(),
        extension_unique_name: unique_name.to_owned(),
        extension_name: extension_id.extension_name.clone(),
        repo_name: "".to_owned(),
        extension_usages_key: BzlmodModuleExtensionRepoSetup::extension_usages_key_from_json(
            extension_usages_json,
        ),
        extension_usages_json: extension_usages_json.to_owned(),
    }
}

/// The extensions that the root module uses, from `i` on, with those before.
pub open spec fn root_extensions(
    usages: Seq<BzlmodExtensionUsageModel>,
    aliases: CellAliases,
    i: int,
    done: Seq<BzlmodExtensionIdModel>,
) -> Result<Seq<BzlmodExtensionIdModel>, Text>
    decreases usages.len() - i,
{
    if i < 0 || i >= usages.len() {
        Ok(done)
    } else {
        match extension_id("root"@, usages[i], aliases) {
            Err(e) => Err(e),
            Ok(id) => root_extensions(
                usages,
                aliases,
                i + 1,
                set_put::<BzlmodExtensionId>(done, id),
            ),
        }
    }
}

/// The extensions that the root module uses, in order, each once.
pub fn bzlmod_root_extension_ids(root: &BzlmodRootResolutionInput, dep_graph: &BzlmodDepGraph) -> (r:
    Result<Vec<BzlmodExtensionId>, InputError>)
    ensures
        result_view(r) == root_extensions(
            root.deep_view().root_module.extension_usages,
            dep_graph.deep_view().extension_eval_cell_aliases_by_cell,
            0,
            seq![],
        ),
{
    let usages = &root.root_module.extension_usages;
    let ghost model = usages.deep_view();
    let ghost aliases = dep_graph.extension_eval_cell_aliases_by_cell.deep_view();
    let ghost whole = root_extensions(model, aliases, 0, seq![]);
    let mut ids: KeySet<BzlmodExtensionId> = KeySet::new();
    assert(ids.deep_view() =~= seq![]);
    let mut i: usize = 0;
    while i < usages.len()
        invariant
            model == usages.deep_view(),
            aliases == dep_graph.extension_eval_cell_aliases_by_cell.deep_view(),
            0 <= i <= usages@.len(),
            whole == root_extensions(model, aliases, 0, seq![]),
            whole == root_extensions(model, aliases, i as int, ids.deep_view()),
            model == root.root_module.extension_usages.deep_view(),
        decreases usages.len() - i,
    {
        assert(model[i as int] == usages@[i as int].deep_view());
        match bzlmod_resolve_extension_id(
            "root",
            &usages[i],
            &dep_graph.extension_eval_cell_aliases_by_cell,
        ) {
            Ok(id) => {
                ids.insert(id);
            },
            Err(e) => {
                return Err(e);
            },
        }
        i += 1;
    }
    Ok(ids.items)
}

/// What the module files lead to, with what the resolution of the modules adds.
pub open spec fn resolved_aliases(
    root: BazelModuleCellAliasesModel,
    modules: Seq<BazelCompatExternalModuleModel>,
    root_aliases: Seq<BazelCompatCellAliasModel>,
    cell_aliases: Seq<(Text, Seq<BazelCompatCellAliasModel>)>,
    toolchains: Seq<Text>,
) -> BazelModuleCellAliasesModel {
    normal(
        BazelModuleCellAliasesModel {
            root_aliases: root.root_aliases + root_aliases,
            cell_aliases,
            external_modules: modules,
            registered_toolchains: root.registered_toolchains + toolchains,
        },
    )
}

/// What the module files lead to, with what the resolution of the modules adds,
/// in order and without repetitions.
pub fn bzlmod_resolved_aliases(
    root: &BzlmodRootResolutionInput,
    external_modules: Vec<BazelCompatExternalModule>,
    root_aliases: Vec<BazelCompatCellAlias>,
    cell_aliases: KeyMap<String, Vec<BazelCompatCellAlias>>,
    registered_toolchains: Vec<String>,
) -> (r: BazelModuleCellAliases)
    ensures
        r.deep_view() == resolved_aliases(
            root.deep_view().aliases,
            external_modules.deep_view(),
            root_aliases.deep_view(),
            cell_aliases.deep_view(),
            registered_toolchains.deep_view(),
        ),
{
    let mut all_aliases = root.aliases.root_aliases.duplicate();
    let mut all_toolchains = root.aliases.registered_toolchains.duplicate();
    let ghost a = all_aliases.deep_view();
    let ghost b = root_aliases.deep_view();
    let ghost c = all_toolchains.deep_view();
    let ghost d = registered_toolchains.deep_view();
    let mut more_aliases = root_aliases;
    let mut more_toolchains = registered_toolchains;
    all_aliases.append(&mut more_aliases);
    all_toolchains.append(&mut more_toolchains);
    assert(all_aliases.deep_view() =~= a + b);
    assert(all_toolchains.deep_view() =~= c + d);
    let mut aliases = BazelModuleCellAliases {
        root_aliases: all_aliases,
        cell_aliases,
        external_modules,
        registered_toolchains: all_toolchains,
    };
    aliases.normalize();
    aliases
}

/// Registers what was resolved: the root cell's name, the aliases of the cells,
/// and the names and origins of the modules.
pub fn register_resolved_aliases(
    registry: &mut ExternalCellRegistry,
    aliases: &BazelModuleCellAliases,
    root_cell_name: &str,
    json: &Vec<OriginJson>,
) -> (r: Result<(), InputError>)
    requires
        json@.len() == aliases.external_modules@.len(),
    ensures
        with_modules(
            put::<String, Text>(
                old(registry).canonical_repo_names.deep_view(),
                root_cell_name@,
                ""@,
            ),
            old(registry).origins.deep_view(),
            aliases.deep_view().external_modules,
            json.deep_view(),
            0,
        ) == (
            final(registry).canonical_repo_names.deep_view(),
            final(registry).origins.deep_view(),
            match r {
                Ok(_) => None,
                Err(e) => Some(e.deep_view()),
            },
        ),
        final(registry).cell_aliases.deep_view() == with_cell_aliases(
            put::<String, Seq<(Text, Text)>>(
                old(registry).cell_aliases.deep_view(),
                root_cell_name@,
                alias_pairs(aliases.deep_view().root_aliases, root_cell_name@),
            ),
            aliases.deep_view().cell_aliases,
            root_cell_name@,
            0,
        ),
        old(registry).wf() ==> final(registry).wf(),
{
    register_bzlmod_cell_canonical_repo_name_for_cell(registry, root_cell_name, "");
    aliases.register_for_starlark_label_resolution(registry, root_cell_name);
    aliases.register_external_cell_origins(registry, json)
}

/// The first module from `i` on of a repository name.
pub open spec fn module_named(
    modules: Seq<BazelCompatExternalModuleModel>,
    name: Text,
    i: int,
) -> Option<int>
    decreases modules.len() - i,
{
    if i < 0 || i >= modules.len() {
        None
    } else if modules[i].canonical() == name {
        Some(i)
    } else {
        module_named(modules, name, i + 1)
    }
}

fn find_module(modules: &Vec<BazelCompatExternalModule>, name: &str) -> (r: Option<usize>)
    ensures
        match r {
            Some(i) => i < modules@.len() && module_named(modules.deep_view(), name@, 0) == Some(
                i as int,
            ),
            None => module_named(modules.deep_view(), name@, 0) is None,
        },
{
    let ghost model = modules.deep_view();
    let mut i: usize = 0;
    while i < modules.len()
        invariant
            model == modules.deep_view(),
            0 <= i <= modules@.len(),
            module_named(model, name@, 0) == module_named(model, name@, i as int),
        decreases modules.len() - i,
    {
        assert(model[i as int] == modules@[i as int].deep_view());
        if same(modules[i].canonical_repo_name(), name) {
            return Some(i);
        }
        i += 1;
    }
    None
}

/// A module that is generated by looking at the machine.
pub open spec fn is_configure_repo(
    module: BazelCompatExternalModuleModel,
    generator: Option<BzlmodGeneratedCellGeneratorModel>,
) -> bool {
    module is Generated && generator is Some && configures(generator->0)
}

/// A module in a directory of its own.
pub open spec fn is_local(module: BazelCompatExternalModuleModel) -> bool {
    match module {
        BazelCompatExternalModuleModel::Registry(m) => m.local_path is Some,
        BazelCompatExternalModuleModel::Generated(_) => false,
    }
}

/// A repository: its module, and whether that is generated by looking at the
/// machine.
pub open spec fn repo_definition(
    modules: Seq<BazelCompatExternalModuleModel>,
    generators: Seq<Option<BzlmodGeneratedCellGeneratorModel>>,
    name: Text,
) -> (Option<BazelCompatExternalModuleModel>, bool) {
    match module_named(modules, name, 0) {
        Some(i) => (Some(modules[i]), is_configure_repo(modules[i], generators[i])),
        None => (None, false),
    }
}

/// A repository by its name: its module, and whether that is generated by
/// looking at the machine. The generators are those of the modules, as far as
/// they could be read.
pub fn bzlmod_repo_definition(
    external_modules: &Vec<BazelCompatExternalModule>,
    generators: &Vec<Option<BzlmodGeneratedCellGenerator>>,
    canonical_repo_name: &str,
) -> (r: (Option<BazelCompatExternalModule>, bool))
    requires
        generators@.len() == external_modules@.len(),
    ensures
        r.deep_view() == repo_definition(
            external_modules.deep_view(),
            generators.deep_view(),
            canonical_repo_name@,
        ),
{
    match find_module(external_modules, canonical_repo_name) {
        Some(i) => {
            assert(external_modules.deep_view()[i as int]
                == external_modules@[i as int].deep_view());
            assert(generators.deep_view()[i as int] == generators@[i as int].deep_view());
            let configure = bzlmod_external_module_is_configure_repo(
                &external_modules[i],
                &generators[i],
            );
            (Some(external_modules[i].duplicate()), configure)
        },
        None => (None, false),
    }
}

/// A repository's directory: whether there is one, and whether it stays out of
/// what is vendored.
pub open spec fn repo_directory(definition: (Option<BazelCompatExternalModuleModel>, bool)) -> (
    bool,
    bool,
) {
    match definition.0 {
        Some(module) => (true, is_local(module) || definition.1),
        None => (false, true),
    }
}

/// A repository's directory: whether there is one, and whether it stays out of
/// what is vendored.
pub fn bzlmod_repository_directory(
    external_modules: &Vec<BazelCompatExternalModule>,
    generators: &Vec<Option<BzlmodGeneratedCellGenerator>>,
    canonical_repo_name: &str,
) -> (r: (bool, bool))
    requires
        generators@.len() == external_modules@.len(),
    ensures
        r == repo_directory(
            repo_definition(
                external_modules.deep_view(),
                generators.deep_view(),
                canonical_repo_name@,
            ),
        ),
{
    let (module, configure) = bzlmod_repo_definition(
        external_modules,
        generators,
        canonical_repo_name,
    );
    match module {
        Some(module) => (true, bzlmod_external_module_is_local(&module) || configure),
        None => (false, true),
    }
}

/// The names of the repositories that extensions generate.
pub open spec fn generated_names(generated: Seq<(Text, Seq<Text>)>) -> Seq<Text>
    decreases generated.len(),
{
    if generated.len() == 0 {
        seq![]
    } else {
        let (unique_name, repos) = generated.last();
        generated_names(generated.drop_last()) + Seq::new(
            repos.len(),
            |i: int| unique_name + "+"@ + repos[i],
        )
    }
}

/// The repository is one to vendor: it is there, does not stay out, and is
/// generated by looking at the machine where only such are asked for.
pub open spec fn to_vendor(
    modules: Seq<BazelCompatExternalModuleModel>,
    generators: Seq<Option<BzlmodGeneratedCellGeneratorModel>>,
    configure: bool,
    name: Text,
) -> bool {
    let definition = repo_definition(modules, generators, name);
    let (found, excluded) = repo_directory(definition);
    (configure ==> definition.1) && found && !excluded
}

/// The repositories of the names that are to be vendored.
pub open spec fn vendored(
    modules: Seq<BazelCompatExternalModuleModel>,
    generators: Seq<Option<BzlmodGeneratedCellGeneratorModel>>,
    configure: bool,
    names: Seq<Text>,
) -> Seq<Text>
    decreases names.len(),
{
    if names.len() == 0 {
        seq![]
    } else {
        let before = vendored(modules, generators, configure, names.drop_last());
        if to_vendor(modules, generators, configure, names.last()) {
            before.push(names.last())
        } else {
            before
        }
    }
}

/// The repository names of the modules.
pub open spec fn canonical_names_of(modules: Seq<BazelCompatExternalModuleModel>) -> Seq<Text> {
    Seq::new(modules.len(), |i: int| modules[i].canonical())
}

/// What all repositories that can be vendored are, in order and each once.
pub open spec fn repos_to_vendor(
    modules: Seq<BazelCompatExternalModuleModel>,
    generators: Seq<Option<BzlmodGeneratedCellGeneratorModel>>,
    generated: Seq<(Text, Seq<Text>)>,
    configure: bool,
) -> Seq<Text> {
    sorted_set_of::<String>(
        vendored(
            modules,
            generators,
            configure,
            canonical_names_of(modules) + generated_names(generated),
        ),
    )
}

/// Where only repositories that look at the machine are asked for, none is
/// vendored: those stay out.
pub proof fn law_configure_vendors_nothing(
    modules: Seq<BazelCompatExternalModuleModel>,
    generators: Seq<Option<BzlmodGeneratedCellGeneratorModel>>,
    generated: Seq<(Text, Seq<Text>)>,
)
    ensures
        repos_to_vendor(modules, generators, generated, true) == Seq::<Text>::empty(),
{
    let names = canonical_names_of(modules) + generated_names(generated);
    lemma_none_vendored(modules, generators, names);
    assert(repos_to_vendor(modules, generators, generated, true) =~= Seq::<Text>::empty());
}

proof fn lemma_none_vendored(
    modules: Seq<BazelCompatExternalModuleModel>,
    generators: Seq<Option<BzlmodGeneratedCellGeneratorModel>>,
    names: Seq<Text>,
)
    ensures
        vendored(modules, generators, true, names).len() == 0,
    decreases names.len(),
{
    if names.len() > 0 {
        lemma_none_vendored(modules, generators, names.drop_last());
    }
}

fn push_generated_names(names: &mut Vec<String>, generated: &Vec<(String, Vec<String>)>)
    ensures
        final(names).deep_view() == old(names).deep_view() + generated_names(
            generated.deep_view(),
        ),
{
    let ghost first = names.deep_view();
    let ghost model = generated.deep_view();
    let mut i: usize = 0;
    assert(first + seq![] =~= first);
    while i < generated.len()
        invariant
            model == generated.deep_view(),
            0 <= i <= generated@.len(),
            names.deep_view() =~= first + generated_names(model.take(i as int)),
        decreases generated.len() - i,
    {
        let ghost before = names.deep_view();
        let unique_name = generated[i].0.as_str();
        let repos = &generated[i].1;
        let ghost all = Seq::new(
            repos.deep_view().len(),
            |j: int| unique_name@ + "+"@ + repos.deep_view()[j],
        );
        proof {
            let t = model.take(i + 1);
            assert(t.drop_last() =~= model.take(i as int));
            assert(t.last() == generated@[i as int].deep_view());
        }
        let mut j: usize = 0;
        while j < repos.len()
            invariant
                all == Seq::new(
                    repos.deep_view().len(),
                    |j: int| unique_name@ + "+"@ + repos.deep_view()[j],
                ),
                0 <= j <= repos@.len(),
                names.deep_view() =~= before + all.take(j as int),
            decreases repos.len() - j,
        {
            let ghost so_far = names.deep_view();
            assert(repos.deep_view()[j as int] == repos@[j as int]@);
            names.push(concat3(unique_name, "+", repos[j].as_str()));
            assert(names.deep_view() =~= so_far.push(all[j as int]));
            j += 1;
        }
        assert(all.take(j as int) =~= all);
        i += 1;
    }
    assert(model.take(i as int) =~= model);
}

/// The repositories that can be vendored: those of the modules and those that
/// extensions generate, by the extensions' names.
pub fn bzlmod_repos_to_vendor(
    external_modules: &Vec<BazelCompatExternalModule>,
    generators: &Vec<Option<BzlmodGeneratedCellGenerator>>,
    generated: &Vec<(String, Vec<String>)>,
    configure: bool,
) -> (r: Vec<String>)
    requires
        generators@.len() == external_modules@.len(),
    ensures
        r.deep_view() == repos_to_vendor(
            external_modules.deep_view(),
            generators.deep_view(),
            generated.deep_view(),
            configure,
        ),
{
    let ghost modules = external_modules.deep_view();
    let ghost read = generators.deep_view();
    let mut names: Vec<String> = Vec::new();
    let mut i: usize = 0;
    while i < external_modules.len()
        invariant
            modules == external_modules.deep_view(),
            0 <= i <= external_modules@.len(),
            names.deep_view() =~= canonical_names_of(modules).take(i as int),
        decreases external_modules.len() - i,
    {
        let ghost before = names.deep_view();
        assert(modules[i as int] == external_modules@[i as int].deep_view());
        names.push(external_modules[i].canonical_repo_name().to_owned());
        assert(names.deep_view() =~= before.push(canonical_names_of(modules)[i as int]));
        i += 1;
    }
    assert(names.deep_view() =~= canonical_names_of(modules));
    push_generated_names(&mut names, generated);
    let ghost all = names.deep_view();
    let mut kept: Vec<String> = Vec::new();
    let mut j: usize = 0;
    assert(kept.deep_view() =~= seq![]);
    while j < names.len()
        invariant
            modules == external_modules.deep_view(),
            read == generators.deep_view(),
            generators@.len() == external_modules@.len(),
            all == names.deep_view(),
            0 <= j <= names@.len(),
            kept.deep_view() == vendored(modules, read, configure, all.take(j as int)),
        decreases names.len() - j,
    {
        let ghost before = kept.deep_view();
        proof {
            let t = all.take(j + 1);
            assert(t.drop_last() =~= all.take(j as int));
            assert(t.last() == names@[j as int]@);
        }
        let name = names[j].as_str();
        let wanted = if configure {
            let (_, configures) = bzlmod_repo_definition(external_modules, generators, name);
            configures
        } else {
            true
        };
        let (found, excluded) = bzlmod_repository_directory(external_modules, generators, name);
        if wanted && found && !excluded {
            kept.push(names[j].clone());
            assert(kept.deep_view() =~= before.push(name@));
        }
        j += 1;
    }
    assert(all.take(j as int) =~= all);
    sort_and_dedup(&kept)
}

/// What the repositories of an extension are mapped by: the aliases of the cell
/// that the extension lies in, and the repositories that are overridden.
#[derive(Debug, PartialEq, Eq)]
pub struct BzlmodModuleExtensionRepoMappingBase {
    pub host_aliases: Vec<(String, String)>,
    pub repo_overrides: Vec<(String, String)>,
}

/// The pairs with `root` read as the root cell's name.
pub open spec fn pairs_with_root(pairs: Seq<(Text, Text)>, root: Text) -> Seq<(Text, Text)> {
    Seq::new(
        pairs.len(),
        |i: int|
            (
                pairs[i].0,
                if pairs[i].1 == "root"@ {
                    root
                } else {
                    pairs[i].1
                },
            ),
    )
}

/// The aliases of the cell that an extension lies in, in order, each once.
pub open spec fn host_aliases(graph: BzlmodDepGraphModel, cell: Text, root: Text) -> Seq<(Text, Text)> {
    let aliases = match lookup(graph.cell_aliases_by_cell, cell) {
        Some(aliases) => aliases,
        None => seq![],
    };
    sorted_set_of::<(String, String)>(pairs_with_root(aliases, root))
}

fn replace_root(pairs: &Vec<(String, String)>, root: &str) -> (r: Vec<(String, String)>)
    ensures
        r.deep_view() == pairs_with_root(pairs.deep_view(), root@),
{
    let ghost all = pairs_with_root(pairs.deep_view(), root@);
    let mut out: Vec<(String, String)> = Vec::new();
    let mut i: usize = 0;
    while i < pairs.len()
        invariant
            all == pairs_with_root(pairs.deep_view(), root@),
            0 <= i <= pairs@.len(),
            out.deep_view() =~= all.take(i as int),
        decreases pairs.len() - i,
    {
        let ghost before = out.deep_view();
        assert(pairs.deep_view()[i as int] == pairs@[i as int].deep_view());
        let target = if same(pairs[i].1.as_str(), "root") {
            root.to_owned()
        } else {
            pairs[i].1.clone()
        };
        out.push((pairs[i].0.clone(), target));
        assert(out.deep_view() =~= before.push(all[i as int]));
        i += 1;
    }
    assert(all.take(i as int) =~= all);
    out
}

/// What the repositories of an extension are mapped by.
pub fn get_bzlmod_module_extension_repo_mapping_base(
    dep_graph: &BzlmodDepGraph,
    extension_id: &BzlmodExtensionId,
    root_cell_name: &str,
) -> (r: Result<BzlmodModuleExtensionRepoMappingBase, InputError>)
    ensures
        match extension_overrides_in(dep_graph.deep_view(), extension_id.deep_view()) {
            Ok(overrides) => r matches Ok(base) && base.host_aliases.deep_view() == host_aliases(
                dep_graph.deep_view(),
                extension_id.bzl_cell_name@,
                root_cell_name@,
            ) && base.repo_overrides.deep_view() == pairs_with_root(overrides, root_cell_name@),
            Err(message) => r matches Err(e) && e.deep_view() == message,
        },
{
    let aliases = match dep_graph.cell_aliases_by_cell.get(&extension_id.bzl_cell_name) {
        Some(aliases) => replace_root(&aliases.entries, root_cell_name),
        None => {
            let none: Vec<(String, String)> = Vec::new();
            assert(none.deep_view() =~= pairs_with_root(seq![], root_cell_name@));
            none
        },
    };
    match bzlmod_module_extension_repo_overrides_for_extension(dep_graph, extension_id) {
        Ok(overrides) => Ok(
            BzlmodModuleExtensionRepoMappingBase {
                host_aliases: sort_and_dedup(&aliases),
                repo_overrides: replace_root(&overrides, root_cell_name),
            },
        ),
        Err(e) => Err(e),
    }
}

/// Something that takes the environment of repository rules.
pub trait SetBzlmodRepositoryEnvironmentData {
    /// The environment that it has.
    spec fn repository_environment(&self) -> Seq<(Text, Text)>;

    fn set_bzlmod_repository_environment_data(&mut self, vars: KeyMap<String, String>)
        ensures
            final(self).repository_environment() == vars.deep_view(),
    ;
}

/// The environment of repository rules.
#[derive(Debug, PartialEq, Eq)]
pub struct BzlmodRepositoryEnvironmentData {
    pub vars: KeyMap<String, String>,
}

impl SetBzlmodRepositoryEnvironmentData for BzlmodRepositoryEnvironmentData {
    open spec fn repository_environment(&self) -> Seq<(Text, Text)> {
        self.vars.deep_view()
    }

    fn set_bzlmod_repository_environment_data(&mut self, vars: KeyMap<String, String>) {
        self.vars = vars;
    }
}

impl BzlmodRepositoryEnvironmentData {
    /// A variable of the environment.
    pub fn get_bzlmod_repository_environment_variable(&self, name: &str) -> (r: Option<String>)
        ensures
            r.deep_view() == lookup(self.vars.deep_view(), name@),
    {
        match self.vars.get(&name.to_owned()) {
            Some(value) => Some(value.clone()),
            None => None,
        }
    }
}

/// The variables that have another value than before, or had none on record,
/// each with its value now.
pub open spec fn changed_variables(
    known: Seq<(Text, Option<Option<Text>>)>,
    vars: Seq<(Text, Text)>,
) -> Seq<(Text, Option<Text>)>
    decreases known.len(),
{
    if known.len() == 0 {
        seq![]
    } else {
        let (name, old) = known.last();
        let before = changed_variables(known.drop_last(), vars);
        if old == Some(lookup(vars, name)) {
            before
        } else {
            before.push((name, lookup(vars, name)))
        }
    }
}

/// The variables that have another value than before, or had none on record.
pub fn set_bzlmod_repository_environment(
    known: &Vec<(String, Option<Option<String>>)>,
    vars: &KeyMap<String, String>,
) -> (r: Vec<(String, Option<String>)>)
    ensures
        r.deep_view() == changed_variables(known.deep_view(), vars.deep_view()),
{
    let ghost model = known.deep_view();
    let mut out: Vec<(String, Option<String>)> = Vec::new();
    assert(out.deep_view() =~= seq![]);
    let mut i: usize = 0;
    while i < known.len()
        invariant
            model == known.deep_view(),
            0 <= i <= known@.len(),
            out.deep_view() == changed_variables(model.take(i as int), vars.deep_view()),
        decreases known.len() - i,
    {
        let ghost before = out.deep_view();
        proof {
            let t = model.take(i + 1);
            assert(t.drop_last() =~= model.take(i as int));
            assert(t.last() == known@[i as int].deep_view());
        }
        let fresh = vars.get(&known[i].0);
        let unchanged = match (&known[i].1, fresh) {
            (Some(Some(old)), Some(new)) => same(old.as_str(), new.as_str()),
            (Some(None), None) => true,
            _ => false,
        };
        if !unchanged {
            let value = match fresh {
                Some(value) => Some(value.clone()),
                None => None,
            };
            let ghost added = (known@[i as int].0@, value.deep_view());
            out.push((known[i].0.clone(), value));
            assert(out.deep_view() =~= before.push(added));
        }
        i += 1;
    }
    assert(model.take(i as int) =~= model);
    out
}

proof fn lemma_vendored(
    modules: Seq<BazelCompatExternalModuleModel>,
    generators: Seq<Option<BzlmodGeneratedCellGeneratorModel>>,
    configure: bool,
    names: Seq<Text>,
    name: Text,
)
    ensures
        vendored(modules, generators, configure, names).contains(name) <==> names.contains(name)
            && to_vendor(modules, generators, configure, name),
    decreases names.len(),
{
    let all = vendored(modules, generators, configure, names);
    if names.len() > 0 {
        let init = names.drop_last();
        lemma_vendored(modules, generators, configure, init, name);
        assert(init.push(names.last()) =~= names);
        lemma_push_contains(init, names.last(), name);
        lemma_push_contains(
            vendored(modules, generators, configure, init),
            names.last(),
            name,
        );
    } else {
        assert(!all.contains(name));
    }
}

proof fn lemma_module_named(
    modules: Seq<BazelCompatExternalModuleModel>,
    name: Text,
    i: int,
)
    requires
        0 <= i <= modules.len(),
    ensures
        match module_named(modules, name, i) {
            Some(k) => i <= k < modules.len() && modules[k].canonical() == name && forall|j: int|
                i <= j < k ==> (#[trigger] modules[j]).canonical() != name,
            None => forall|j: int|
                i <= j < modules.len() ==> (#[trigger] modules[j]).canonical() != name,
        },
    decreases modules.len() - i,
{
    if i < modules.len() && modules[i].canonical() != name {
        lemma_module_named(modules, name, i + 1);
    }
}

/// A module that comes from a registry, and not from a directory, is vendored; one in a
/// directory and one that is not there are not, nor is a repository that is generated by
/// looking at the machine.
pub proof fn law_what_is_vendored(
    modules: Seq<BazelCompatExternalModuleModel>,
    generators: Seq<Option<BzlmodGeneratedCellGeneratorModel>>,
    generated: Seq<(Text, Seq<Text>)>,
    k: int,
    name: Text,
)
    requires
        generators.len() == modules.len(),
        0 <= k < modules.len(),
        forall|j: int| 0 <= j < k ==> (#[trigger] modules[j]).canonical() != modules[k].canonical(),
    ensures
        ({
            let found = repos_to_vendor(modules, generators, generated, false);
            &&& modules[k] matches BazelCompatExternalModuleModel::Registry(m) ==> (found.contains(
                modules[k].canonical(),
            ) <==> m.local_path is None)
            &&& modules[k] is Generated ==> (found.contains(modules[k].canonical()) <==> !(
            generators[k] is Some && configures(generators[k]->0)))
            &&& (forall|j: int|
                0 <= j < modules.len() ==> (#[trigger] modules[j]).canonical() != name)
                ==> !found.contains(name)
        }),
{
    let names = canonical_names_of(modules) + generated_names(generated);
    let own = modules[k].canonical();
    assert(canonical_names_of(modules)[k] == own);
    assert(names[k] == own);
    let list = vendored(modules, generators, false, names);
    law_sorted_set_of::<String>(list);
    lemma_vendored(modules, generators, false, names, own);
    lemma_vendored(modules, generators, false, names, name);
    lemma_module_named(modules, own, 0);
    lemma_module_named(modules, name, 0);
    assert(sorted_set_of::<String>(list).contains(own) <==> list.contains(own));
    assert(sorted_set_of::<String>(list).contains(name) <==> list.contains(name));
}

/// A variable is reported exactly where its value now is not the one on record, and with
/// the value that it has now.
pub proof fn law_changed_variables(
    known: Seq<(Text, Option<Option<Text>>)>,
    vars: Seq<(Text, Text)>,
    name: Text,
    value: Option<Text>,
)
    ensures
        changed_variables(known, vars).contains((name, value)) <==> value == lookup(vars, name)
            && exists|i: int|
            0 <= i < known.len() && (#[trigger] known[i]).0 == name && known[i].1 != Some(value),
    decreases known.len(),
{
    let all = changed_variables(known, vars);
    if known.len() > 0 {
        let init = known.drop_last();
        law_changed_variables(init, vars, name, value);
        let last = known.last();
        assert(known[known.len() - 1] == last);
        lemma_push_contains(
            changed_variables(init, vars),
            (last.0, lookup(vars, last.0)),
            (name, value),
        );
        if exists|i: int|
            0 <= i < init.len() && (#[trigger] init[i]).0 == name && init[i].1 != Some(value) {
            let i = choose|i: int|
                0 <= i < init.len() && (#[trigger] init[i]).0 == name && init[i].1 != Some(value);
            assert(known[i].0 == name);
        }
        if exists|i: int|
            0 <= i < known.len() && (#[trigger] known[i]).0 == name && known[i].1 != Some(value) {
            let i = choose|i: int|
                0 <= i < known.len() && (#[trigger] known[i]).0 == name && known[i].1 != Some(
                    value,
                );
            if i < init.len() {
                assert(init[i].0 == name);
            }
        }
    } else {
        assert(!all.contains((name, value)));
    }
}

} // verus!
