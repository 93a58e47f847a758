//! What an inspection of a module graph shows.

use vstd::prelude::*;
use vstd::string::*;
use crate::extension_repos::{
    import_repo_names, import_repo_names_of, required_overrides, required_overrides_of,
};
use crate::external::{bzlmod_cell_name, cell_name_of};
use crate::generated::{bzlmod_extension_tag_repo_names, tag_repo_names};
use crate::labels::{
    bzlmod_lockfile_extension_key, bzlmod_resolve_extension, lockfile_key, resolved_extension,
};
use crate::module::{
    BazelDep, BzlmodDepGraph, BzlmodDepGraphModel, BzlmodExtensionId, BzlmodExtensionIdModel,
    BzlmodExtensionUsage, BzlmodExtensionUsageModel, BzlmodInspectionModule,
    BzlmodInspectionModuleModel, BzlmodModuleInspectionValue, BzlmodModuleInspectionValueModel,
    DiscoveredBcrModuleModel, InputError,
};
use crate::ordered::{
    Duplicate, KeyMap, KeySet, lookup, put, result_view, set_put, set_put_all, sort_stable,
    stable_sort,
};
use crate::select::{bzlmod_canonical_repo_name, canonical_name};
use crate::selection::ModuleKey;
use crate::text::Text;

verus! {

/// The repository names of each extension.
pub type ExtensionRepoNames = Seq<(BzlmodExtensionIdModel, Seq<Text>)>;

/// The names under a key.
pub open spec fn names_in<K>(items: Seq<(K, Seq<Text>)>, k: K) -> Seq<Text> {
    match lookup(items, k) {
        Some(names) => names,
        None => seq![],
    }
}

/// The repository names after one usage of an extension: those of its imports,
/// its tags, the overrides that must exist, and the lockfile.
pub open spec fn with_usage_names(
    usage: BzlmodExtensionUsageModel,
    cell: Text,
    graph: BzlmodDepGraphModel,
    names: ExtensionRepoNames,
) -> Result<ExtensionRepoNames, Text> {
    match resolved_extension(
        cell,
        usage,
        graph.cell_aliases_by_cell,
        graph.extension_unique_names,
    ) {
        Err(message) => Err(message),
        Ok(extension) => match lockfile_key(extension.id, graph.canonical_repo_names_by_cell) {
            Err(message) => Err(message),
            Ok(key) => {
                let a = set_put_all::<String>(
                    names_in(names, extension.id),
                    import_repo_names(usage.imports),
                    0,
                );
                let b = set_put_all::<String>(a, tag_repo_names(usage), 0);
                let c = set_put_all::<String>(b, required_overrides(usage.repo_overrides), 0);
                let d = match lookup(graph.root_module.lockfile_extension_generated_repos, key) {
                    Some(locked) => set_put_all::<String>(c, locked, 0),
                    None => c,
                };
                Ok(put::<BzlmodExtensionId, Seq<Text>>(names, extension.id, d))
            },
        },
    }
}

/// Adds the repository names of one usage of an extension.
pub fn bzlmod_add_inspection_extension_repo_names(
    usage: &BzlmodExtensionUsage,
    parent_cell_name: &str,
    dep_graph: &BzlmodDepGraph,
    extension_to_repo_internal_names: &mut KeyMap<BzlmodExtensionId, KeySet<String>>,
) -> (r: Result<(), InputError>)
    ensures
        match with_usage_names(
            usage.deep_view(),
            parent_cell_name@,
            dep_graph.deep_view(),
            old(extension_to_repo_internal_names).deep_view(),
        ) {
            Ok(next) => r is Ok && final(extension_to_repo_internal_names).deep_view() == next,
            Err(message) => r matches Err(e) && e.deep_view() == message
                && final(extension_to_repo_internal_names).deep_view()
                == old(extension_to_repo_internal_names).deep_view(),
        },
{
    let extension = match bzlmod_resolve_extension(
        parent_cell_name,
        usage,
        &dep_graph.cell_aliases_by_cell,
        &dep_graph.extension_unique_names,
    ) {
        Ok(extension) => extension,
        Err(e) => {
            return Err(e);
        },
    };
    let mut names = match extension_to_repo_internal_names.get(&extension.id) {
        Some(names) => names.duplicate(),
        None => {
            let none: KeySet<String> = KeySet::new();
            assert(none.deep_view() =~= seq![]);
            none
        },
    };
    names.insert_all(&import_repo_names_of(&usage.imports));
    names.insert_all(&bzlmod_extension_tag_repo_names(usage));
    names.insert_all(&required_overrides_of(&usage.repo_overrides));
    let key = match bzlmod_lockfile_extension_key(
        &extension.id,
        &dep_graph.canonical_repo_names_by_cell,
    ) {
        Ok(key) => key,
        Err(e) => {
            return Err(e);
        },
    };
    match dep_graph.root_module.lockfile_extension_generated_repos.get(&key) {
        Some(locked) => {
            names.insert_all(&locked.items);
        },
        None => {},
    }
    extension_to_repo_internal_names.insert(extension.id, names);
    Ok(())
}

/// The repository names after the usages from `i` on in one cell.
pub open spec fn with_usages_names(
    usages: Seq<BzlmodExtensionUsageModel>,
    i: int,
    cell: Text,
    graph: BzlmodDepGraphModel,
    names: ExtensionRepoNames,
) -> Result<ExtensionRepoNames, Text>
    decreases usages.len() - i,
{
    if i < 0 || i >= usages.len() {
        Ok(names)
    } else {
        match with_usage_names(usages[i], cell, graph, names) {
            Err(message) => Err(message),
            Ok(next) => with_usages_names(usages, i + 1, cell, graph, next),
        }
    }
}

fn add_usages_names(
    usages: &Vec<BzlmodExtensionUsage>,
    cell: &str,
    dep_graph: &BzlmodDepGraph,
    names: &mut KeyMap<BzlmodExtensionId, KeySet<String>>,
) -> (r: Result<(), InputError>)
    ensures
        match with_usages_names(
            usages.deep_view(),
            0,
            cell@,
            dep_graph.deep_view(),
            old(names).deep_view(),
        ) {
            Ok(next) => r is Ok && final(names).deep_view() == next,
            Err(message) => r matches Err(e) && e.deep_view() == message,
        },
{
    let ghost model = usages.deep_view();
    let ghost first = names.deep_view();
    let mut i: usize = 0;
    while i < usages.len()
        invariant
            first == old(names).deep_view(),
            model == usages.deep_view(),
            0 <= i <= usages@.len(),
            with_usages_names(model, 0, cell@, dep_graph.deep_view(), first) == with_usages_names(
                model,
                i as int,
                cell@,
                dep_graph.deep_view(),
                names.deep_view(),
            ),
        decreases usages.len() - i,
    {
        assert(model[i as int] == usages@[i as int].deep_view());
        match bzlmod_add_inspection_extension_repo_names(&usages[i], cell, dep_graph, names) {
            Ok(_) => {},
            Err(e) => {
                return Err(e);
            },
        }
        i += 1;
    }
    Ok(())
}

/// The repository name of a discovered module: its own where it is selected, else
/// the one it would have alone.
pub open spec fn shown_name(
    key: ModuleKey,
    module: DiscoveredBcrModuleModel,
    names: Seq<(ModuleKey, Text)>,
) -> Text {
    match lookup(names, key) {
        Some(name) => name,
        None => canonical_name(module.dep.name, module.dep.version, false),
    }
}

/// The key that the modules are shown in the order of.
pub open spec fn shown_key(m: BzlmodInspectionModuleModel) -> (Text, (Text, Text)) {
    (m.name, (m.version, m.canonical_repo_name))
}

/// A discovered module as it is shown.
pub open spec fn shown_module(
    key: ModuleKey,
    module: DiscoveredBcrModuleModel,
    graph: BzlmodDepGraphModel,
) -> BzlmodInspectionModuleModel {
    BzlmodInspectionModuleModel {
        name: module.dep.name,
        version: module.dep.version,
        canonical_repo_name: shown_name(key, module, graph.canonical_repo_names_by_key),
        selected: graph.selected_keys.contains(key),
        deps: module.deps,
    }
}

/// The root module as it is shown.
pub open spec fn shown_root(graph: BzlmodDepGraphModel) -> BzlmodInspectionModuleModel {
    BzlmodInspectionModuleModel {
        name: graph.root_module.name,
        version: graph.root_module.version,
        canonical_repo_name: graph.root_module.canonical_repo_name,
        selected: true,
        deps: seq![],
    }
}

/// The versions of each module, with one more.
pub open spec fn with_version(
    index: Seq<(Text, Seq<Text>)>,
    name: Text,
    version: Text,
) -> Seq<(Text, Seq<Text>)> {
    put::<String, Seq<Text>>(index, name, set_put::<String>(names_in(index, name), version))
}

/// What is shown so far.
pub struct InspectionRun {
    pub modules: Seq<((Text, (Text, Text)), BzlmodInspectionModuleModel)>,
    pub index: Seq<(Text, Seq<Text>)>,
    pub names: ExtensionRepoNames,
}

/// What is shown after the discovered modules from `i` on.
pub open spec fn inspect_modules(
    graph: BzlmodDepGraphModel,
    i: int,
    run: InspectionRun,
) -> Result<InspectionRun, Text>
    decreases graph.discovered.len() - i,
{
    if i < 0 || i >= graph.discovered.len() {
        Ok(run)
    } else {
        let (key, module) = graph.discovered[i];
        let shown = shown_module(key, module, graph);
        match with_usages_names(
            module.extension_usages,
            0,
            cell_name_of(shown.canonical_repo_name),
            graph,
            run.names,
        ) {
            Err(message) => Err(message),
            Ok(names) => inspect_modules(
                graph,
                i + 1,
                InspectionRun {
                    modules: run.modules.push((shown_key(shown), shown)),
                    index: with_version(run.index, module.dep.name, module.dep.version),
                    names,
                },
            ),
        }
    }
}

/// The values of the entries.
pub open spec fn shown_values(
    items: Seq<((Text, (Text, Text)), BzlmodInspectionModuleModel)>,
) -> Seq<BzlmodInspectionModuleModel> {
    Seq::new(items.len(), |i: int| items[i].1)
}

/// What an inspection of a graph shows.
pub open spec fn inspection(graph: BzlmodDepGraphModel) -> Result<
    BzlmodModuleInspectionValueModel,
    Text,
> {
    let root = shown_root(graph);
    match with_usages_names(graph.root_module.extension_usages, 0, "root"@, graph, seq![]) {
        Err(message) => Err(message),
        Ok(names) => match inspect_modules(
            graph,
            0,
            InspectionRun {
                modules: seq![(shown_key(root), root)],
                index: with_version(seq![], root.name, root.version),
                names,
            },
        ) {
            Err(message) => Err(message),
            Ok(run) => Ok(
                BzlmodModuleInspectionValueModel {
                    modules: shown_values(
                        stable_sort::<(String, (String, String)), BzlmodInspectionModuleModel>(
                            run.modules,
                        ),
                    ),
                    modules_index: run.index,
                    extension_to_repo_internal_names: run.names,
                    module_key_to_canonical_repo_name: graph.canonical_repo_names_by_key,
                    errors: seq![],
                },
            ),
        },
    }
}

fn add_version(index: &mut KeyMap<String, KeySet<String>>, name: &String, version: &String)
    ensures
        final(index).deep_view() == with_version(old(index).deep_view(), name@, version@),
{
    let mut own = match index.get(name) {
        Some(own) => own.duplicate(),
        None => {
            let none: KeySet<String> = KeySet::new();
            assert(none.deep_view() =~= seq![]);
            none
        },
    };
    own.insert(version.clone());
    index.insert(name.clone(), own);
}

fn with_shown_key(module: BzlmodInspectionModule) -> (r: (
    (String, (String, String)),
    BzlmodInspectionModule,
))
    ensures
        r.deep_view() == (shown_key(module.deep_view()), module.deep_view()),
{
    let key = (
        module.name.clone(),
        (module.version.clone(), module.canonical_repo_name.clone()),
    );
    (key, module)
}

fn shown_values_of(items: &Vec<((String, (String, String)), BzlmodInspectionModule)>) -> (r: Vec<
    BzlmodInspectionModule,
>)
    ensures
        r.deep_view() == shown_values(items.deep_view()),
{
    let ghost model = shown_values(items.deep_view());
    let mut out: Vec<BzlmodInspectionModule> = Vec::new();
    let mut i: usize = 0;
    while i < items.len()
        invariant
            model == shown_values(items.deep_view()),
            0 <= i <= items@.len(),
            out.deep_view() =~= model.take(i as int),
        decreases items.len() - i,
    {
        let ghost before = out.deep_view();
        assert(items.deep_view()[i as int] == items@[i as int].deep_view());
        out.push(items[i].1.duplicate());
        assert(out.deep_view() =~= before.push(model[i as int]));
        i += 1;
    }
    assert(model.take(i as int) =~= model);
    out
}

/// What an inspection of a graph shows.
pub fn bzlmod_module_inspection_value(dep_graph: &BzlmodDepGraph) -> (r: Result<
    BzlmodModuleInspectionValue,
    InputError,
>)
    ensures
        result_view(r) == inspection(dep_graph.deep_view()),
{
    let ghost graph = dep_graph.deep_view();
    let root = &dep_graph.root_module;
    let mut names: KeyMap<BzlmodExtensionId, KeySet<String>> = KeyMap::new();
    assert(names.deep_view() =~= seq![]);
    match add_usages_names(&root.extension_usages, "root", dep_graph, &mut names) {
        Ok(_) => {},
        Err(e) => {
            return Err(e);
        },
    }
    let no_deps: Vec<BazelDep> = Vec::new();
    assert(no_deps.deep_view() =~= seq![]);
    let shown = BzlmodInspectionModule {
        name: root.name.clone(),
        version: root.version.clone(),
        canonical_repo_name: root.canonical_repo_name.clone(),
        selected: true,
        deps: no_deps,
    };
    let mut modules: Vec<((String, (String, String)), BzlmodInspectionModule)> = Vec::new();
    modules.push(with_shown_key(shown));
    assert(modules.deep_view() =~= seq![(shown_key(shown_root(graph)), shown_root(graph))]);
    let mut index: KeyMap<String, KeySet<String>> = KeyMap::new();
    assert(index.deep_view() =~= seq![]);
    add_version(&mut index, &root.name, &root.version);
    let ghost whole = inspection(graph);
    let mut i: usize = 0;
    while i < dep_graph.discovered.entries.len()
        invariant
            graph == dep_graph.deep_view(),
            whole == inspection(graph),
            0 <= i <= dep_graph.discovered.entries@.len(),
            whole == (match inspect_modules(
                graph,
                i as int,
                (InspectionRun {
                    modules: modules.deep_view(),
                    index: index.deep_view(),
                    names: names.deep_view(),
                }),
            ) {
                Err(message) => Err(message),
                Ok(run) => Ok(
                    BzlmodModuleInspectionValueModel {
                        modules: shown_values(
                            stable_sort::<(String, (String, String)), BzlmodInspectionModuleModel>(
                                run.modules,
                            ),
                        ),
                        modules_index: run.index,
                        extension_to_repo_internal_names: run.names,
                        module_key_to_canonical_repo_name: graph.canonical_repo_names_by_key,
                        errors: seq![],
                    },
                ),
            }),
        decreases dep_graph.discovered.entries.len() - i,
    {
        let key = &dep_graph.discovered.entries[i].0;
        let module = &dep_graph.discovered.entries[i].1;
        assert(graph.discovered[i as int] == (key.deep_view(), module.deep_view()));
        let canonical_repo_name = match dep_graph.canonical_repo_names_by_key.get(key) {
            Some(name) => name.clone(),
            None => bzlmod_canonical_repo_name(
                module.dep.name.as_str(),
                module.dep.version.as_str(),
                false,
            ),
        };
        let cell = bzlmod_cell_name(canonical_repo_name.as_str());
        let ghost before = modules.deep_view();
        let shown = BzlmodInspectionModule {
            name: module.dep.name.clone(),
            version: module.dep.version.clone(),
            canonical_repo_name,
            selected: dep_graph.selected_keys.contains(key),
            deps: module.deps.duplicate(),
        };
        let ghost g = (shown_key(shown.deep_view()), shown.deep_view());
        modules.push(with_shown_key(shown));
        assert(modules.deep_view() =~= before.push(g));
        add_version(&mut index, &module.dep.name, &module.dep.version);
        match add_usages_names(&module.extension_usages, cell.as_str(), dep_graph, &mut names) {
            Ok(_) => {},
            Err(e) => {
                return Err(e);
            },
        }
        i += 1;
    }
    let sorted = sort_stable(modules);
    let errors: Vec<String> = Vec::new();
    assert(errors.deep_view() =~= seq![]);
    Ok(
        BzlmodModuleInspectionValue {
            modules: shown_values_of(&sorted),
            modules_index: index,
            extension_to_repo_internal_names: names,
            module_key_to_canonical_repo_name: dep_graph.canonical_repo_names_by_key.duplicate(),
            errors,
        },
    )
}

/// What is shown has an entry for each discovered module, in order, with its own name and
/// version, marked where it is selected.
pub proof fn law_modules_shown(graph: BzlmodDepGraphModel, i: int, run: InspectionRun)
    requires
        0 <= i <= graph.discovered.len(),
    ensures
        inspect_modules(graph, i, run) matches Ok(out) ==> {
            &&& out.modules.len() == run.modules.len() + graph.discovered.len() - i
            &&& forall|j: int|
                0 <= j < run.modules.len() ==> #[trigger] out.modules[j] == run.modules[j]
            &&& forall|j: int|
                i <= j < graph.discovered.len() ==> {
                    let shown = out.modules[run.modules.len() + j - i].1;
                    &&& shown.name == (#[trigger] graph.discovered[j]).1.dep.name
                    &&& shown.version == graph.discovered[j].1.dep.version
                    &&& shown.deps == graph.discovered[j].1.deps
                    &&& shown.selected <==> graph.selected_keys.contains(graph.discovered[j].0)
                }
        },
    decreases graph.discovered.len() - i,
{
    if i < graph.discovered.len() {
        let (key, module) = graph.discovered[i];
        let shown = shown_module(key, module, graph);
        if let Ok(names) = with_usages_names(
            module.extension_usages,
            0,
            cell_name_of(shown.canonical_repo_name),
            graph,
            run.names,
        ) {
            let next = InspectionRun {
                modules: run.modules.push((shown_key(shown), shown)),
                index: with_version(run.index, module.dep.name, module.dep.version),
                names,
            };
            law_modules_shown(graph, i + 1, next);
            if let Ok(out) = inspect_modules(graph, i, run) {
                let n = run.modules.len() as int;
                assert(out.modules[n] == next.modules[n]);
                assert forall|j: int| 0 <= j < n implies #[trigger] out.modules[j]
                    == run.modules[j] by {
                    assert(out.modules[j] == next.modules[j]);
                }
                assert forall|j: int| i <= j < graph.discovered.len() implies ({
                    let shown = out.modules[n + j - i].1;
                    &&& shown.name == (#[trigger] graph.discovered[j]).1.dep.name
                    &&& shown.version == graph.discovered[j].1.dep.version
                    &&& shown.deps == graph.discovered[j].1.deps
                    &&& shown.selected <==> graph.selected_keys.contains(graph.discovered[j].0)
                }) by {
                    if j > i {
                        assert(next.modules.len() + j - (i + 1) == n + j - i);
                    }
                }
            }
        }
    }
}

} // verus!
