//! What a module extension is evaluated on, and what an inspection of the graph
//! shows.

use vstd::prelude::*;
use vstd::string::*;
use crate::external::{bzlmod_cell_name, cell_name_of};
use crate::labels::{
    CellAliases, aliases_in, bzlmod_extension_repo_override_targets, bzlmod_resolve_extension,
    extension_id, override_targets, resolved_extension,
};
use crate::module::{
    BzlmodExtensionId, BzlmodExtensionIdModel, BzlmodExtensionUsage, BzlmodExtensionUsageModel,
    BzlmodModuleExtensionEvaluationConfig, BzlmodModuleExtensionEvaluationConfigModel,
    BzlmodModuleExtensionModuleConfig, BzlmodModuleExtensionModuleConfigModel,
    BzlmodModuleExtensionTagConfig, BzlmodModuleExtensionTagConfigModel,
    BzlmodModuleExtensionUsageConfig, BzlmodModuleExtensionUsageConfigModel, DiscoveredBcrModule,
    InputError, RootBzlmodModule, RootBzlmodModuleModel,
};
use crate::ordered::{
    Duplicate, KeyMap, OrderedKey, lookup, put, result_view, sort_and_dedup, sorted_set_of,
};
use crate::select::{bzlmod_selected_canonical_repo_name, selected_name};
use crate::selection::{Discovered, ModuleKey};
use crate::text::{Text, concat3};

verus! {

/// The repository name of a cell.
pub open spec fn cell_repo_name(cells: Seq<(Text, Text)>, cell: Text) -> Result<Text, Text> {
    match lookup(cells, cell) {
        Some(name) => Ok(name),
        None => Err("bzlmod cell `"@ + cell + "` does not have a canonical repository name"@),
    }
}

/// The repository name of a cell.
pub fn bzlmod_canonical_repo_name_for_cell_name(
    cell_name: &str,
    canonical_repo_names_by_cell: &KeyMap<String, String>,
) -> (r: Result<String, InputError>)
    ensures
        result_view(r) == cell_repo_name(canonical_repo_names_by_cell.deep_view(), cell_name@),
{
    match canonical_repo_names_by_cell.get(&cell_name.to_owned()) {
        Some(name) => Ok(name.clone()),
        None => Err(
            InputError {
                message: concat3(
                    "bzlmod cell `",
                    cell_name,
                    "` does not have a canonical repository name",
                ),
            },
        ),
    }
}

/// The aliases of a cell, in order.
pub open spec fn cell_alias_pairs(aliases: CellAliases, cell: Text) -> Seq<(Text, Text)> {
    sorted_set_of::<(String, String)>(aliases_in(aliases, cell))
}

/// The aliases of a cell, in order.
pub fn bzlmod_module_extension_cell_aliases(
    cell_aliases_by_cell: &KeyMap<String, KeyMap<String, String>>,
    cell_name: &str,
) -> (r: Vec<(String, String)>)
    ensures
        r.deep_view() == cell_alias_pairs(cell_aliases_by_cell.deep_view(), cell_name@),
{
    match cell_aliases_by_cell.get(&cell_name.to_owned()) {
        Some(own) => sort_and_dedup(&own.entries),
        None => {
            let none: Vec<(String, String)> = Vec::new();
            assert(none.deep_view() =~= seq![]);
            none
        },
    }
}

/// The graph as the usages of one extension are looked up in it.
pub struct EvalContext {
    pub aliases: CellAliases,
    pub unique: Seq<(BzlmodExtensionIdModel, Text)>,
    pub cells: Seq<(Text, Text)>,
    pub id: BzlmodExtensionIdModel,
}

/// What the usages of one module come to: file and name under which it first uses
/// the extension, its tags, and over all modules the usages and overrides.
#[derive(Debug, PartialEq, Eq)]
pub struct EvalRun {
    pub first_use: Option<(String, String)>,
    pub non_dev: bool,
    pub tags: Vec<BzlmodModuleExtensionTagConfig>,
    pub usages: Vec<BzlmodModuleExtensionUsageConfig>,
    pub overrides: KeyMap<String, String>,
}

/// The model of [`EvalRun`].
pub struct EvalRunModel {
    pub first_use: Option<(Text, Text)>,
    pub non_dev: bool,
    pub tags: Seq<BzlmodModuleExtensionTagConfigModel>,
    pub usages: Seq<BzlmodModuleExtensionUsageConfigModel>,
    pub overrides: Seq<(Text, Text)>,
}

impl DeepView for EvalRun {
    type V = EvalRunModel;

    open spec fn deep_view(&self) -> EvalRunModel {
        EvalRunModel {
            first_use: self.first_use.deep_view(),
            non_dev: self.non_dev,
            tags: self.tags.deep_view(),
            usages: self.usages.deep_view(),
            overrides: self.overrides.deep_view(),
        }
    }
}

/// The tags of a usage as the extension sees them.
pub open spec fn tag_configs(usage: BzlmodExtensionUsageModel) -> Seq<
    BzlmodModuleExtensionTagConfigModel,
> {
    Seq::new(
        usage.tags.len(),
        |i: int|
            BzlmodModuleExtensionTagConfigModel {
                tag_name: usage.tags[i].tag_name,
                dev_dependency: usage.dev_dependency,
                bindings: usage.tags[i].bindings,
                kwargs: usage.tags[i].kwargs,
            },
    )
}

/// The overrides with those from `i` on, by repository names.
pub open spec fn named_overrides(
    targets: Seq<(Text, Text)>,
    i: int,
    cells: Seq<(Text, Text)>,
    done: Seq<(Text, Text)>,
) -> Result<Seq<(Text, Text)>, Text>
    decreases targets.len() - i,
{
    if i < 0 || i >= targets.len() {
        Ok(done)
    } else {
        match cell_repo_name(cells, targets[i].1) {
            Err(message) => Err(message),
            Ok(name) => named_overrides(
                targets,
                i + 1,
                cells,
                put::<String, Text>(done, targets[i].0, name),
            ),
        }
    }
}

/// What one usage adds; a usage of another extension adds nothing.
pub open spec fn eval_usage(
    c: EvalContext,
    cell: Text,
    usage: BzlmodExtensionUsageModel,
    run: EvalRunModel,
) -> Result<EvalRunModel, Text> {
    match resolved_extension(cell, usage, c.aliases, c.unique) {
        Err(message) => Err(message),
        Ok(extension) => if extension.id != c.id {
            Ok(run)
        } else {
            match override_targets(
                usage.repo_overrides,
                cell,
                c.aliases,
                extension.id,
                0,
                seq![],
            ) {
                Err(message) => Err(message),
                Ok(targets) => match named_overrides(targets, 0, c.cells, run.overrides) {
                    Err(message) => Err(message),
                    Ok(overrides) => Ok(
                        EvalRunModel {
                            first_use: match run.first_use {
                                Some(first) => Some(first),
                                None => Some((usage.extension_bzl_file, usage.extension_name)),
                            },
                            non_dev: run.non_dev || !usage.dev_dependency,
                            tags: run.tags + tag_configs(usage),
                            usages: run.usages.push(
                                BzlmodModuleExtensionUsageConfigModel {
                                    imports: usage.imports,
                                    repo_overrides: usage.repo_overrides,
                                },
                            ),
                            overrides,
                        },
                    ),
                },
            }
        },
    }
}

/// What the usages from `i` on of one module add.
pub open spec fn eval_usages(
    c: EvalContext,
    cell: Text,
    usages: Seq<BzlmodExtensionUsageModel>,
    i: int,
    run: EvalRunModel,
) -> Result<EvalRunModel, Text>
    decreases usages.len() - i,
{
    if i < 0 || i >= usages.len() {
        Ok(run)
    } else {
        match eval_usage(c, cell, usages[i], run) {
            Err(message) => Err(message),
            Ok(next) => eval_usages(c, cell, usages, i + 1, next),
        }
    }
}

fn push_named_overrides(
    targets: &KeyMap<String, String>,
    cells: &KeyMap<String, String>,
    overrides: &mut KeyMap<String, String>,
) -> (r: Result<(), InputError>)
    ensures
        match named_overrides(
            targets.deep_view(),
            0,
            cells.deep_view(),
            old(overrides).deep_view(),
        ) {
            Ok(next) => r is Ok && final(overrides).deep_view() == next,
            Err(message) => r matches Err(e) && e.deep_view() == message,
        },
{
    let ghost model = targets.deep_view();
    let ghost first = overrides.deep_view();
    let mut i: usize = 0;
    while i < targets.entries.len()
        invariant
            first == old(overrides).deep_view(),
            model == targets.deep_view(),
            0 <= i <= targets.entries@.len(),
            named_overrides(model, 0, cells.deep_view(), first) == named_overrides(
                model,
                i as int,
                cells.deep_view(),
                overrides.deep_view(),
            ),
        decreases targets.entries.len() - i,
    {
        assert(model[i as int] == targets.entries@[i as int].deep_view());
        match bzlmod_canonical_repo_name_for_cell_name(targets.entries[i].1.as_str(), cells) {
            Ok(name) => {
                overrides.insert(targets.entries[i].0.clone(), name);
            },
            Err(e) => {
                return Err(e);
            },
        }
        i += 1;
    }
    Ok(())
}

fn push_tag_configs(out: &mut Vec<BzlmodModuleExtensionTagConfig>, usage: &BzlmodExtensionUsage)
    ensures
        final(out).deep_view() == old(out).deep_view() + tag_configs(usage.deep_view()),
{
    let ghost first = out.deep_view();
    let ghost added = tag_configs(usage.deep_view());
    let mut i: usize = 0;
    while i < usage.tags.len()
        invariant
            added == tag_configs(usage.deep_view()),
            0 <= i <= usage.tags@.len(),
            out.deep_view() =~= first + added.take(i as int),
        decreases usage.tags.len() - i,
    {
        let ghost before = out.deep_view();
        assert(usage.deep_view().tags[i as int] == usage.tags@[i as int].deep_view());
        let tag = &usage.tags[i];
        out.push(
            BzlmodModuleExtensionTagConfig {
                tag_name: tag.tag_name.clone(),
                dev_dependency: usage.dev_dependency,
                bindings: tag.bindings.duplicate(),
                kwargs: tag.kwargs.duplicate(),
            },
        );
        assert(out.deep_view() =~= before.push(added[i as int]));
        i += 1;
    }
    assert(added.take(i as int) =~= added);
}

fn add_usage(
    usage: &BzlmodExtensionUsage,
    cell: &str,
    aliases: &KeyMap<String, KeyMap<String, String>>,
    unique: &KeyMap<BzlmodExtensionId, String>,
    cells: &KeyMap<String, String>,
    id: &BzlmodExtensionId,
    run: &mut EvalRun,
) -> (r: Result<(), InputError>)
    ensures
        match eval_usage(
            (EvalContext {
                aliases: aliases.deep_view(),
                unique: unique.deep_view(),
                cells: cells.deep_view(),
                id: id.deep_view(),
            }),
            cell@,
            usage.deep_view(),
            old(run).deep_view(),
        ) {
            Ok(next) => r is Ok && final(run).deep_view() == next,
            Err(message) => r matches Err(e) && e.deep_view() == message,
        },
{
    let extension = match bzlmod_resolve_extension(cell, usage, aliases, unique) {
        Ok(extension) => extension,
        Err(e) => {
            return Err(e);
        },
    };
    if !extension.id.same_key(id) {
        return Ok(());
    }
    let targets = match bzlmod_extension_repo_override_targets(usage, cell, aliases, &extension) {
        Ok(targets) => targets,
        Err(e) => {
            return Err(e);
        },
    };
    match push_named_overrides(&targets, cells, &mut run.overrides) {
        Ok(_) => {},
        Err(e) => {
            return Err(e);
        },
    }
    if run.first_use.is_none() {
        run.first_use =
        Some((usage.extension_bzl_file.clone(), usage.extension_name.clone()));
    }
    if !usage.dev_dependency {
        run.non_dev = true;
    }
    push_tag_configs(&mut run.tags, usage);
    let ghost before = run.usages.deep_view();
    let config = BzlmodModuleExtensionUsageConfig {
        imports: usage.imports.duplicate(),
        repo_overrides: usage.repo_overrides.duplicate(),
    };
    let ghost g = config.deep_view();
    run.usages.push(config);
    assert(run.usages.deep_view() =~= before.push(g));
    Ok(())
}

fn add_usages(
    usages: &Vec<BzlmodExtensionUsage>,
    cell: &str,
    aliases: &KeyMap<String, KeyMap<String, String>>,
    unique: &KeyMap<BzlmodExtensionId, String>,
    cells: &KeyMap<String, String>,
    id: &BzlmodExtensionId,
    run: &mut EvalRun,
) -> (r: Result<(), InputError>)
    ensures
        match eval_usages(
            (EvalContext {
                aliases: aliases.deep_view(),
                unique: unique.deep_view(),
                cells: cells.deep_view(),
                id: id.deep_view(),
            }),
            cell@,
            usages.deep_view(),
            0,
            old(run).deep_view(),
        ) {
            Ok(next) => r is Ok && final(run).deep_view() == next,
            Err(message) => r matches Err(e) && e.deep_view() == message,
        },
{
    let ghost c = EvalContext {
        aliases: aliases.deep_view(),
        unique: unique.deep_view(),
        cells: cells.deep_view(),
        id: id.deep_view(),
    };
    let ghost model = usages.deep_view();
    let ghost first = run.deep_view();
    let mut i: usize = 0;
    while i < usages.len()
        invariant
            first == old(run).deep_view(),
            c == (EvalContext {
                aliases: aliases.deep_view(),
                unique: unique.deep_view(),
                cells: cells.deep_view(),
                id: id.deep_view(),
            }),
            model == usages.deep_view(),
            0 <= i <= usages@.len(),
            eval_usages(c, cell@, model, 0, first) == eval_usages(
                c,
                cell@,
                model,
                i as int,
                run.deep_view(),
            ),
        decreases usages.len() - i,
    {
        assert(model[i as int] == usages@[i as int].deep_view());
        match add_usage(&usages[i], cell, aliases, unique, cells, id, run) {
            Ok(_) => {},
            Err(e) => {
                return Err(e);
            },
        }
        i += 1;
    }
    Ok(())
}

/// A module as an extension sees it.
pub open spec fn module_config(
    name: Text,
    version: Text,
    canonical: Text,
    is_root: bool,
    first_use: (Text, Text),
    cell_aliases: Seq<(Text, Text)>,
    constants: Seq<(Text, Text)>,
    tags: Seq<BzlmodModuleExtensionTagConfigModel>,
) -> BzlmodModuleExtensionModuleConfigModel {
    BzlmodModuleExtensionModuleConfigModel {
        name,
        version,
        canonical_repo_name: canonical,
        is_root,
        extension_bzl_file: first_use.0,
        extension_name: first_use.1,
        cell_aliases,
        constants,
        tags,
    }
}

/// A run at the start of a module.
pub open spec fn fresh_run(
    usages: Seq<BzlmodModuleExtensionUsageConfigModel>,
    overrides: Seq<(Text, Text)>,
) -> EvalRunModel {
    EvalRunModel { first_use: None, non_dev: false, tags: seq![], usages, overrides }
}

/// The configuration with the modules from `i` on.
pub open spec fn eval_modules(
    c: EvalContext,
    keys: Seq<ModuleKey>,
    i: int,
    discovered: Discovered,
    names: Seq<(ModuleKey, Text)>,
    config: BzlmodModuleExtensionEvaluationConfigModel,
) -> Result<BzlmodModuleExtensionEvaluationConfigModel, Text>
    decreases keys.len() - i,
{
    if i < 0 || i >= keys.len() {
        Ok(config)
    } else {
        match lookup(discovered, keys[i]) {
            None => eval_modules(c, keys, i + 1, discovered, names, config),
            Some(module) => match selected_name(names, module.dep.name, module.dep.version) {
                Err(message) => Err(message),
                Ok(canonical) => {
                    let cell = cell_name_of(canonical);
                    match eval_usages(
                        c,
                        cell,
                        module.extension_usages,
                        0,
                        fresh_run(config.usages, config.repo_overrides),
                    ) {
                        Err(message) => Err(message),
                        Ok(run) => eval_modules(
                            c,
                            keys,
                            i + 1,
                            discovered,
                            names,
                            BzlmodModuleExtensionEvaluationConfigModel {
                                root_module_has_non_dev_dependency:
                                    config.root_module_has_non_dev_dependency,
                                modules: match run.first_use {
                                    Some(first) => config.modules.push(
                                        module_config(
                                            module.dep.name,
                                            module.dep.version,
                                            canonical,
                                            false,
                                            first,
                                            cell_alias_pairs(c.aliases, cell),
                                            module.constants,
                                            run.tags,
                                        ),
                                    ),
                                    None => config.modules,
                                },
                                usages: run.usages,
                                repo_overrides: run.overrides,
                            },
                        ),
                    }
                },
            },
        }
    }
}

/// What an extension is evaluated on: the modules that use it, the root first,
/// with their tags; all imports and overrides; and the overriding repositories.
pub open spec fn evaluation_config(
    root: RootBzlmodModuleModel,
    discovered: Discovered,
    keys: Seq<ModuleKey>,
    names: Seq<(ModuleKey, Text)>,
    c: EvalContext,
) -> Result<BzlmodModuleExtensionEvaluationConfigModel, Text> {
    match eval_usages(c, "root"@, root.extension_usages, 0, fresh_run(seq![], seq![])) {
        Err(message) => Err(message),
        Ok(run) => eval_modules(
            c,
            keys,
            0,
            discovered,
            names,
            BzlmodModuleExtensionEvaluationConfigModel {
                root_module_has_non_dev_dependency: run.non_dev,
                modules: match run.first_use {
                    Some(first) => seq![
                        module_config(
                            root.name,
                            root.version,
                            root.canonical_repo_name,
                            true,
                            first,
                            cell_alias_pairs(c.aliases, "root"@),
                            root.constants,
                            run.tags,
                        ),
                    ],
                    None => seq![],
                },
                usages: run.usages,
                repo_overrides: run.overrides,
            },
        ),
    }
}

/// What an extension is evaluated on.
pub fn bzlmod_module_extension_evaluation_config(
    root_module: &RootBzlmodModule,
    discovered: &KeyMap<(String, String), DiscoveredBcrModule>,
    selected_keys_in_bfs_order: &Vec<(String, String)>,
    canonical_repo_names_by_key: &KeyMap<(String, String), String>,
    canonical_repo_names_by_cell: &KeyMap<String, String>,
    cell_aliases_by_cell: &KeyMap<String, KeyMap<String, String>>,
    extension_id: &BzlmodExtensionId,
    extension_unique_names: &KeyMap<BzlmodExtensionId, String>,
) -> (r: Result<BzlmodModuleExtensionEvaluationConfig, InputError>)
    ensures
        result_view(r) == evaluation_config(
            root_module.deep_view(),
            discovered.deep_view(),
            selected_keys_in_bfs_order.deep_view(),
            canonical_repo_names_by_key.deep_view(),
            (EvalContext {
                aliases: cell_aliases_by_cell.deep_view(),
                unique: extension_unique_names.deep_view(),
                cells: canonical_repo_names_by_cell.deep_view(),
                id: extension_id.deep_view(),
            }),
        ),
{
    let ghost c = EvalContext {
        aliases: cell_aliases_by_cell.deep_view(),
        unique: extension_unique_names.deep_view(),
        cells: canonical_repo_names_by_cell.deep_view(),
        id: extension_id.deep_view(),
    };
    let keys = selected_keys_in_bfs_order;
    let ghost whole = evaluation_config(
        root_module.deep_view(),
        discovered.deep_view(),
        keys.deep_view(),
        canonical_repo_names_by_key.deep_view(),
        c,
    );
    let mut run = EvalRun {
        first_use: None,
        non_dev: false,
        tags: Vec::new(),
        usages: Vec::new(),
        overrides: KeyMap::new(),
    };
    assert(run.tags.deep_view() =~= seq![]);
    assert(run.usages.deep_view() =~= seq![]);
    assert(run.overrides.deep_view() =~= seq![]);
    match add_usages(
        &root_module.extension_usages,
        "root",
        cell_aliases_by_cell,
        extension_unique_names,
        canonical_repo_names_by_cell,
        extension_id,
        &mut run,
    ) {
        Ok(_) => {},
        Err(e) => {
            return Err(e);
        },
    }
    let root_module_has_non_dev_dependency = run.non_dev;
    let mut modules: Vec<BzlmodModuleExtensionModuleConfig> = Vec::new();
    let ghost after = run.deep_view();
    let EvalRun { first_use, non_dev: _, tags, usages, overrides } = run;
    let mut usages = usages;
    let mut overrides = overrides;
    match first_use {
        Some((extension_bzl_file, extension_name)) => {
            modules.push(
                BzlmodModuleExtensionModuleConfig {
                    name: root_module.name.clone(),
                    version: root_module.version.clone(),
                    canonical_repo_name: root_module.canonical_repo_name.clone(),
                    is_root: true,
                    extension_bzl_file,
                    extension_name,
                    cell_aliases: bzlmod_module_extension_cell_aliases(
                        cell_aliases_by_cell,
                        "root",
                    ),
                    constants: root_module.constants.duplicate(),
                    tags,
                },
            );
        },
        None => {},
    }
    assert(modules.deep_view() =~= (match after.first_use {
        Some(first) => seq![
            module_config(
                root_module.deep_view().name,
                root_module.deep_view().version,
                root_module.deep_view().canonical_repo_name,
                true,
                first,
                cell_alias_pairs(c.aliases, "root"@),
                root_module.deep_view().constants,
                after.tags,
            ),
        ],
        None => seq![],
    }));
    let ghost model = keys.deep_view();
    let mut i: usize = 0;
    while i < keys.len()
        invariant
            c == (EvalContext {
                aliases: cell_aliases_by_cell.deep_view(),
                unique: extension_unique_names.deep_view(),
                cells: canonical_repo_names_by_cell.deep_view(),
                id: extension_id.deep_view(),
            }),
            keys == selected_keys_in_bfs_order,
            model == keys.deep_view(),
            0 <= i <= keys@.len(),
            whole == evaluation_config(
                root_module.deep_view(),
                discovered.deep_view(),
                keys.deep_view(),
                canonical_repo_names_by_key.deep_view(),
                c,
            ),
            whole == eval_modules(
                c,
                model,
                i as int,
                discovered.deep_view(),
                canonical_repo_names_by_key.deep_view(),
                (BzlmodModuleExtensionEvaluationConfigModel {
                    root_module_has_non_dev_dependency,
                    modules: modules.deep_view(),
                    usages: usages.deep_view(),
                    repo_overrides: overrides.deep_view(),
                }),
            ),
        decreases keys.len() - i,
    {
        assert(model[i as int] == keys@[i as int].deep_view());
        match discovered.get(&keys[i]) {
            None => {},
            Some(module) => {
                let canonical = match bzlmod_selected_canonical_repo_name(
                    canonical_repo_names_by_key,
                    module.dep.name.as_str(),
                    module.dep.version.as_str(),
                ) {
                    Ok(canonical) => canonical,
                    Err(e) => {
                        return Err(e);
                    },
                };
                let cell = bzlmod_cell_name(canonical.as_str());
                let mut run = EvalRun {
                    first_use: None,
                    non_dev: false,
                    tags: Vec::new(),
                    usages: usages.duplicate(),
                    overrides: overrides.duplicate(),
                };
                assert(run.tags.deep_view() =~= seq![]);
                match add_usages(
                    &module.extension_usages,
                    cell.as_str(),
                    cell_aliases_by_cell,
                    extension_unique_names,
                    canonical_repo_names_by_cell,
                    extension_id,
                    &mut run,
                ) {
                    Ok(_) => {},
                    Err(e) => {
                        return Err(e);
                    },
                }
                let EvalRun { first_use, non_dev: _, tags, usages: more, overrides: named } = run;
                usages = more;
                overrides = named;
                match first_use {
                    Some((extension_bzl_file, extension_name)) => {
                        let ghost before = modules.deep_view();
                        let config = BzlmodModuleExtensionModuleConfig {
                            name: module.dep.name.clone(),
                            version: module.dep.version.clone(),
                            canonical_repo_name: canonical,
                            is_root: false,
                            extension_bzl_file,
                            extension_name,
                            cell_aliases: bzlmod_module_extension_cell_aliases(
                                cell_aliases_by_cell,
                                cell.as_str(),
                            ),
                            constants: module.constants.duplicate(),
                            tags,
                        };
                        let ghost g = config.deep_view();
                        modules.push(config);
                        assert(modules.deep_view() =~= before.push(g));
                    },
                    None => {},
                }
            },
        }
        i += 1;
    }
    Ok(
        BzlmodModuleExtensionEvaluationConfig {
            root_module_has_non_dev_dependency,
            modules,
            usages,
            repo_overrides: overrides.entries,
        },
    )
}

/// The usage is one of the extension that is evaluated.
pub open spec fn usage_counts(c: EvalContext, cell: Text, usage: BzlmodExtensionUsageModel) -> bool {
    resolved_extension(cell, usage, c.aliases, c.unique) matches Ok(extension) && extension.id
        == c.id
}

/// What an extension sees of a module are the tags of all its usages of the extension, in
/// order, each with whether its usage is only for development; the module counts as one
/// that needs the extension beyond development exactly where one of these usages does. A
/// usage of another extension adds nothing.
pub proof fn law_usages_evaluated(
    c: EvalContext,
    cell: Text,
    usages: Seq<BzlmodExtensionUsageModel>,
    i: int,
    run: EvalRunModel,
)
    requires
        0 <= i <= usages.len(),
    ensures
        eval_usages(c, cell, usages, i, run) matches Ok(out) ==> {
            &&& out.non_dev <==> run.non_dev || exists|j: int|
                i <= j < usages.len() && usage_counts(c, cell, #[trigger] usages[j])
                    && !usages[j].dev_dependency
            &&& out.first_use is Some <==> run.first_use is Some || exists|j: int|
                i <= j < usages.len() && usage_counts(c, cell, #[trigger] usages[j])
            &&& run.tags.len() <= out.tags.len() && forall|t: int|
                0 <= t < run.tags.len() ==> #[trigger] out.tags[t] == run.tags[t]
            &&& forall|j: int, t: int|
                i <= j < usages.len() && usage_counts(c, cell, usages[j]) && 0 <= t
                    < usages[j].tags.len() ==> out.tags.contains(
                    BzlmodModuleExtensionTagConfigModel {
                        tag_name: (#[trigger] usages[j].tags[t]).tag_name,
                        dev_dependency: usages[j].dev_dependency,
                        bindings: usages[j].tags[t].bindings,
                        kwargs: usages[j].tags[t].kwargs,
                    },
                )
            &&& (forall|j: int|
                i <= j < usages.len() ==> !usage_counts(c, cell, #[trigger] usages[j])) ==> out
                == run
        },
    decreases usages.len() - i,
{
    if i < usages.len() {
        if let Ok(next) = eval_usage(c, cell, usages[i], run) {
            law_usages_evaluated(c, cell, usages, i + 1, next);
            if let Ok(out) = eval_usages(c, cell, usages, i, run) {
                assert forall|t: int| 0 <= t < run.tags.len() implies #[trigger] out.tags[t]
                    == run.tags[t] by {
                    assert(out.tags[t] == next.tags[t]);
                }
                assert forall|j: int, t: int|
                    i <= j < usages.len() && usage_counts(c, cell, usages[j]) && 0 <= t
                        < usages[j].tags.len() implies out.tags.contains(
                    BzlmodModuleExtensionTagConfigModel {
                        tag_name: (#[trigger] usages[j].tags[t]).tag_name,
                        dev_dependency: usages[j].dev_dependency,
                        bindings: usages[j].tags[t].bindings,
                        kwargs: usages[j].tags[t].kwargs,
                    },
                ) by {
                    if j == i {
                        let at = run.tags.len() + t;
                        assert(next.tags[at] == tag_configs(usages[i])[t]);
                        assert(out.tags[at] == next.tags[at]);
                    }
                }
            }
        }
    }
}

/// The modules that an extension is evaluated on are the root, where it uses the extension,
/// and then others that do; only the first can be the root.
pub proof fn law_modules_evaluated(
    c: EvalContext,
    keys: Seq<ModuleKey>,
    i: int,
    discovered: Discovered,
    names: Seq<(ModuleKey, Text)>,
    config: BzlmodModuleExtensionEvaluationConfigModel,
)
    requires
        0 <= i <= keys.len(),
    ensures
        eval_modules(c, keys, i, discovered, names, config) matches Ok(out) ==> {
            &&& config.modules.len() <= out.modules.len()
            &&& out.root_module_has_non_dev_dependency == config.root_module_has_non_dev_dependency
            &&& forall|m: int|
                0 <= m < config.modules.len() ==> #[trigger] out.modules[m] == config.modules[m]
            &&& forall|m: int|
                config.modules.len() <= m < out.modules.len() ==> !(
                #[trigger] out.modules[m]).is_root
        },
    decreases keys.len() - i,
{
    if i < keys.len() {
        match lookup(discovered, keys[i]) {
            None => law_modules_evaluated(c, keys, i + 1, discovered, names, config),
            Some(module) => {
                if let Ok(canonical) = selected_name(names, module.dep.name, module.dep.version) {
                    let cell = cell_name_of(canonical);
                    if let Ok(run) = eval_usages(
                        c,
                        cell,
                        module.extension_usages,
                        0,
                        fresh_run(config.usages, config.repo_overrides),
                    ) {
                        let next = BzlmodModuleExtensionEvaluationConfigModel {
                            root_module_has_non_dev_dependency:
                                config.root_module_has_non_dev_dependency,
                            modules: match run.first_use {
                                Some(first) => config.modules.push(
                                    module_config(
                                        module.dep.name,
                                        module.dep.version,
                                        canonical,
                                        false,
                                        first,
                                        cell_alias_pairs(c.aliases, cell),
                                        module.constants,
                                        run.tags,
                                    ),
                                ),
                                None => config.modules,
                            },
                            usages: run.usages,
                            repo_overrides: run.overrides,
                        };
                        law_modules_evaluated(c, keys, i + 1, discovered, names, next);
                        if let Ok(out) = eval_modules(c, keys, i, discovered, names, config) {
                            assert forall|m: int|
                                0 <= m < config.modules.len() implies #[trigger] out.modules[m]
                                == config.modules[m] by {
                                assert(out.modules[m] == next.modules[m]);
                            }
                            assert forall|m: int|
                                config.modules.len() <= m < out.modules.len() implies !(
                            #[trigger] out.modules[m]).is_root by {
                                if m < next.modules.len() {
                                    assert(out.modules[m] == next.modules[m]);
                                }
                            }
                        }
                    }
                }
            },
        }
    }
}

} // verus!
