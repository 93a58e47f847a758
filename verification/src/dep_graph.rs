//! The graph of selected modules: aliases of cells, repository names, and unique
//! names of extensions.

use vstd::prelude::*;
use vstd::string::*;
use crate::external::{bzlmod_cell_name, cell_name_of};
use crate::import_laws::law_alias_in_order;
use crate::labels::{
    CellAliases, add_bzlmod_cell_alias, alias_target, aliases_sorted, bzlmod_resolve_extension_id,
    extension_id, law_alias_after_add, unknown_cell_message, unknown_extension_cell, with_alias,
};
use crate::module::{
    BazelDep, BazelDepModel, BzlmodExtensionId, BzlmodExtensionIdModel, BzlmodExtensionUsage,
    BzlmodExtensionUsageModel, DiscoveredBcrModule, DiscoveredBcrModuleModel, InputError,
    RootBzlmodModule, RootBzlmodModuleModel,
};
use crate::ordered::{
    Duplicate, KeyMap, KeySet, OrderedKey, law_set_put_contains, lookup, put, result_view, set_put,
};
use crate::select::{bzlmod_selected_canonical_repo_name, selected_name};
use crate::selection::{Discovered, ModuleKey};
use crate::text::{Text, concat, concat3, decimal, nat_text, same};

verus! {

/// The names under which the root module knows each module.
pub type AliasesByKey = Seq<(ModuleKey, Seq<Text>)>;

/// The version of each module among the first `i` keys; the last one counts.
pub open spec fn versions_of(keys: Seq<ModuleKey>, i: int) -> Seq<(Text, Text)>
    decreases i,
{
    if i <= 0 {
        seq![]
    } else {
        put::<String, Text>(versions_of(keys, i - 1), keys[i - 1].0, keys[i - 1].1)
    }
}

pub fn versions_by_name(keys: &KeySet<(String, String)>) -> (r: KeyMap<String, String>)
    ensures
        r.deep_view() == versions_of(keys.deep_view(), keys.deep_view().len() as int),
{
    let ghost model = keys.deep_view();
    let mut out: KeyMap<String, String> = KeyMap::new();
    let mut i: usize = 0;
    while i < keys.items.len()
        invariant
            model == keys.deep_view(),
            0 <= i <= keys.items@.len(),
            out.deep_view() =~= versions_of(model, i as int),
        decreases keys.items.len() - i,
    {
        assert(model[i as int] == keys.items@[i as int].deep_view());
        out.insert(keys.items[i].0.clone(), keys.items[i].1.clone());
        i += 1;
    }
    out
}

/// The names by key with one more name for a module.
pub open spec fn with_key_alias(by_key: AliasesByKey, key: ModuleKey, alias: Text) -> AliasesByKey {
    put::<(String, String), Seq<Text>>(
        by_key,
        key,
        set_put::<String>(
            match lookup(by_key, key) {
                Some(names) => names,
                None => seq![],
            },
            alias,
        ),
    )
}

fn add_key_alias(
    by_key: &mut KeyMap<(String, String), KeySet<String>>,
    key: (String, String),
    alias: &str,
)
    ensures
        final(by_key).deep_view() == with_key_alias(
            old(by_key).deep_view(),
            key.deep_view(),
            alias@,
        ),
{
    let mut names = match by_key.get(&key) {
        Some(names) => names.duplicate(),
        None => {
            let none: KeySet<String> = KeySet::new();
            assert(none.deep_view() =~= seq![]);
            none
        },
    };
    names.insert(alias.to_owned());
    by_key.insert(key, names);
}

/// The names by key after a dependency of the root module.
pub open spec fn with_dep_alias(
    dep: BazelDepModel,
    versions: Seq<(Text, Text)>,
    by_key: AliasesByKey,
) -> AliasesByKey {
    match (dep.apparent_name, lookup(versions, dep.name)) {
        (Some(alias), Some(version)) => with_key_alias(by_key, (dep.name, version), alias),
        _ => by_key,
    }
}

/// Notes the name under which the root module knows a dependency.
pub fn add_bzlmod_dep_alias(
    dep: &BazelDep,
    selected_versions: &KeyMap<String, String>,
    aliases_by_key: &mut KeyMap<(String, String), KeySet<String>>,
)
    ensures
        final(aliases_by_key).deep_view() == with_dep_alias(
            dep.deep_view(),
            selected_versions.deep_view(),
            old(aliases_by_key).deep_view(),
        ),
{
    match &dep.apparent_name {
        Some(alias) => match selected_versions.get(&dep.name) {
            Some(version) => {
                add_key_alias(aliases_by_key, (dep.name.clone(), version.clone()), alias.as_str());
            },
            None => {},
        },
        None => {},
    }
}

/// The aliases after a dependency of the module in a cell.
pub open spec fn with_dep_cell_alias(
    cell: Text,
    dep: BazelDepModel,
    versions: Seq<(Text, Text)>,
    names: Seq<(ModuleKey, Text)>,
    aliases: CellAliases,
) -> Result<CellAliases, Text> {
    match (dep.apparent_name, lookup(versions, dep.name)) {
        (Some(alias), Some(version)) => match selected_name(names, dep.name, version) {
            Ok(canonical) => Ok(with_alias(aliases, cell, alias, cell_name_of(canonical))),
            Err(message) => Err(message),
        },
        _ => Ok(aliases),
    }
}

/// Adds the alias of a dependency to a cell.
pub fn add_bzlmod_dep_cell_alias(
    current_cell_name: &str,
    dep: &BazelDep,
    selected_versions: &KeyMap<String, String>,
    canonical_repo_names_by_key: &KeyMap<(String, String), String>,
    aliases_by_cell: &mut KeyMap<String, KeyMap<String, String>>,
) -> (r: Result<(), InputError>)
    ensures
        match with_dep_cell_alias(
            current_cell_name@,
            dep.deep_view(),
            selected_versions.deep_view(),
            canonical_repo_names_by_key.deep_view(),
            old(aliases_by_cell).deep_view(),
        ) {
            Ok(next) => r is Ok && final(aliases_by_cell).deep_view() == next,
            Err(message) => r matches Err(e) && e.deep_view() == message
                && final(aliases_by_cell).deep_view() == old(aliases_by_cell).deep_view(),
        },
{
    match &dep.apparent_name {
        Some(alias) => match selected_versions.get(&dep.name) {
            Some(version) => match bzlmod_selected_canonical_repo_name(
                canonical_repo_names_by_key,
                dep.name.as_str(),
                version.as_str(),
            ) {
                Ok(canonical) => {
                    let cell_name = bzlmod_cell_name(canonical.as_str());
                    add_bzlmod_cell_alias(
                        aliases_by_cell,
                        current_cell_name,
                        alias.as_str(),
                        cell_name.as_str(),
                    );
                },
                Err(e) => {
                    return Err(e);
                },
            },
            None => {},
        },
        None => {},
    }
    Ok(())
}

/// Names by key and aliases by cell.
pub struct GraphAliases {
    pub by_key: AliasesByKey,
    pub by_cell: CellAliases,
}

/// The aliases after the root's dependencies from `i` on.
pub open spec fn root_dep_aliases(
    deps: Seq<BazelDepModel>,
    i: int,
    versions: Seq<(Text, Text)>,
    names: Seq<(ModuleKey, Text)>,
    a: GraphAliases,
) -> Result<GraphAliases, Text>
    decreases deps.len() - i,
{
    if i < 0 || i >= deps.len() {
        Ok(a)
    } else {
        match with_dep_cell_alias("root"@, deps[i], versions, names, a.by_cell) {
            Err(message) => Err(message),
            Ok(by_cell) => root_dep_aliases(
                deps,
                i + 1,
                versions,
                names,
                GraphAliases { by_key: with_dep_alias(deps[i], versions, a.by_key), by_cell },
            ),
        }
    }
}

/// The aliases after the module's own names from `i` on: each stands for its cell
/// there and among the built-in tools.
pub open spec fn own_aliases(names: Seq<Text>, i: int, cell: Text, aliases: CellAliases) -> CellAliases
    decreases names.len() - i,
{
    if i < 0 || i >= names.len() {
        aliases
    } else {
        own_aliases(
            names,
            i + 1,
            cell,
            with_alias(with_alias(aliases, cell, names[i], cell), "bazel_tools"@, names[i], cell),
        )
    }
}

/// The aliases after the module's dependencies from `i` on; a dependency on the
/// root module stands for the root cell.
pub open spec fn module_dep_aliases(
    deps: Seq<BazelDepModel>,
    i: int,
    root_name: Text,
    cell: Text,
    versions: Seq<(Text, Text)>,
    names: Seq<(ModuleKey, Text)>,
    aliases: CellAliases,
) -> Result<CellAliases, Text>
    decreases deps.len() - i,
{
    if i < 0 || i >= deps.len() {
        Ok(aliases)
    } else if deps[i].name == root_name {
        let next = match deps[i].apparent_name {
            Some(alias) => with_alias(aliases, cell, alias, "root"@),
            None => aliases,
        };
        module_dep_aliases(deps, i + 1, root_name, cell, versions, names, next)
    } else {
        match with_dep_cell_alias(cell, deps[i], versions, names, aliases) {
            Err(message) => Err(message),
            Ok(next) => module_dep_aliases(
                deps,
                i + 1,
                root_name,
                cell,
                versions,
                names,
                next,
            ),
        }
    }
}

/// The aliases that the module's dependencies from `i` on leave: those after the
/// last of them, or before the first that fails.
pub open spec fn module_dep_aliases_left(
    deps: Seq<BazelDepModel>,
    i: int,
    root_name: Text,
    cell: Text,
    versions: Seq<(Text, Text)>,
    names: Seq<(ModuleKey, Text)>,
    aliases: CellAliases,
) -> CellAliases
    decreases deps.len() - i,
{
    if i < 0 || i >= deps.len() {
        aliases
    } else if deps[i].name == root_name {
        let next = match deps[i].apparent_name {
            Some(alias) => with_alias(aliases, cell, alias, "root"@),
            None => aliases,
        };
        module_dep_aliases_left(deps, i + 1, root_name, cell, versions, names, next)
    } else {
        match with_dep_cell_alias(cell, deps[i], versions, names, aliases) {
            Err(_) => aliases,
            Ok(next) => module_dep_aliases_left(
                deps,
                i + 1,
                root_name,
                cell,
                versions,
                names,
                next,
            ),
        }
    }
}

/// The aliases after one selected module.
pub open spec fn module_aliases_step(
    key: ModuleKey,
    module: DiscoveredBcrModuleModel,
    root_name: Text,
    versions: Seq<(Text, Text)>,
    names: Seq<(ModuleKey, Text)>,
    a: GraphAliases,
) -> Result<GraphAliases, Text> {
    match selected_name(names, module.dep.name, module.dep.version) {
        Err(message) => Err(message),
        Ok(canonical) => {
            let cell = cell_name_of(canonical);
            let own = with_alias(a.by_cell, cell, canonical, cell);
            let is_platforms = module.dep.name == "platforms"@;
            let by_key = if is_platforms {
                with_key_alias(a.by_key, key, "platforms"@)
            } else {
                a.by_key
            };
            let start = if is_platforms {
                with_alias(own, "root"@, "platforms"@, cell)
            } else {
                own
            };
            match module_dep_aliases(
                module.deps,
                0,
                root_name,
                cell,
                versions,
                names,
                own_aliases(module.module_aliases, 0, cell, start),
            ) {
                Err(message) => Err(message),
                Ok(by_cell) => Ok(GraphAliases { by_key, by_cell }),
            }
        },
    }
}

/// The aliases that a selected module leaves, whether or not all of its
/// dependencies have names.
pub open spec fn module_aliases_left(
    key: ModuleKey,
    module: DiscoveredBcrModuleModel,
    root_name: Text,
    versions: Seq<(Text, Text)>,
    names: Seq<(ModuleKey, Text)>,
    a: GraphAliases,
) -> GraphAliases {
    match selected_name(names, module.dep.name, module.dep.version) {
        Err(_) => a,
        Ok(canonical) => {
            let cell = cell_name_of(canonical);
            let own = with_alias(a.by_cell, cell, canonical, cell);
            let is_platforms = module.dep.name == "platforms"@;
            let start = if is_platforms {
                with_alias(own, "root"@, "platforms"@, cell)
            } else {
                own
            };
            GraphAliases {
                by_key: if is_platforms {
                    with_key_alias(a.by_key, key, "platforms"@)
                } else {
                    a.by_key
                },
                by_cell: module_dep_aliases_left(
                    module.deps,
                    0,
                    root_name,
                    cell,
                    versions,
                    names,
                    own_aliases(module.module_aliases, 0, cell, start),
                ),
            }
        },
    }
}

/// The aliases after the selected modules from `i` on.
pub open spec fn modules_aliases(
    keys: Seq<ModuleKey>,
    i: int,
    discovered: Discovered,
    root_name: Text,
    versions: Seq<(Text, Text)>,
    names: Seq<(ModuleKey, Text)>,
    a: GraphAliases,
) -> Result<GraphAliases, Text>
    decreases keys.len() - i,
{
    if i < 0 || i >= keys.len() {
        Ok(a)
    } else {
        match lookup(discovered, keys[i]) {
            None => modules_aliases(keys, i + 1, discovered, root_name, versions, names, a),
            Some(module) => match module_aliases_step(
                keys[i],
                module,
                root_name,
                versions,
                names,
                a,
            ) {
                Err(message) => Err(message),
                Ok(next) => modules_aliases(
                    keys,
                    i + 1,
                    discovered,
                    root_name,
                    versions,
                    names,
                    next,
                ),
            },
        }
    }
}

fn add_own_aliases(
    names: &Vec<String>,
    cell: &str,
    aliases: &mut KeyMap<String, KeyMap<String, String>>,
)
    ensures
        final(aliases).deep_view() == own_aliases(
            names.deep_view(),
            0,
            cell@,
            old(aliases).deep_view(),
        ),
{
    let ghost model = names.deep_view();
    let ghost first = aliases.deep_view();
    let mut i: usize = 0;
    while i < names.len()
        invariant
            model == names.deep_view(),
            0 <= i <= names@.len(),
            own_aliases(model, 0, cell@, first) == own_aliases(
                model,
                i as int,
                cell@,
                aliases.deep_view(),
            ),
        decreases names.len() - i,
    {
        assert(model[i as int] == names@[i as int]@);
        add_bzlmod_cell_alias(aliases, cell, names[i].as_str(), cell);
        add_bzlmod_cell_alias(aliases, "bazel_tools", names[i].as_str(), cell);
        i += 1;
    }
}

fn add_module_dep_aliases(
    deps: &Vec<BazelDep>,
    root_name: &str,
    cell: &str,
    versions: &KeyMap<String, String>,
    names: &KeyMap<(String, String), String>,
    aliases: &mut KeyMap<String, KeyMap<String, String>>,
) -> (r: Result<(), InputError>)
    ensures
        match module_dep_aliases(
            deps.deep_view(),
            0,
            root_name@,
            cell@,
            versions.deep_view(),
            names.deep_view(),
            old(aliases).deep_view(),
        ) {
            Ok(next) => r is Ok && final(aliases).deep_view() == next,
            Err(message) => r matches Err(e) && e.deep_view() == message,
        },
        final(aliases).deep_view() == module_dep_aliases_left(
            deps.deep_view(),
            0,
            root_name@,
            cell@,
            versions.deep_view(),
            names.deep_view(),
            old(aliases).deep_view(),
        ),
{
    let ghost model = deps.deep_view();
    let ghost first = aliases.deep_view();
    let mut i: usize = 0;
    while i < deps.len()
        invariant
            first == old(aliases).deep_view(),
            model == deps.deep_view(),
            0 <= i <= deps@.len(),
            module_dep_aliases(
                model,
                0,
                root_name@,
                cell@,
                versions.deep_view(),
                names.deep_view(),
                first,
            ) == module_dep_aliases(
                model,
                i as int,
                root_name@,
                cell@,
                versions.deep_view(),
                names.deep_view(),
                aliases.deep_view(),
            ),
            module_dep_aliases_left(
                model,
                0,
                root_name@,
                cell@,
                versions.deep_view(),
                names.deep_view(),
                first,
            ) == module_dep_aliases_left(
                model,
                i as int,
                root_name@,
                cell@,
                versions.deep_view(),
                names.deep_view(),
                aliases.deep_view(),
            ),
        decreases deps.len() - i,
    {
        assert(model[i as int] == deps@[i as int].deep_view());
        if same(deps[i].name.as_str(), root_name) {
            match &deps[i].apparent_name {
                Some(alias) => {
                    add_bzlmod_cell_alias(aliases, cell, alias.as_str(), "root");
                },
                None => {},
            }
        } else {
            match add_bzlmod_dep_cell_alias(cell, &deps[i], versions, names, aliases) {
                Ok(_) => {},
                Err(e) => {
                    return Err(e);
                },
            }
        }
        i += 1;
    }
    Ok(())
}

/// Adds the aliases of one selected module.
pub fn add_module_aliases(
    key: &(String, String),
    module: &DiscoveredBcrModule,
    root_name: &str,
    versions: &KeyMap<String, String>,
    names: &KeyMap<(String, String), String>,
    by_key: &mut KeyMap<(String, String), KeySet<String>>,
    by_cell: &mut KeyMap<String, KeyMap<String, String>>,
) -> (r: Result<(), InputError>)
    ensures
        match module_aliases_step(
            key.deep_view(),
            module.deep_view(),
            root_name@,
            versions.deep_view(),
            names.deep_view(),
            (GraphAliases { by_key: old(by_key).deep_view(), by_cell: old(by_cell).deep_view() }),
        ) {
            Ok(next) => r is Ok && final(by_key).deep_view() == next.by_key
                && final(by_cell).deep_view() == next.by_cell,
            Err(message) => r matches Err(e) && e.deep_view() == message,
        },
        ({
            let left = module_aliases_left(
                key.deep_view(),
                module.deep_view(),
                root_name@,
                versions.deep_view(),
                names.deep_view(),
                GraphAliases {
                    by_key: old(by_key).deep_view(),
                    by_cell: old(by_cell).deep_view(),
                },
            );
            final(by_key).deep_view() == left.by_key && final(by_cell).deep_view() == left.by_cell
        }),
{
    let canonical = match bzlmod_selected_canonical_repo_name(
        names,
        module.dep.name.as_str(),
        module.dep.version.as_str(),
    ) {
        Ok(canonical) => canonical,
        Err(e) => {
            return Err(e);
        },
    };
    let cell = bzlmod_cell_name(canonical.as_str());
    add_bzlmod_cell_alias(by_cell, cell.as_str(), canonical.as_str(), cell.as_str());
    if same(module.dep.name.as_str(), "platforms") {
        add_key_alias(by_key, key.duplicate(), "platforms");
        add_bzlmod_cell_alias(by_cell, "root", "platforms", cell.as_str());
    }
    add_own_aliases(&module.module_aliases, cell.as_str(), by_cell);
    add_module_dep_aliases(&module.deps, root_name, cell.as_str(), versions, names, by_cell)
}

/// The repository name of each cell, after the first `i` selected modules.
pub open spec fn names_by_cell(
    root_name: Text,
    keys: Seq<ModuleKey>,
    names: Seq<(ModuleKey, Text)>,
    i: int,
) -> Seq<(Text, Text)>
    decreases i,
{
    if i <= 0 {
        put::<String, Text>(
            put::<String, Text>(seq![], "bazel_tools"@, "bazel_tools"@),
            "root"@,
            root_name,
        )
    } else {
        let canonical = lookup(names, keys[i - 1])->0;
        put::<String, Text>(
            names_by_cell(root_name, keys, names, i - 1),
            cell_name_of(canonical),
            canonical,
        )
    }
}

/// Each selected module has a repository name.
pub open spec fn all_named(keys: Seq<ModuleKey>, names: Seq<(ModuleKey, Text)>) -> bool {
    forall|i: int| 0 <= i < keys.len() ==> lookup(names, #[trigger] keys[i]) is Some
}

pub fn canonical_names_by_cell(
    root_name: &str,
    keys: &KeySet<(String, String)>,
    names: &KeyMap<(String, String), String>,
) -> (r: KeyMap<String, String>)
    requires
        all_named(keys.deep_view(), names.deep_view()),
    ensures
        r.deep_view() == names_by_cell(
            root_name@,
            keys.deep_view(),
            names.deep_view(),
            keys.deep_view().len() as int,
        ),
{
    let ghost model = keys.deep_view();
    let mut out: KeyMap<String, String> = KeyMap::new();
    assert(out.deep_view() =~= seq![]);
    out.insert("bazel_tools".to_owned(), "bazel_tools".to_owned());
    out.insert("root".to_owned(), root_name.to_owned());
    let mut i: usize = 0;
    while i < keys.items.len()
        invariant
            model == keys.deep_view(),
            all_named(model, names.deep_view()),
            0 <= i <= keys.items@.len(),
            out.deep_view() =~= names_by_cell(root_name@, model, names.deep_view(), i as int),
        decreases keys.items.len() - i,
    {
        assert(model[i as int] == keys.items@[i as int].deep_view());
        match names.get(&keys.items[i]) {
            Some(canonical) => {
                out.insert(bzlmod_cell_name(canonical.as_str()), canonical.clone());
            },
            None => {},
        }
        i += 1;
    }
    out
}

/// A usage of an extension with the cell that it stands in, or the error where
/// that cell has no name.
#[derive(Debug, PartialEq, Eq)]
pub enum UsageStep {
    Usage { cell: String, usage: BzlmodExtensionUsage },
    Unnamed { error: InputError },
}

/// The model of [`UsageStep`].
pub enum UsageStepModel {
    Usage { cell: Text, usage: BzlmodExtensionUsageModel },
    Unnamed { error: Text },
}

impl DeepView for UsageStep {
    type V = UsageStepModel;

    open spec fn deep_view(&self) -> UsageStepModel {
        match self {
            UsageStep::Usage { cell, usage } => UsageStepModel::Usage {
                cell: cell@,
                usage: usage.deep_view(),
            },
            UsageStep::Unnamed { error } => UsageStepModel::Unnamed { error: error.deep_view() },
        }
    }
}

/// The usages in one cell.
pub open spec fn cell_usages(usages: Seq<BzlmodExtensionUsageModel>, cell: Text) -> Seq<
    UsageStepModel,
> {
    Seq::new(usages.len(), |i: int| UsageStepModel::Usage { cell, usage: usages[i] })
}

/// The usages of the first `i` modules.
pub open spec fn module_usages(
    keys: Seq<ModuleKey>,
    discovered: Discovered,
    names: Seq<(ModuleKey, Text)>,
    i: int,
) -> Seq<UsageStepModel>
    decreases i,
{
    if i <= 0 {
        seq![]
    } else {
        let before = module_usages(keys, discovered, names, i - 1);
        match lookup(discovered, keys[i - 1]) {
            None => before,
            Some(module) => match selected_name(names, module.dep.name, module.dep.version) {
                Err(error) => before.push(UsageStepModel::Unnamed { error }),
                Ok(canonical) => before + cell_usages(
                    module.extension_usages,
                    cell_name_of(canonical),
                ),
            },
        }
    }
}

/// The usages of the root module and of the selected modules, in order.
pub open spec fn graph_usages(
    root: RootBzlmodModuleModel,
    keys: Seq<ModuleKey>,
    discovered: Discovered,
    names: Seq<(ModuleKey, Text)>,
) -> Seq<UsageStepModel> {
    cell_usages(root.extension_usages, "root"@) + module_usages(
        keys,
        discovered,
        names,
        keys.len() as int,
    )
}

fn push_cell_usages(out: &mut Vec<UsageStep>, usages: &Vec<BzlmodExtensionUsage>, cell: &str)
    ensures
        final(out).deep_view() == old(out).deep_view() + cell_usages(usages.deep_view(), cell@),
{
    let ghost first = out.deep_view();
    let ghost added = cell_usages(usages.deep_view(), cell@);
    let mut i: usize = 0;
    while i < usages.len()
        invariant
            added == cell_usages(usages.deep_view(), cell@),
            0 <= i <= usages@.len(),
            out.deep_view() =~= first + added.take(i as int),
        decreases usages.len() - i,
    {
        let ghost before = out.deep_view();
        assert(usages.deep_view()[i as int] == usages@[i as int].deep_view());
        out.push(UsageStep::Usage { cell: cell.to_owned(), usage: usages[i].duplicate() });
        assert(out.deep_view() =~= before.push(added[i as int]));
        i += 1;
    }
    assert(added.take(i as int) =~= added);
}

/// The usages of the root module and of the selected modules, in order.
pub fn collect_usages(
    root_module: &RootBzlmodModule,
    keys: &Vec<(String, String)>,
    discovered: &KeyMap<(String, String), DiscoveredBcrModule>,
    names: &KeyMap<(String, String), String>,
) -> (r: Vec<UsageStep>)
    ensures
        r.deep_view() == graph_usages(
            root_module.deep_view(),
            keys.deep_view(),
            discovered.deep_view(),
            names.deep_view(),
        ),
{
    let ghost model = keys.deep_view();
    let mut out: Vec<UsageStep> = Vec::new();
    assert(out.deep_view() =~= seq![]);
    push_cell_usages(&mut out, &root_module.extension_usages, "root");
    let ghost first = out.deep_view();
    assert(first =~= cell_usages(root_module.deep_view().extension_usages, "root"@));
    let mut i: usize = 0;
    assert(first + seq![] =~= first);
    while i < keys.len()
        invariant
            model == keys.deep_view(),
            0 <= i <= keys@.len(),
            out.deep_view() =~= first + module_usages(
                model,
                discovered.deep_view(),
                names.deep_view(),
                i as int,
            ),
        decreases keys.len() - i,
    {
        assert(model[i as int] == keys@[i as int].deep_view());
        let ghost before = out.deep_view();
        match discovered.get(&keys[i]) {
            None => {},
            Some(module) => match bzlmod_selected_canonical_repo_name(
                names,
                module.dep.name.as_str(),
                module.dep.version.as_str(),
            ) {
                Err(error) => {
                    let ghost g = UsageStepModel::Unnamed { error: error.deep_view() };
                    out.push(UsageStep::Unnamed { error });
                    assert(out.deep_view() =~= before.push(g));
                },
                Ok(canonical) => {
                    let cell = bzlmod_cell_name(canonical.as_str());
                    push_cell_usages(&mut out, &module.extension_usages, cell.as_str());
                },
            },
        }
        i += 1;
    }
    out
}

/// The extensions that the usages from `i` on are of.
pub open spec fn usage_ids(
    steps: Seq<UsageStepModel>,
    i: int,
    aliases: CellAliases,
    done: Seq<BzlmodExtensionIdModel>,
) -> Result<Seq<BzlmodExtensionIdModel>, Text>
    decreases steps.len() - i,
{
    if i < 0 || i >= steps.len() {
        Ok(done)
    } else {
        match steps[i] {
            UsageStepModel::Unnamed { error } => Err(error),
            UsageStepModel::Usage { cell, usage } => match extension_id(cell, usage, aliases) {
                Err(message) => Err(message),
                Ok(id) => usage_ids(
                    steps,
                    i + 1,
                    aliases,
                    set_put::<BzlmodExtensionId>(done, id),
                ),
            },
        }
    }
}

/// The `k`th name that an extension may get.
pub open spec fn name_candidate(base: Text, k: int) -> Text {
    if k <= 1 {
        base
    } else {
        base + nat_text(k as nat)
    }
}

/// The first of the names from the `k`th on that is not used.
pub open spec fn free_attempt(base: Text, used: Seq<Text>, k: int) -> int
    decreases used.len() + 2 - k,
{
    if k <= used.len() && used.contains(name_candidate(base, k)) {
        free_attempt(base, used, k + 1)
    } else {
        k
    }
}

/// A unique name for each of the extensions from `i` on: repository and extension
/// name, with a number behind it where that is used already.
pub open spec fn unique_names(
    ids: Seq<BzlmodExtensionIdModel>,
    i: int,
    names: Seq<(Text, Text)>,
    used: Seq<Text>,
    done: Seq<(BzlmodExtensionIdModel, Text)>,
) -> Result<Seq<(BzlmodExtensionIdModel, Text)>, Text>
    decreases ids.len() - i,
{
    if i < 0 || i >= ids.len() {
        Ok(done)
    } else {
        match lookup(names, ids[i].bzl_cell_name) {
            None => Err(unknown_cell_message(ids[i])),
            Some(repo) => {
                let base = repo + "+"@ + ids[i].extension_name;
                let name = name_candidate(base, free_attempt(base, used, 1));
                unique_names(
                    ids,
                    i + 1,
                    names,
                    set_put::<String>(used, name),
                    put::<BzlmodExtensionId, Text>(done, ids[i], name),
                )
            },
        }
    }
}

proof fn lemma_nat_text_len(n: nat)
    ensures
        nat_text(n).len() >= 1,
        n >= 10 ==> nat_text(n).len() == nat_text(n / 10).len() + 1,
    decreases n,
{
    if n >= 10 {
        lemma_nat_text_len(n / 10);
    }
}

proof fn lemma_digit_injective(a: nat, b: nat)
    requires
        a < 10,
        b < 10,
        ('0' as u32 + a) as char == ('0' as u32 + b) as char,
    ensures
        a == b,
{
}

proof fn lemma_nat_text_injective(m: nat, n: nat)
    requires
        nat_text(m) == nat_text(n),
    ensures
        m == n,
    decreases m,
{
    lemma_nat_text_len(m);
    lemma_nat_text_len(n);
    if m < 10 && n < 10 {
        assert(nat_text(m)[0] == ('0' as u32 + m) as char);
        assert(nat_text(n)[0] == ('0' as u32 + n) as char);
        lemma_digit_injective(m, n);
    } else if m >= 10 && n >= 10 {
        let a = nat_text(m / 10);
        let b = nat_text(n / 10);
        assert(nat_text(m).last() == ('0' as u32 + m % 10) as char);
        assert(nat_text(n).last() == ('0' as u32 + n % 10) as char);
        lemma_digit_injective(m % 10, n % 10);
        assert(a =~= nat_text(m).drop_last());
        assert(b =~= nat_text(n).drop_last());
        lemma_nat_text_injective(m / 10, n / 10);
    } else {
        lemma_nat_text_len(m / 10);
        lemma_nat_text_len(n / 10);
    }
}

proof fn lemma_candidates_distinct(base: Text, j: int, k: int)
    requires
        1 <= j < k,
    ensures
        name_candidate(base, j) != name_candidate(base, k),
{
    lemma_nat_text_len(k as nat);
    if name_candidate(base, j) == name_candidate(base, k) {
        if j == 1 {
            assert(name_candidate(base, k).len() > base.len());
        } else {
            let x = name_candidate(base, j);
            let y = name_candidate(base, k);
            assert(x.skip(base.len() as int) =~= nat_text(j as nat));
            assert(y.skip(base.len() as int) =~= nat_text(k as nat));
            lemma_nat_text_injective(j as nat, k as nat);
        }
    }
}

/// Where the first `k` names are all used, at least `k` names are used.
proof fn lemma_used_count(base: Text, used: Seq<Text>, k: int)
    requires
        0 <= k,
        forall|j: int| 1 <= j <= k ==> used.contains(#[trigger] name_candidate(base, j)),
    ensures
        k <= used.len(),
    decreases k,
{
    if k > 0 {
        let last = name_candidate(base, k);
        assert(used.contains(name_candidate(base, k)));
        let p = choose|p: int| 0 <= p < used.len() && used[p] == last;
        let rest = used.remove(p);
        assert forall|j: int| 1 <= j <= k - 1 implies rest.contains(
            #[trigger] name_candidate(base, j),
        ) by {
            lemma_candidates_distinct(base, j, k);
            let q = choose|q: int| 0 <= q < used.len() && used[q] == name_candidate(base, j);
            if q < p {
                assert(rest[q] == used[q]);
            } else {
                assert(rest[q - 1] == used[q]);
            }
        }
        lemma_used_count(base, rest, k - 1);
    }
}

/// The name that an extension gets is not used yet.
pub proof fn law_free_name(base: Text, used: Seq<Text>, k: int)
    requires
        1 <= k,
        forall|j: int| 1 <= j < k ==> used.contains(#[trigger] name_candidate(base, j)),
    ensures
        free_attempt(base, used, k) >= k,
        !used.contains(name_candidate(base, free_attempt(base, used, k))),
    decreases used.len() + 2 - k,
{
    if k <= used.len() && used.contains(name_candidate(base, k)) {
        law_free_name(base, used, k + 1);
    } else if used.contains(name_candidate(base, k)) {
        lemma_used_count(base, used, k);
    }
}

/// The entries' values are pairwise different and all among those used.
pub open spec fn values_distinct(
    items: Seq<(BzlmodExtensionIdModel, Text)>,
    used: Seq<Text>,
) -> bool {
    &&& forall|i: int, j: int|
        #![trigger items[i], items[j]]
        0 <= i < j < items.len() ==> items[i].1 != items[j].1
    &&& forall|i: int| 0 <= i < items.len() ==> used.contains((#[trigger] items[i]).1)
}

proof fn lemma_put_distinct(
    items: Seq<(BzlmodExtensionIdModel, Text)>,
    used: Seq<Text>,
    id: BzlmodExtensionIdModel,
    name: Text,
)
    requires
        values_distinct(items, used),
        !used.contains(name),
    ensures
        values_distinct(
            put::<BzlmodExtensionId, Text>(items, id, name),
            set_put::<String>(used, name),
        ),
    decreases items.len(),
{
    let out = put::<BzlmodExtensionId, Text>(items, id, name);
    let used_after = set_put::<String>(used, name);
    assert forall|q: Text| #[trigger] used_after.contains(q) == (q == name || used.contains(q)) by {
        law_set_put_contains::<String>(used, name, q);
    }
    if items.len() == 0 {
    } else if items[0].0 == id {
        let rest = items.skip(1);
        assert forall|i: int| 0 <= i < out.len() implies used_after.contains((#[trigger] out[i]).1) by {
            if i > 0 {
                assert(out[i] == items[i]);
            }
        }
        assert forall|i: int, j: int|
            #![trigger out[i], out[j]]
            0 <= i < j < out.len() implies out[i].1 != out[j].1 by {
            assert(out[j] == items[j]);
            if i > 0 {
                assert(out[i] == items[i]);
            }
        }
    } else if BzlmodExtensionId::key_lt(id, items[0].0) {
        assert forall|i: int| 0 <= i < out.len() implies used_after.contains((#[trigger] out[i]).1) by {
            if i > 0 {
                assert(out[i] == items[i - 1]);
            }
        }
        assert forall|i: int, j: int|
            #![trigger out[i], out[j]]
            0 <= i < j < out.len() implies out[i].1 != out[j].1 by {
            assert(out[j] == items[j - 1]);
            if i > 0 {
                assert(out[i] == items[i - 1]);
            }
        }
    } else {
        let rest = items.skip(1);
        assert forall|i: int| 0 <= i < rest.len() implies used.contains((#[trigger] rest[i]).1) by {
            assert(rest[i] == items[i + 1]);
        }
        assert forall|i: int, j: int|
            #![trigger rest[i], rest[j]]
            0 <= i < j < rest.len() implies rest[i].1 != rest[j].1 by {
            assert(rest[i] == items[i + 1] && rest[j] == items[j + 1]);
        }
        let tail = put::<BzlmodExtensionId, Text>(rest, id, name);
        lemma_put_distinct(rest, used, id, name);
        lemma_put_values(rest, id, name);
        assert forall|i: int| 0 <= i < out.len() implies used_after.contains((#[trigger] out[i]).1) by {
            if i > 0 {
                assert(out[i] == tail[i - 1]);
            }
        }
        assert forall|i: int, j: int|
            #![trigger out[i], out[j]]
            0 <= i < j < out.len() implies out[i].1 != out[j].1 by {
            assert(out[j] == tail[j - 1]);
            if i > 0 {
                assert(out[i] == tail[i - 1]);
            } else {
                assert(out[0] == items[0]);
                if tail[j - 1].1 != name {
                    let m = choose|m: int| 0 <= m < rest.len() && rest[m].1 == tail[j - 1].1;
                    assert(items[m + 1] == rest[m]);
                }
            }
        }
    }
}

proof fn lemma_put_values(
    items: Seq<(BzlmodExtensionIdModel, Text)>,
    id: BzlmodExtensionIdModel,
    name: Text,
)
    ensures
        forall|i: int|
            #![trigger put::<BzlmodExtensionId, Text>(items, id, name)[i]]
            0 <= i < put::<BzlmodExtensionId, Text>(items, id, name).len() ==> put::<
                BzlmodExtensionId,
                Text,
            >(items, id, name)[i].1 == name || exists|m: int|
                0 <= m < items.len() && items[m].1 == put::<BzlmodExtensionId, Text>(
                    items,
                    id,
                    name,
                )[i].1,
    decreases items.len(),
{
    let out = put::<BzlmodExtensionId, Text>(items, id, name);
    if items.len() == 0 {
    } else if items[0].0 == id {
        assert forall|i: int| 0 <= i < out.len() implies (#[trigger] out[i]).1 == name || exists|
            m: int,
        |
            0 <= m < items.len() && items[m].1 == out[i].1 by {
            if i > 0 {
                assert(items[i].1 == out[i].1);
            }
        }
    } else if BzlmodExtensionId::key_lt(id, items[0].0) {
        assert forall|i: int| 0 <= i < out.len() implies (#[trigger] out[i]).1 == name || exists|
            m: int,
        |
            0 <= m < items.len() && items[m].1 == out[i].1 by {
            if i > 0 {
                assert(items[i - 1].1 == out[i].1);
            }
        }
    } else {
        let rest = items.skip(1);
        let tail = put::<BzlmodExtensionId, Text>(rest, id, name);
        lemma_put_values(rest, id, name);
        assert forall|i: int| 0 <= i < out.len() implies (#[trigger] out[i]).1 == name || exists|
            m: int,
        |
            0 <= m < items.len() && items[m].1 == out[i].1 by {
            if i == 0 {
                assert(items[0].1 == out[i].1);
            } else {
                assert(out[i] == tail[i - 1]);
                if tail[i - 1].1 != name {
                    let m = choose|m: int| 0 <= m < rest.len() && rest[m].1 == tail[i - 1].1;
                    assert(items[m + 1].1 == out[i].1);
                }
            }
        }
    }
}

/// No two extensions get the same name.
pub proof fn law_unique_names(
    ids: Seq<BzlmodExtensionIdModel>,
    i: int,
    names: Seq<(Text, Text)>,
    used: Seq<Text>,
    done: Seq<(BzlmodExtensionIdModel, Text)>,
)
    requires
        0 <= i,
        values_distinct(done, used),
    ensures
        unique_names(ids, i, names, used, done) matches Ok(found) ==> forall|j: int, k: int|
            #![trigger found[j], found[k]]
            0 <= j < k < found.len() ==> found[j].1 != found[k].1,
    decreases ids.len() - i,
{
    if i < ids.len() {
        match lookup(names, ids[i].bzl_cell_name) {
            None => {},
            Some(repo) => {
                let base = repo + "+"@ + ids[i].extension_name;
                let name = name_candidate(base, free_attempt(base, used, 1));
                law_free_name(base, used, 1);
                lemma_put_distinct(done, used, ids[i], name);
                law_unique_names(
                    ids,
                    i + 1,
                    names,
                    set_put::<String>(used, name),
                    put::<BzlmodExtensionId, Text>(done, ids[i], name),
                );
            },
        }
    }
}

fn collect_ids(
    steps: &Vec<UsageStep>,
    cell_aliases_by_cell: &KeyMap<String, KeyMap<String, String>>,
) -> (r: Result<KeySet<BzlmodExtensionId>, InputError>)
    ensures
        result_view(r) == usage_ids(
            steps.deep_view(),
            0,
            cell_aliases_by_cell.deep_view(),
            seq![],
        ),
{
    let ghost model = steps.deep_view();
    let mut ids: KeySet<BzlmodExtensionId> = KeySet::new();
    let mut i: usize = 0;
    assert(ids.deep_view() =~= seq![]);
    while i < steps.len()
        invariant
            model == steps.deep_view(),
            0 <= i <= steps@.len(),
            usage_ids(model, 0, cell_aliases_by_cell.deep_view(), seq![]) == usage_ids(
                model,
                i as int,
                cell_aliases_by_cell.deep_view(),
                ids.deep_view(),
            ),
        decreases steps.len() - i,
    {
        assert(model[i as int] == steps@[i as int].deep_view());
        match &steps[i] {
            UsageStep::Unnamed { error } => {
                return Err(error.duplicate());
            },
            UsageStep::Usage { cell, usage } => match bzlmod_resolve_extension_id(
                cell.as_str(),
                usage,
                cell_aliases_by_cell,
            ) {
                Ok(id) => {
                    ids.insert(id);
                },
                Err(e) => {
                    return Err(e);
                },
            },
        }
        i += 1;
    }
    Ok(ids)
}

/// The first free name.
fn find_free_name(base: &str, used: &KeySet<String>) -> (r: String)
    ensures
        r@ == name_candidate(base@, free_attempt(base@, used.deep_view(), 1)),
{
    let ghost u = used.deep_view();
    let n: u128 = used.items.len() as u128;
    let mut attempt: u128 = 1;
    let mut name = base.to_owned();
    while attempt <= n && used.contains(&name)
        invariant
            u == used.deep_view(),
            n == used.items@.len(),
            n <= usize::MAX,
            1 <= attempt <= n + 1,
            name@ == name_candidate(base@, attempt as int),
            free_attempt(base@, u, 1) == free_attempt(base@, u, attempt as int),
        decreases n + 1 - attempt,
    {
        attempt += 1;
        name = concat(base, decimal(attempt).as_str());
    }
    name
}

/// A unique name for each extension that the usages are of.
pub open spec fn extension_names(
    root: RootBzlmodModuleModel,
    discovered: Discovered,
    keys: Seq<ModuleKey>,
    names: Seq<(ModuleKey, Text)>,
    aliases: CellAliases,
    cells: Seq<(Text, Text)>,
) -> Result<Seq<(BzlmodExtensionIdModel, Text)>, Text> {
    match usage_ids(graph_usages(root, keys, discovered, names), 0, aliases, seq![]) {
        Err(message) => Err(message),
        Ok(ids) => unique_names(ids, 0, cells, seq![], seq![]),
    }
}

/// A unique name for each extension that the modules use.
pub fn bzlmod_extension_unique_names(
    root_module: &RootBzlmodModule,
    discovered: &KeyMap<(String, String), DiscoveredBcrModule>,
    selected_keys: &KeySet<(String, String)>,
    canonical_repo_names_by_key: &KeyMap<(String, String), String>,
    cell_aliases_by_cell: &KeyMap<String, KeyMap<String, String>>,
    canonical_repo_names_by_cell: &KeyMap<String, String>,
) -> (r: Result<KeyMap<BzlmodExtensionId, String>, InputError>)
    ensures
        result_view(r) == extension_names(
            root_module.deep_view(),
            discovered.deep_view(),
            selected_keys.deep_view(),
            canonical_repo_names_by_key.deep_view(),
            cell_aliases_by_cell.deep_view(),
            canonical_repo_names_by_cell.deep_view(),
        ),
{
    let steps = collect_usages(
        root_module,
        &selected_keys.items,
        discovered,
        canonical_repo_names_by_key,
    );
    let ids = match collect_ids(&steps, cell_aliases_by_cell) {
        Ok(ids) => ids,
        Err(e) => {
            return Err(e);
        },
    };
    let ghost model = ids.deep_view();
    let ghost cells = canonical_repo_names_by_cell.deep_view();
    let mut used: KeySet<String> = KeySet::new();
    let mut out: KeyMap<BzlmodExtensionId, String> = KeyMap::new();
    let mut i: usize = 0;
    assert(used.deep_view() =~= seq![]);
    assert(out.deep_view() =~= seq![]);
    while i < ids.items.len()
        invariant
            model == ids.deep_view(),
            cells == canonical_repo_names_by_cell.deep_view(),
            extension_names(
                root_module.deep_view(),
                discovered.deep_view(),
                selected_keys.deep_view(),
                canonical_repo_names_by_key.deep_view(),
                cell_aliases_by_cell.deep_view(),
                cells,
            ) == unique_names(model, i as int, cells, used.deep_view(), out.deep_view()),
            0 <= i <= ids.items@.len(),
        decreases ids.items.len() - i,
    {
        assert(model[i as int] == ids.items@[i as int].deep_view());
        let id = &ids.items[i];
        match canonical_repo_names_by_cell.get(&id.bzl_cell_name) {
            None => {
                return Err(unknown_extension_cell(id));
            },
            Some(repo) => {
                let base = concat3(repo.as_str(), "+", id.extension_name.as_str());
                let name = find_free_name(base.as_str(), &used);
                used.insert(name.clone());
                out.insert(id.duplicate(), name);
            },
        }
        i += 1;
    }
    Ok(out)
}

proof fn lemma_dep_alias_step(
    dep: BazelDepModel,
    root_name: Text,
    cell: Text,
    versions: Seq<(Text, Text)>,
    names: Seq<(ModuleKey, Text)>,
    aliases: CellAliases,
    alias: Text,
)
    requires
        aliases_sorted(aliases),
    ensures
        with_dep_cell_alias(cell, dep, versions, names, aliases) matches Ok(next) ==> {
            &&& aliases_sorted(next)
            &&& dep.apparent_name != Some(alias) ==> alias_target(next, cell, alias)
                == alias_target(aliases, cell, alias)
            &&& dep.apparent_name == Some(alias) ==> match lookup(versions, dep.name) {
                Some(version) => lookup(names, (dep.name, version)) is Some && alias_target(
                    next,
                    cell,
                    alias,
                ) == Some(cell_name_of(lookup(names, (dep.name, version))->0)),
                None => next == aliases,
            }
        },
        dep.apparent_name matches Some(own) ==> {
            let next = with_alias(aliases, cell, own, "root"@);
            &&& aliases_sorted(next)
            &&& alias_target(next, cell, alias) == (if own == alias {
                Some("root"@)
            } else {
                alias_target(aliases, cell, alias)
            })
        },
{
    if let Some(own) = dep.apparent_name {
        law_alias_in_order(aliases, cell, own, "root"@);
        law_alias_after_add(aliases, cell, own, "root"@, cell, alias);
        if let Some(version) = lookup(versions, dep.name) {
            if let Some(canonical) = lookup(names, (dep.name, version)) {
                law_alias_in_order(aliases, cell, own, cell_name_of(canonical));
                law_alias_after_add(aliases, cell, own, cell_name_of(canonical), cell, alias);
            }
        }
    }
}

proof fn lemma_dep_alias_kept(
    deps: Seq<BazelDepModel>,
    i: int,
    root_name: Text,
    cell: Text,
    versions: Seq<(Text, Text)>,
    names: Seq<(ModuleKey, Text)>,
    aliases: CellAliases,
    alias: Text,
)
    requires
        0 <= i <= deps.len(),
        aliases_sorted(aliases),
        forall|j: int| i <= j < deps.len() ==> (#[trigger] deps[j]).apparent_name != Some(alias),
    ensures
        module_dep_aliases(deps, i, root_name, cell, versions, names, aliases) matches Ok(out)
            ==> alias_target(out, cell, alias) == alias_target(aliases, cell, alias),
    decreases deps.len() - i,
{
    if i < deps.len() {
        lemma_dep_alias_step(deps[i], root_name, cell, versions, names, aliases, alias);
        if deps[i].name == root_name {
            let next = match deps[i].apparent_name {
                Some(own) => with_alias(aliases, cell, own, "root"@),
                None => aliases,
            };
            lemma_dep_alias_kept(deps, i + 1, root_name, cell, versions, names, next, alias);
        } else if let Ok(next) = with_dep_cell_alias(cell, deps[i], versions, names, aliases) {
            lemma_dep_alias_kept(deps, i + 1, root_name, cell, versions, names, next, alias);
        }
    }
}

/// The name that a module gives a dependency stands in its cell for the repository of the
/// selected version of that dependency, and for the root where that is the dependency; of
/// dependencies under one name the last counts.
pub proof fn law_dependency_alias(
    deps: Seq<BazelDepModel>,
    i: int,
    k: int,
    root_name: Text,
    cell: Text,
    versions: Seq<(Text, Text)>,
    names: Seq<(ModuleKey, Text)>,
    aliases: CellAliases,
    alias: Text,
)
    requires
        0 <= i <= k < deps.len(),
        aliases_sorted(aliases),
        deps[k].apparent_name == Some(alias),
        forall|j: int| k < j < deps.len() ==> (#[trigger] deps[j]).apparent_name != Some(alias),
        deps[k].name == root_name || lookup(versions, deps[k].name) is Some,
    ensures
        module_dep_aliases(deps, i, root_name, cell, versions, names, aliases) matches Ok(out)
            ==> alias_target(out, cell, alias) == Some(
            if deps[k].name == root_name {
                "root"@
            } else {
                cell_name_of(
                    lookup(names, (deps[k].name, lookup(versions, deps[k].name)->0))->0,
                )
            },
        ),
    decreases deps.len() - i,
{
    lemma_dep_alias_step(deps[i], root_name, cell, versions, names, aliases, alias);
    if deps[i].name == root_name {
        let next = match deps[i].apparent_name {
            Some(own) => with_alias(aliases, cell, own, "root"@),
            None => aliases,
        };
        if i < k {
            law_dependency_alias(deps, i + 1, k, root_name, cell, versions, names, next, alias);
        } else {
            lemma_dep_alias_kept(deps, i + 1, root_name, cell, versions, names, next, alias);
        }
    } else if let Ok(next) = with_dep_cell_alias(cell, deps[i], versions, names, aliases) {
        if i < k {
            law_dependency_alias(deps, i + 1, k, root_name, cell, versions, names, next, alias);
        } else {
            lemma_dep_alias_kept(deps, i + 1, root_name, cell, versions, names, next, alias);
        }
    }
}

proof fn lemma_root_alias_kept(
    deps: Seq<BazelDepModel>,
    i: int,
    versions: Seq<(Text, Text)>,
    names: Seq<(ModuleKey, Text)>,
    a: GraphAliases,
    alias: Text,
)
    requires
        0 <= i <= deps.len(),
        aliases_sorted(a.by_cell),
        forall|j: int| i <= j < deps.len() ==> (#[trigger] deps[j]).apparent_name != Some(alias),
    ensures
        root_dep_aliases(deps, i, versions, names, a) matches Ok(out) ==> alias_target(
            out.by_cell,
            "root"@,
            alias,
        ) == alias_target(a.by_cell, "root"@, alias),
    decreases deps.len() - i,
{
    if i < deps.len() {
        lemma_dep_alias_step(deps[i], seq![], "root"@, versions, names, a.by_cell, alias);
        if let Ok(by_cell) = with_dep_cell_alias("root"@, deps[i], versions, names, a.by_cell) {
            let next = GraphAliases {
                by_key: with_dep_alias(deps[i], versions, a.by_key),
                by_cell,
            };
            lemma_root_alias_kept(deps, i + 1, versions, names, next, alias);
        }
    }
}

/// The name that the root gives a dependency stands in the root cell for the repository of
/// the selected version; of dependencies under one name the last counts.
pub proof fn law_root_dependency_alias(
    deps: Seq<BazelDepModel>,
    i: int,
    k: int,
    versions: Seq<(Text, Text)>,
    names: Seq<(ModuleKey, Text)>,
    a: GraphAliases,
    alias: Text,
)
    requires
        0 <= i <= k < deps.len(),
        aliases_sorted(a.by_cell),
        deps[k].apparent_name == Some(alias),
        forall|j: int| k < j < deps.len() ==> (#[trigger] deps[j]).apparent_name != Some(alias),
        lookup(versions, deps[k].name) is Some,
    ensures
        root_dep_aliases(deps, i, versions, names, a) matches Ok(out) ==> alias_target(
            out.by_cell,
            "root"@,
            alias,
        ) == Some(
            cell_name_of(lookup(names, (deps[k].name, lookup(versions, deps[k].name)->0))->0),
        ),
    decreases deps.len() - i,
{
    lemma_dep_alias_step(deps[i], seq![], "root"@, versions, names, a.by_cell, alias);
    if let Ok(by_cell) = with_dep_cell_alias("root"@, deps[i], versions, names, a.by_cell) {
        let next = GraphAliases { by_key: with_dep_alias(deps[i], versions, a.by_key), by_cell };
        if i < k {
            law_root_dependency_alias(deps, i + 1, k, versions, names, next, alias);
        } else {
            lemma_root_alias_kept(deps, i + 1, versions, names, next, alias);
        }
    }
}

} // verus!
