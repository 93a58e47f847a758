//! The repositories that repository rules and module extensions generate.

use vstd::prelude::*;
use vstd::string::*;
use crate::calls::bzl_string_value;
use crate::external::{
    BZLMOD_BAZEL_COMPAT_VERSION, BzlmodBazelFeaturesGlobalsSetup,
    BzlmodBazelFeaturesGlobalsSetupModel, BzlmodBazelFeaturesVersionSetup,
    BzlmodBazelFeaturesVersionSetupModel, BzlmodGeneratedCellGenerator,
    BzlmodGeneratedCellGeneratorModel, BzlmodHostPlatformSetup, BzlmodHostPlatformSetupModel,
    BzlmodRepositoryRuleInvocationSetup, BzlmodRepositoryRuleInvocationSetupModel,
    BzlmodShellConfigSetup, BzlmodShellConfigSetupModel, bzlmod_cell_name, cell_name_of,
};
use crate::import_laws::law_alias_in_order;
use crate::labels::{
    add_bzlmod_cell_alias, alias_target, aliases_in, aliases_sorted, bzl_label,
    bzlmod_resolve_extension_bzl_label, bzlmod_use_repo_rule_canonical_repo_name,
    law_alias_after_add, rule_repo_name, with_alias,
};
use crate::module::{
    BzlmodExtensionTagModel, BzlmodExtensionUsage, BzlmodExtensionUsageModel, BzlmodUseRepoImport,
    BzlmodUseRepoImportModel, BzlmodUseRepoRuleInvocation, BzlmodUseRepoRuleInvocationModel,
    InputError,
};
use crate::ordered::{Duplicate, KeyMap, put, sort_and_dedup, sorted_set_of};
use crate::resolved::{
    GeneratedRepos, GeneratedReposModel, ResolvedExternalModule, ResolvedExternalModuleModel,
    ResolvedGeneratedModule, ResolvedGeneratedModuleModel,
};
use crate::scan::string_value;
use crate::text::{Text, concat3, same, trim, trim_of};

verus! {

/// A generated repository.
pub open spec fn generated_module(
    canonical: Text,
    generator: BzlmodGeneratedCellGeneratorModel,
) -> ResolvedExternalModuleModel {
    ResolvedExternalModuleModel::Generated(
        ResolvedGeneratedModuleModel {
            cell_name: cell_name_of(canonical),
            aliases: seq![],
            canonical_repo_name: canonical,
            generator,
        },
    )
}

/// The repositories with one more, which shares the aliases of a cell.
pub open spec fn with_repo(
    g: GeneratedReposModel,
    declaring_cell: Text,
    canonical: Text,
    generator: BzlmodGeneratedCellGeneratorModel,
) -> GeneratedReposModel {
    GeneratedReposModel {
        aliases: g.aliases,
        modules: g.modules.push(generated_module(canonical, generator)),
        declaring_cells: g.declaring_cells.push((cell_name_of(canonical), declaring_cell)),
        repo_groups: g.repo_groups,
        override_groups: g.override_groups,
    }
}

/// The repositories with an alias for a cell.
pub open spec fn with_repo_alias(
    g: GeneratedReposModel,
    cell: Text,
    alias: Text,
    target: Text,
) -> GeneratedReposModel {
    GeneratedReposModel {
        aliases: with_alias(g.aliases, cell, alias, target),
        modules: g.modules,
        declaring_cells: g.declaring_cells,
        repo_groups: g.repo_groups,
        override_groups: g.override_groups,
    }
}

/// The repositories with one more that a cell imports under a name.
pub open spec fn with_imported_repo(
    g: GeneratedReposModel,
    importing_cell: Text,
    alias: Text,
    mapping_cell: Text,
    canonical: Text,
    generator: BzlmodGeneratedCellGeneratorModel,
) -> GeneratedReposModel {
    with_repo(
        with_repo_alias(g, importing_cell, alias, cell_name_of(canonical)),
        mapping_cell,
        canonical,
        generator,
    )
}

/// The pairs under a key, with one more.
pub open spec fn with_group_entry(
    groups: Seq<(Text, Seq<(Text, Text)>)>,
    key: Text,
    entry: (Text, Text),
) -> Seq<(Text, Seq<(Text, Text)>)> {
    put::<String, Seq<(Text, Text)>>(groups, key, aliases_in(groups, key).push(entry))
}

pub fn push_group_entry(
    groups: &mut KeyMap<String, Vec<(String, String)>>,
    key: &str,
    entry: (String, String),
)
    ensures
        final(groups).deep_view() == with_group_entry(
            old(groups).deep_view(),
            key@,
            entry.deep_view(),
        ),
{
    let key = key.to_owned();
    let mut group = match groups.get(&key) {
        Some(group) => group.duplicate(),
        None => {
            let none: Vec<(String, String)> = Vec::new();
            assert(none.deep_view() =~= seq![]);
            none
        },
    };
    let ghost before = group.deep_view();
    let ghost e = entry.deep_view();
    group.push(entry);
    assert(group.deep_view() =~= before.push(e));
    groups.insert(key, group);
}

/// Adds a repository that shares the aliases of a cell; returns its cell.
pub fn add_unimported_generated_bzlmod_repo(
    repos: &mut GeneratedRepos,
    declaring_cell_name: &str,
    canonical_repo_name: &str,
    generator: BzlmodGeneratedCellGenerator,
) -> (r: String)
    ensures
        r@ == cell_name_of(canonical_repo_name@),
        final(repos).deep_view() == with_repo(
            old(repos).deep_view(),
            declaring_cell_name@,
            canonical_repo_name@,
            generator.deep_view(),
        ),
{
    let cell_name = bzlmod_cell_name(canonical_repo_name);
    let ghost declaring = repos.declaring_cells.deep_view();
    let ghost modules = repos.modules.deep_view();
    let ghost pair = (cell_name@, declaring_cell_name@);
    repos.declaring_cells.push((cell_name.clone(), declaring_cell_name.to_owned()));
    assert(repos.declaring_cells.deep_view() =~= declaring.push(pair));
    let aliases: Vec<String> = Vec::new();
    assert(aliases.deep_view() =~= seq![]);
    let module = ResolvedExternalModule::Generated(
        ResolvedGeneratedModule {
            cell_name: cell_name.clone(),
            aliases,
            canonical_repo_name: canonical_repo_name.to_owned(),
            generator,
        },
    );
    let ghost m = module.deep_view();
    repos.modules.push(module);
    assert(repos.modules.deep_view() =~= modules.push(m));
    cell_name
}

/// Adds a repository that a cell imports under a name and that shares the
/// aliases of another; returns its cell.
pub fn add_generated_bzlmod_repo_with_mapping_cell(
    repos: &mut GeneratedRepos,
    importing_cell_name: &str,
    alias: &str,
    mapping_cell_name: &str,
    canonical_repo_name: &str,
    generator: BzlmodGeneratedCellGenerator,
) -> (r: String)
    ensures
        r@ == cell_name_of(canonical_repo_name@),
        final(repos).deep_view() == with_imported_repo(
            old(repos).deep_view(),
            importing_cell_name@,
            alias@,
            mapping_cell_name@,
            canonical_repo_name@,
            generator.deep_view(),
        ),
{
    let cell_name = bzlmod_cell_name(canonical_repo_name);
    add_bzlmod_cell_alias(&mut repos.aliases, importing_cell_name, alias, cell_name.as_str());
    add_unimported_generated_bzlmod_repo(repos, mapping_cell_name, canonical_repo_name, generator)
}

/// Adds a repository that a cell imports under a name and whose aliases it
/// shares; returns its cell.
pub fn add_generated_bzlmod_repo(
    repos: &mut GeneratedRepos,
    declaring_cell_name: &str,
    alias: &str,
    canonical_repo_name: &str,
    generator: BzlmodGeneratedCellGenerator,
) -> (r: String)
    ensures
        r@ == cell_name_of(canonical_repo_name@),
        final(repos).deep_view() == with_imported_repo(
            old(repos).deep_view(),
            declaring_cell_name@,
            alias@,
            declaring_cell_name@,
            canonical_repo_name@,
            generator.deep_view(),
        ),
{
    add_generated_bzlmod_repo_with_mapping_cell(
        repos,
        declaring_cell_name,
        alias,
        declaring_cell_name,
        canonical_repo_name,
        generator,
    )
}

/// What generates the repository that a repository rule declares.
pub open spec fn rule_generator(
    invocation: BzlmodUseRepoRuleInvocationModel,
    file: (Text, Text),
    cell: Text,
) -> BzlmodGeneratedCellGeneratorModel {
    BzlmodGeneratedCellGeneratorModel::RepositoryRuleInvocation(
        BzlmodRepositoryRuleInvocationSetupModel {
            repo_name: invocation.repo_name,
            rule_bzl_cell: file.0,
            rule_bzl_path: file.1,
            rule_bzl_build_file_cell: cell,
            rule_name: invocation.rule_name,
            attrs: invocation.attrs,
        },
    )
}

/// The repositories after the repository rules from `i` on.
pub open spec fn rule_repos(
    invocations: Seq<BzlmodUseRepoRuleInvocationModel>,
    i: int,
    parent: Text,
    cell: Text,
    is_root: bool,
    g: GeneratedReposModel,
) -> Result<GeneratedReposModel, Text>
    decreases invocations.len() - i,
{
    if i < 0 || i >= invocations.len() {
        Ok(g)
    } else {
        let invocation = invocations[i];
        match bzl_label(cell, invocation.rule_bzl_file, g.aliases) {
            Err(message) => Err(message),
            Ok(file) => rule_repos(
                invocations,
                i + 1,
                parent,
                cell,
                is_root,
                with_imported_repo(
                    g,
                    cell,
                    invocation.repo_name,
                    cell,
                    rule_repo_name(parent, is_root, invocation.rule_name, invocation.repo_name),
                    rule_generator(invocation, file, cell),
                ),
            ),
        }
    }
}

/// The repositories that the repository rules from `i` on leave: those after the
/// last of them, or before the first that fails.
pub open spec fn rule_repos_left(
    invocations: Seq<BzlmodUseRepoRuleInvocationModel>,
    i: int,
    parent: Text,
    cell: Text,
    is_root: bool,
    g: GeneratedReposModel,
) -> GeneratedReposModel
    decreases invocations.len() - i,
{
    if i < 0 || i >= invocations.len() {
        g
    } else {
        let invocation = invocations[i];
        match bzl_label(cell, invocation.rule_bzl_file, g.aliases) {
            Err(_) => g,
            Ok(file) => rule_repos_left(
                invocations,
                i + 1,
                parent,
                cell,
                is_root,
                with_imported_repo(
                    g,
                    cell,
                    invocation.repo_name,
                    cell,
                    rule_repo_name(parent, is_root, invocation.rule_name, invocation.repo_name),
                    rule_generator(invocation, file, cell),
                ),
            ),
        }
    }
}

/// The modules and the declaring cells of before stand in front of the new ones.
pub open spec fn repos_appended(before: GeneratedReposModel, after: GeneratedReposModel) -> bool {
    &&& before.modules.is_prefix_of(after.modules)
    &&& before.declaring_cells.is_prefix_of(after.declaring_cells)
}

pub proof fn lemma_repo_appended(
    before: GeneratedReposModel,
    g: GeneratedReposModel,
    after: GeneratedReposModel,
    module: ResolvedExternalModuleModel,
    cell: (Text, Text),
)
    requires
        repos_appended(before, g),
        after.modules == g.modules.push(module),
        after.declaring_cells == g.declaring_cells.push(cell),
    ensures
        repos_appended(before, after),
{
    assert(before.modules =~= after.modules.subrange(0, before.modules.len() as int)) by {
        assert(before.modules == g.modules.subrange(0, before.modules.len() as int));
    }
    assert(before.declaring_cells =~= after.declaring_cells.subrange(
        0,
        before.declaring_cells.len() as int,
    )) by {
        assert(before.declaring_cells == g.declaring_cells.subrange(
            0,
            before.declaring_cells.len() as int,
        ));
    }
}

/// Adds the repositories that repository rules of a module declare.
pub fn resolve_bzlmod_use_repo_rule_generated_repos(
    invocations: &Vec<BzlmodUseRepoRuleInvocation>,
    parent_canonical_repo_name: &str,
    parent_cell_name: &str,
    parent_is_root: bool,
    repos: &mut GeneratedRepos,
) -> (r: Result<(), InputError>)
    ensures
        match rule_repos(
            invocations.deep_view(),
            0,
            parent_canonical_repo_name@,
            parent_cell_name@,
            parent_is_root,
            old(repos).deep_view(),
        ) {
            Ok(next) => r is Ok && final(repos).deep_view() == next,
            Err(message) => r matches Err(e) && e.deep_view() == message,
        },
        final(repos).deep_view() == rule_repos_left(
            invocations.deep_view(),
            0,
            parent_canonical_repo_name@,
            parent_cell_name@,
            parent_is_root,
            old(repos).deep_view(),
        ),
        repos_appended(old(repos).deep_view(), final(repos).deep_view()),
{
    let ghost model = invocations.deep_view();
    let ghost first = repos.deep_view();
    let mut i: usize = 0;
    while i < invocations.len()
        invariant
            first == old(repos).deep_view(),
            model == invocations.deep_view(),
            0 <= i <= invocations@.len(),
            rule_repos(
                model,
                0,
                parent_canonical_repo_name@,
                parent_cell_name@,
                parent_is_root,
                first,
            ) == rule_repos(
                model,
                i as int,
                parent_canonical_repo_name@,
                parent_cell_name@,
                parent_is_root,
                repos.deep_view(),
            ),
            rule_repos_left(
                model,
                0,
                parent_canonical_repo_name@,
                parent_cell_name@,
                parent_is_root,
                first,
            ) == rule_repos_left(
                model,
                i as int,
                parent_canonical_repo_name@,
                parent_cell_name@,
                parent_is_root,
                repos.deep_view(),
            ),
            repos_appended(first, repos.deep_view()),
        decreases invocations.len() - i,
    {
        assert(model[i as int] == invocations@[i as int].deep_view());
        let ghost before = repos.deep_view();
        let invocation = &invocations[i];
        let (rule_bzl_cell, rule_bzl_path) = match bzlmod_resolve_extension_bzl_label(
            parent_cell_name,
            invocation.rule_bzl_file.as_str(),
            &repos.aliases,
        ) {
            Ok(file) => file,
            Err(e) => {
                return Err(e);
            },
        };
        let canonical = bzlmod_use_repo_rule_canonical_repo_name(
            parent_canonical_repo_name,
            parent_is_root,
            invocation.rule_name.as_str(),
            invocation.repo_name.as_str(),
        );
        let generator = BzlmodGeneratedCellGenerator::RepositoryRuleInvocation(
            BzlmodRepositoryRuleInvocationSetup {
                repo_name: invocation.repo_name.clone(),
                rule_bzl_cell,
                rule_bzl_path,
                rule_bzl_build_file_cell: parent_cell_name.to_owned(),
                rule_name: invocation.rule_name.clone(),
                attrs: invocation.attrs.duplicate(),
            },
        );
        add_generated_bzlmod_repo(
            repos,
            parent_cell_name,
            invocation.repo_name.as_str(),
            canonical.as_str(),
            generator,
        );
        proof {
            lemma_repo_appended(
                first,
                before,
                repos.deep_view(),
                repos.deep_view().modules.last(),
                repos.deep_view().declaring_cells.last(),
            );
        }
        i += 1;
    }
    Ok(())
}

/// The imports of the usages of extensions of one name.
pub open spec fn imports_from(usages: Seq<BzlmodExtensionUsageModel>, extension: Text) -> Seq<
    BzlmodUseRepoImportModel,
>
    decreases usages.len(),
{
    if usages.len() == 0 {
        seq![]
    } else {
        let before = imports_from(usages.drop_last(), extension);
        if usages.last().extension_name == extension {
            before + usages.last().imports
        } else {
            before
        }
    }
}

/// The imports of the usages of extensions of one name.
pub fn bzlmod_extension_imports_from_usages(
    usages: &Vec<BzlmodExtensionUsage>,
    extension: &str,
) -> (r: Vec<BzlmodUseRepoImport>)
    ensures
        r.deep_view() == imports_from(usages.deep_view(), extension@),
{
    let ghost model = usages.deep_view();
    let mut out: Vec<BzlmodUseRepoImport> = Vec::new();
    let mut i: usize = 0;
    while i < usages.len()
        invariant
            model == usages.deep_view(),
            0 <= i <= usages@.len(),
            out.deep_view() =~= imports_from(model.take(i as int), extension@),
        decreases usages.len() - i,
    {
        proof {
            let t = model.take(i + 1);
            assert(t.drop_last() =~= model.take(i as int));
            assert(t.last() == usages@[i as int].deep_view());
        }
        if same(usages[i].extension_name.as_str(), extension) {
            let ghost before = out.deep_view();
            let mut more = usages[i].imports.duplicate();
            let ghost added = more.deep_view();
            out.append(&mut more);
            assert(out.deep_view() =~= before + added);
        }
        i += 1;
    }
    assert(model.take(i as int) =~= model);
    out
}

/// What generates a repository that `bazel_features` imports.
pub open spec fn features_generator(repo_name: Text, parent: Text) -> Option<
    BzlmodGeneratedCellGeneratorModel,
> {
    if repo_name == "bazel_features_globals"@ {
        Some(
            BzlmodGeneratedCellGeneratorModel::BazelFeaturesGlobals(
                BzlmodBazelFeaturesGlobalsSetupModel {
                    parent_canonical_repo_name: parent,
                    bazel_version: BZLMOD_BAZEL_COMPAT_VERSION@,
                },
            ),
        )
    } else if repo_name == "bazel_features_version"@ {
        Some(
            BzlmodGeneratedCellGeneratorModel::BazelFeaturesVersion(
                BzlmodBazelFeaturesVersionSetupModel {
                    bazel_version: BZLMOD_BAZEL_COMPAT_VERSION@,
                },
            ),
        )
    } else {
        None
    }
}

/// What generates a repository that `platforms` imports.
pub open spec fn platforms_generator(repo_name: Text) -> Option<BzlmodGeneratedCellGeneratorModel> {
    if repo_name == "host_platform"@ {
        Some(BzlmodGeneratedCellGeneratorModel::HostPlatform(BzlmodHostPlatformSetupModel {  }))
    } else {
        None
    }
}

/// The built-in module that an import belongs to.
pub enum BuiltinModule {
    Platforms,
    BazelFeatures,
}

impl BuiltinModule {
    /// The name of its extension.
    pub open spec fn extension(self) -> Text {
        match self {
            BuiltinModule::Platforms => "host_platform"@,
            BuiltinModule::BazelFeatures => "version_extension"@,
        }
    }

    /// What generates one of its repositories.
    pub open spec fn generator(self, repo_name: Text, parent: Text) -> Option<
        BzlmodGeneratedCellGeneratorModel,
    > {
        match self {
            BuiltinModule::Platforms => platforms_generator(repo_name),
            BuiltinModule::BazelFeatures => features_generator(repo_name, parent),
        }
    }

    fn extension_name(&self) -> (r: &'static str)
        ensures
            r@ == self.extension(),
    {
        match self {
            BuiltinModule::Platforms => "host_platform",
            BuiltinModule::BazelFeatures => "version_extension",
        }
    }

    fn generator_of(&self, repo_name: &str, parent: &str) -> (r: Option<
        BzlmodGeneratedCellGenerator,
    >)
        ensures
            r.deep_view() == self.generator(repo_name@, parent@),
    {
        match self {
            BuiltinModule::Platforms => {
                if same(repo_name, "host_platform") {
                    Some(BzlmodGeneratedCellGenerator::HostPlatform(BzlmodHostPlatformSetup {  }))
                } else {
                    None
                }
            },
            BuiltinModule::BazelFeatures => {
                if same(repo_name, "bazel_features_globals") {
                    Some(
                        BzlmodGeneratedCellGenerator::BazelFeaturesGlobals(
                            BzlmodBazelFeaturesGlobalsSetup {
                                parent_canonical_repo_name: parent.to_owned(),
                                bazel_version: BZLMOD_BAZEL_COMPAT_VERSION.to_owned(),
                            },
                        ),
                    )
                } else if same(repo_name, "bazel_features_version") {
                    Some(
                        BzlmodGeneratedCellGenerator::BazelFeaturesVersion(
                            BzlmodBazelFeaturesVersionSetup {
                                bazel_version: BZLMOD_BAZEL_COMPAT_VERSION.to_owned(),
                            },
                        ),
                    )
                } else {
                    None
                }
            },
        }
    }
}

/// The repositories after the imports of a built-in module from `i` on.
pub open spec fn builtin_repos(
    module: BuiltinModule,
    imports: Seq<BzlmodUseRepoImportModel>,
    i: int,
    parent: Text,
    cell: Text,
    g: GeneratedReposModel,
) -> GeneratedReposModel
    decreases imports.len() - i,
{
    if i < 0 || i >= imports.len() {
        g
    } else {
        let import = imports[i];
        let next = match module.generator(import.repo_name, parent) {
            Some(generator) => with_imported_repo(
                g,
                cell,
                import.alias,
                cell,
                parent + "+"@ + module.extension() + "+"@ + import.repo_name,
                generator,
            ),
            None => g,
        };
        builtin_repos(module, imports, i + 1, parent, cell, next)
    }
}

pub fn add_builtin_repos(
    module: BuiltinModule,
    imports: &Vec<BzlmodUseRepoImport>,
    parent: &str,
    cell: &str,
    repos: &mut GeneratedRepos,
)
    ensures
        final(repos).deep_view() == builtin_repos(
            module,
            imports.deep_view(),
            0,
            parent@,
            cell@,
            old(repos).deep_view(),
        ),
{
    let ghost model = imports.deep_view();
    let ghost first = repos.deep_view();
    let mut i: usize = 0;
    while i < imports.len()
        invariant
            model == imports.deep_view(),
            0 <= i <= imports@.len(),
            builtin_repos(module, model, 0, parent@, cell@, first) == builtin_repos(
                module,
                model,
                i as int,
                parent@,
                cell@,
                repos.deep_view(),
            ),
        decreases imports.len() - i,
    {
        assert(model[i as int] == imports@[i as int].deep_view());
        let import = &imports[i];
        match module.generator_of(import.repo_name.as_str(), parent) {
            Some(generator) => {
                let mut canonical = concat3(parent, "+", module.extension_name());
                canonical.append("+");
                canonical.append(import.repo_name.as_str());
                add_generated_bzlmod_repo(
                    repos,
                    cell,
                    import.alias.as_str(),
                    canonical.as_str(),
                    generator,
                );
            },
            None => {},
        }
        i += 1;
    }
}

/// The repositories after the names from `i` on under which `rules_shell` imports
/// repositories.
pub open spec fn shell_repos(
    aliases: Seq<Text>,
    i: int,
    parent: Text,
    cell: Text,
    g: GeneratedReposModel,
) -> GeneratedReposModel
    decreases aliases.len() - i,
{
    if i < 0 || i >= aliases.len() {
        g
    } else {
        let next = if aliases[i] == "local_config_shell"@ {
            with_imported_repo(
                g,
                cell,
                aliases[i],
                cell,
                parent + "+sh_configure+"@ + aliases[i],
                BzlmodGeneratedCellGeneratorModel::ShellConfig(BzlmodShellConfigSetupModel {  }),
            )
        } else {
            g
        };
        shell_repos(aliases, i + 1, parent, cell, next)
    }
}

pub fn add_shell_repos(aliases: &Vec<String>, parent: &str, cell: &str, repos: &mut GeneratedRepos)
    ensures
        final(repos).deep_view() == shell_repos(
            aliases.deep_view(),
            0,
            parent@,
            cell@,
            old(repos).deep_view(),
        ),
{
    let ghost model = aliases.deep_view();
    let ghost first = repos.deep_view();
    let mut i: usize = 0;
    while i < aliases.len()
        invariant
            model == aliases.deep_view(),
            0 <= i <= aliases@.len(),
            shell_repos(model, 0, parent@, cell@, first) == shell_repos(
                model,
                i as int,
                parent@,
                cell@,
                repos.deep_view(),
            ),
        decreases aliases.len() - i,
    {
        assert(model[i as int] == aliases@[i as int]@);
        let alias = aliases[i].as_str();
        if same(alias, "local_config_shell") {
            let canonical = concat3(parent, "+sh_configure+", alias);
            add_generated_bzlmod_repo(
                repos,
                cell,
                alias,
                canonical.as_str(),
                BzlmodGeneratedCellGenerator::ShellConfig(BzlmodShellConfigSetup {  }),
            );
        }
        i += 1;
    }
}

/// The repository names among keyword arguments: string literals for `name` and
/// `repo_name`.
pub open spec fn kwarg_repo_names(kwargs: Seq<(Text, Text)>) -> Seq<Text>
    decreases kwargs.len(),
{
    if kwargs.len() == 0 {
        seq![]
    } else {
        let before = kwarg_repo_names(kwargs.drop_last());
        let (name, value) = kwargs.last();
        match string_value(trim(value)) {
            Some(repo) if name == "name"@ || name == "repo_name"@ => before.push(repo),
            _ => before,
        }
    }
}

/// The repository names that tags give.
pub open spec fn tag_names(tags: Seq<BzlmodExtensionTagModel>) -> Seq<Text>
    decreases tags.len(),
{
    if tags.len() == 0 {
        seq![]
    } else {
        tag_names(tags.drop_last()) + kwarg_repo_names(tags.last().kwargs)
    }
}

/// The repository names that the tags of a usage give, each once, in order.
pub open spec fn tag_repo_names(usage: BzlmodExtensionUsageModel) -> Seq<Text> {
    sorted_set_of::<String>(tag_names(usage.tags))
}

fn push_kwarg_repo_names(out: &mut Vec<String>, kwargs: &Vec<(String, String)>)
    ensures
        final(out).deep_view() == old(out).deep_view() + kwarg_repo_names(kwargs.deep_view()),
{
    let ghost model = kwargs.deep_view();
    let ghost first = out.deep_view();
    let mut i: usize = 0;
    assert(first + seq![] =~= first);
    while i < kwargs.len()
        invariant
            model == kwargs.deep_view(),
            0 <= i <= kwargs@.len(),
            out.deep_view() =~= first + kwarg_repo_names(model.take(i as int)),
        decreases kwargs.len() - i,
    {
        let ghost before = out.deep_view();
        proof {
            let t = model.take(i + 1);
            assert(t.drop_last() =~= model.take(i as int));
            assert(t.last() == kwargs@[i as int].deep_view());
        }
        let name = kwargs[i].0.as_str();
        if same(name, "name") || same(name, "repo_name") {
            match bzl_string_value(trim_of(kwargs[i].1.as_str())) {
                Some(repo) => {
                    let ghost g = repo@;
                    out.push(repo);
                    assert(out.deep_view() =~= before.push(g));
                },
                None => {},
            }
        }
        i += 1;
    }
    assert(model.take(i as int) =~= model);
}

/// The repository names that the tags of a usage give, each once, in order.
pub fn bzlmod_extension_tag_repo_names(usage: &BzlmodExtensionUsage) -> (r: Vec<String>)
    ensures
        r.deep_view() == tag_repo_names(usage.deep_view()),
{
    let ghost model = usage.deep_view().tags;
    let mut out: Vec<String> = Vec::new();
    let mut i: usize = 0;
    while i < usage.tags.len()
        invariant
            model == usage.deep_view().tags,
            0 <= i <= usage.tags@.len(),
            out.deep_view() =~= tag_names(model.take(i as int)),
        decreases usage.tags.len() - i,
    {
        proof {
            let t = model.take(i + 1);
            assert(t.drop_last() =~= model.take(i as int));
            assert(t.last() == usage.tags@[i as int].deep_view());
        }
        push_kwarg_repo_names(&mut out, &usage.tags[i].kwargs);
        i += 1;
    }
    assert(model.take(i as int) =~= model);
    sort_and_dedup(&out)
}

/// The repository is that of a call of a repository rule: named after the module, the rule
/// and the name that it is called with, and made by that rule with its attributes.
pub open spec fn is_rule_repository(
    module: ResolvedExternalModuleModel,
    invocation: BzlmodUseRepoRuleInvocationModel,
    parent: Text,
    is_root: bool,
) -> bool {
    match module {
        ResolvedExternalModuleModel::Generated(repo) => {
            &&& repo.canonical_repo_name == (if is_root {
                "+"@
            } else {
                parent + "+"@
            }) + invocation.rule_name + "+"@ + invocation.repo_name
            &&& repo.cell_name == cell_name_of(repo.canonical_repo_name)
            &&& match repo.generator {
                BzlmodGeneratedCellGeneratorModel::RepositoryRuleInvocation(setup) => {
                    setup.repo_name == invocation.repo_name && setup.rule_name
                        == invocation.rule_name && setup.attrs == invocation.attrs
                },
                _ => false,
            }
        },
        _ => false,
    }
}

/// Each call of a repository rule gives its repository, in order, and the name that it is
/// called with stands in the module's cell for the repository; of several the last counts.
pub proof fn law_rule_repositories(
    invocations: Seq<BzlmodUseRepoRuleInvocationModel>,
    i: int,
    parent: Text,
    cell: Text,
    is_root: bool,
    g: GeneratedReposModel,
    name: Text,
)
    requires
        0 <= i <= invocations.len(),
        aliases_sorted(g.aliases),
    ensures
        rule_repos(invocations, i, parent, cell, is_root, g) matches Ok(out) ==> {
            &&& out.modules.len() == g.modules.len() + invocations.len() - i
            &&& forall|m: int| 0 <= m < g.modules.len() ==> #[trigger] out.modules[m] == g.modules[m]
            &&& forall|k: int|
                i <= k < invocations.len() ==> is_rule_repository(
                    out.modules[g.modules.len() + k - i],
                    #[trigger] invocations[k],
                    parent,
                    is_root,
                )
            &&& (forall|k: int|
                i <= k < invocations.len() ==> (#[trigger] invocations[k]).repo_name != name)
                ==> alias_target(out.aliases, cell, name) == alias_target(g.aliases, cell, name)
            &&& forall|k: int|
                i <= k < invocations.len() && (#[trigger] invocations[k]).repo_name == name && (
                forall|j: int|
                    k < j < invocations.len() ==> (#[trigger] invocations[j]).repo_name != name)
                    ==> alias_target(out.aliases, cell, name) == Some(
                    cell_name_of(
                        rule_repo_name(parent, is_root, invocations[k].rule_name, name),
                    ),
                )
        },
    decreases invocations.len() - i,
{
    if i < invocations.len() {
        let invocation = invocations[i];
        if let Ok(file) = bzl_label(cell, invocation.rule_bzl_file, g.aliases) {
            let canonical = rule_repo_name(
                parent,
                is_root,
                invocation.rule_name,
                invocation.repo_name,
            );
            let next = with_imported_repo(
                g,
                cell,
                invocation.repo_name,
                cell,
                canonical,
                rule_generator(invocation, file, cell),
            );
            law_alias_in_order(g.aliases, cell, invocation.repo_name, cell_name_of(canonical));
            law_alias_after_add(
                g.aliases,
                cell,
                invocation.repo_name,
                cell_name_of(canonical),
                cell,
                name,
            );
            law_rule_repositories(invocations, i + 1, parent, cell, is_root, next, name);
            if let Ok(out) = rule_repos(invocations, i, parent, cell, is_root, g) {
                let n = g.modules.len() as int;
                assert(out.modules[n] == next.modules[n]);
                assert(next.modules[n] == generated_module(
                    canonical,
                    rule_generator(invocation, file, cell),
                ));
                assert(canonical =~= (if is_root {
                    "+"@
                } else {
                    parent + "+"@
                }) + invocation.rule_name + "+"@ + invocation.repo_name);
                assert forall|m: int| 0 <= m < g.modules.len() implies #[trigger] out.modules[m]
                    == g.modules[m] by {
                    assert(out.modules[m] == next.modules[m]);
                }
                assert forall|k: int| i <= k < invocations.len() implies is_rule_repository(
                    out.modules[n + k - i],
                    #[trigger] invocations[k],
                    parent,
                    is_root,
                ) by {
                    if k > i {
                        assert(next.modules.len() + k - (i + 1) == n + k - i);
                    }
                }
            }
        }
    }
}

/// The imports of an extension are those of all usages of extensions of its name.
pub proof fn law_imports_of_extension(
    usages: Seq<BzlmodExtensionUsageModel>,
    extension: Text,
    import: BzlmodUseRepoImportModel,
)
    ensures
        imports_from(usages, extension).contains(import) <==> exists|u: int|
            0 <= u < usages.len() && (#[trigger] usages[u]).extension_name == extension
                && usages[u].imports.contains(import),
    decreases usages.len(),
{
    if usages.len() > 0 {
        let init = usages.drop_last();
        let last = usages.last();
        law_imports_of_extension(init, extension, import);
        assert(usages[usages.len() - 1] == last);
        let a = imports_from(init, extension);
        let b = last.imports;
        assert((a + b).contains(import) <==> a.contains(import) || b.contains(import)) by {
            if a.contains(import) {
                let i = choose|i: int| 0 <= i < a.len() && a[i] == import;
                assert((a + b)[i] == import);
            }
            if b.contains(import) {
                let i = choose|i: int| 0 <= i < b.len() && b[i] == import;
                assert((a + b)[a.len() + i] == import);
            }
        }
        if exists|u: int|
            0 <= u < init.len() && (#[trigger] init[u]).extension_name == extension
                && init[u].imports.contains(import) {
            let u = choose|u: int|
                0 <= u < init.len() && (#[trigger] init[u]).extension_name == extension
                    && init[u].imports.contains(import);
            assert(usages[u].extension_name == extension);
        }
        if exists|u: int|
            0 <= u < usages.len() && (#[trigger] usages[u]).extension_name == extension
                && usages[u].imports.contains(import) {
            let u = choose|u: int|
                0 <= u < usages.len() && (#[trigger] usages[u]).extension_name == extension
                    && usages[u].imports.contains(import);
            if u < init.len() {
                assert(init[u].extension_name == extension);
            }
        }
    } else {
        assert(!imports_from(usages, extension).contains(import));
    }
}

} // verus!
