//! The repositories that a usage of a module extension brings about.

use vstd::prelude::*;
use vstd::string::*;
use crate::external::{
    BzlmodGeneratedCellGenerator, BzlmodGeneratedCellGeneratorModel, BzlmodModuleExtensionRepoSetup,
    BzlmodModuleExtensionRepoSetupModel, blake3_hex, cell_name_of,
};
use crate::generated::{
    add_generated_bzlmod_repo_with_mapping_cell, add_unimported_generated_bzlmod_repo,
    bzlmod_extension_tag_repo_names, push_group_entry, repos_appended, tag_repo_names,
    with_group_entry, with_imported_repo, with_repo, with_repo_alias,
};
use crate::graph::put_all;
use crate::import_laws::{law_alias_in_order, law_usage_adds, only_imports_added};
use crate::labels::{
    CellAliases, add_bzlmod_cell_alias, alias_target, aliases_in, aliases_sorted,
    bzlmod_cell_alias_target, bzlmod_extension_repo_canonical_repo_name,
    bzlmod_extension_repo_override_targets, bzlmod_lockfile_extension_key, bzlmod_resolve_extension,
    extension_repo_name, law_alias_after_add, lockfile_key, override_targets, resolved_extension,
};
use crate::module::{
    BzlmodExtensionId, BzlmodExtensionIdModel, BzlmodExtensionUsage, BzlmodExtensionUsageModel,
    BzlmodRepoOverride, BzlmodRepoOverrideModel, BzlmodResolvedExtension,
    BzlmodResolvedExtensionModel, BzlmodUseRepoImport, BzlmodUseRepoImportModel, InputError,
    RootBzlmodModule,
};
use crate::ordered::{
    Duplicate, KeyMap, KeySet, law_set_put_contains, lemma_push_contains, lookup, put, set_put,
    set_put_all, set_remove,
};
use crate::resolved::{GeneratedRepos, GeneratedReposModel};
use crate::text::{Text, concat3, same};

verus! {

/// One usage of an extension and what it resolves to.
pub struct UsageContext {
    pub usage: BzlmodExtensionUsageModel,
    pub parent: Text,
    pub cell: Text,
    pub is_root: bool,
    pub extension: BzlmodResolvedExtensionModel,
    pub targets: Seq<(Text, Text)>,
    pub json: Text,
}

/// The state while the imports of a usage are gone through: the repositories,
/// those of the extension by name, and the names that are still to be generated.
pub struct UsageRun {
    pub repos: GeneratedReposModel,
    pub existing: Seq<(Text, Text)>,
    pub names: Seq<Text>,
}

/// What generates a repository of an extension.
pub open spec fn extension_repo_generator(
    extension: BzlmodResolvedExtensionModel,
    parent: Text,
    is_root: bool,
    usage: BzlmodExtensionUsageModel,
    repo_name: Text,
    json: Text,
) -> BzlmodGeneratedCellGeneratorModel {
    BzlmodGeneratedCellGeneratorModel::ModuleExtensionRepo(
        BzlmodModuleExtensionRepoSetupModel {
            parent_canonical_repo_name: parent,
            parent_is_root: is_root,
            extension_bzl_file: usage.extension_bzl_file,
            extension_bzl_cell: extension.id.bzl_cell_name,
            extension_bzl_path: extension.id.bzl_path,
            extension_unique_name: extension.unique_name,
            extension_name: usage.extension_name,
            repo_name,
            extension_usages_key: blake3_hex(json),
            extension_usages_json: json,
        },
    )
}

/// What generates a repository of an extension.
pub fn bzlmod_module_extension_repo_config(
    resolved_extension: &BzlmodResolvedExtension,
    parent_canonical_repo_name: &str,
    parent_is_root: bool,
    usage: &BzlmodExtensionUsage,
    repo_name: &str,
    extension_usages_json: &str,
) -> (r: BzlmodGeneratedCellGenerator)
    ensures
        r.deep_view() == extension_repo_generator(
            resolved_extension.deep_view(),
            parent_canonical_repo_name@,
            parent_is_root,
            usage.deep_view(),
            repo_name@,
            extension_usages_json@,
        ),
{
    let extension_usages_key = BzlmodModuleExtensionRepoSetup::extension_usages_key_from_json(
        extension_usages_json,
    );
    BzlmodGeneratedCellGenerator::ModuleExtensionRepo(
        BzlmodModuleExtensionRepoSetup {
            parent_canonical_repo_name: parent_canonical_repo_name.to_owned(),
            parent_is_root,
            extension_bzl_file: usage.extension_bzl_file.clone(),
            extension_bzl_cell: resolved_extension.id.bzl_cell_name.clone(),
            extension_bzl_path: resolved_extension.id.bzl_path.clone(),
            extension_unique_name: resolved_extension.unique_name.clone(),
            extension_name: usage.extension_name.clone(),
            repo_name: repo_name.to_owned(),
            extension_usages_key,
            extension_usages_json: extension_usages_json.to_owned(),
        },
    )
}

/// The imports whose names stand for nothing in the cell yet.
pub open spec fn open_imports(
    imports: Seq<BzlmodUseRepoImportModel>,
    cell: Text,
    aliases: CellAliases,
) -> Seq<BzlmodUseRepoImportModel>
    decreases imports.len(),
{
    if imports.len() == 0 {
        seq![]
    } else {
        let before = open_imports(imports.drop_last(), cell, aliases);
        if alias_target(aliases, cell, imports.last().alias) is None {
            before.push(imports.last())
        } else {
            before
        }
    }
}

fn open_imports_of(
    imports: &Vec<BzlmodUseRepoImport>,
    cell: &str,
    aliases: &KeyMap<String, KeyMap<String, String>>,
) -> (r: Vec<BzlmodUseRepoImport>)
    ensures
        r.deep_view() == open_imports(imports.deep_view(), cell@, aliases.deep_view()),
{
    let ghost model = imports.deep_view();
    let mut out: Vec<BzlmodUseRepoImport> = Vec::new();
    let mut i: usize = 0;
    while i < imports.len()
        invariant
            model == imports.deep_view(),
            0 <= i <= imports@.len(),
            out.deep_view() =~= open_imports(model.take(i as int), cell@, aliases.deep_view()),
        decreases imports.len() - i,
    {
        let ghost before = out.deep_view();
        proof {
            let t = model.take(i + 1);
            assert(t.drop_last() =~= model.take(i as int));
            assert(t.last() == imports@[i as int].deep_view());
        }
        if bzlmod_cell_alias_target(aliases, cell, imports[i].alias.as_str()).is_none() {
            out.push(imports[i].duplicate());
            assert(out.deep_view() =~= before.push(model[i as int]));
        }
        i += 1;
    }
    assert(model.take(i as int) =~= model);
    out
}

/// The repositories that imports name.
pub open spec fn import_repo_names(imports: Seq<BzlmodUseRepoImportModel>) -> Seq<Text> {
    Seq::new(imports.len(), |i: int| imports[i].repo_name)
}

/// The repositories that must exist to be overridden.
pub open spec fn required_overrides(overrides: Seq<BzlmodRepoOverrideModel>) -> Seq<Text>
    decreases overrides.len(),
{
    if overrides.len() == 0 {
        seq![]
    } else {
        let before = required_overrides(overrides.drop_last());
        if overrides.last().must_exist {
            before.push(overrides.last().repo_name)
        } else {
            before
        }
    }
}

/// The repository names of an extension that a usage of it implies: those of the
/// imports, of the tags, of the overrides, and of the lockfile.
pub open spec fn implied_names(
    imports: Seq<BzlmodUseRepoImportModel>,
    usage: BzlmodExtensionUsageModel,
    locked: Option<Seq<Text>>,
) -> Seq<Text> {
    let a = set_put_all::<String>(seq![], import_repo_names(imports), 0);
    let b = set_put_all::<String>(a, tag_repo_names(usage), 0);
    let c = set_put_all::<String>(b, required_overrides(usage.repo_overrides), 0);
    match locked {
        Some(names) => set_put_all::<String>(c, names, 0),
        None => c,
    }
}

/// The repositories that imports name.
pub fn import_repo_names_of(imports: &Vec<BzlmodUseRepoImport>) -> (r: Vec<String>)
    ensures
        r.deep_view() == import_repo_names(imports.deep_view()),
{
    let ghost model = import_repo_names(imports.deep_view());
    let mut out: Vec<String> = Vec::new();
    let mut i: usize = 0;
    while i < imports.len()
        invariant
            model == import_repo_names(imports.deep_view()),
            0 <= i <= imports@.len(),
            out.deep_view() =~= model.take(i as int),
        decreases imports.len() - i,
    {
        let ghost before = out.deep_view();
        assert(imports.deep_view()[i as int] == imports@[i as int].deep_view());
        out.push(imports[i].repo_name.clone());
        assert(out.deep_view() =~= before.push(model[i as int]));
        i += 1;
    }
    assert(model.take(i as int) =~= model);
    out
}

/// The repositories that must exist to be overridden.
pub fn required_overrides_of(overrides: &Vec<BzlmodRepoOverride>) -> (r: Vec<String>)
    ensures
        r.deep_view() == required_overrides(overrides.deep_view()),
{
    let ghost model = overrides.deep_view();
    let mut out: Vec<String> = Vec::new();
    let mut i: usize = 0;
    while i < overrides.len()
        invariant
            model == overrides.deep_view(),
            0 <= i <= overrides@.len(),
            out.deep_view() =~= required_overrides(model.take(i as int)),
        decreases overrides.len() - i,
    {
        let ghost before = out.deep_view();
        proof {
            let t = model.take(i + 1);
            assert(t.drop_last() =~= model.take(i as int));
            assert(t.last() == overrides@[i as int].deep_view());
        }
        if overrides[i].must_exist {
            out.push(overrides[i].repo_name.clone());
            assert(out.deep_view() =~= before.push(model[i as int].repo_name));
        }
        i += 1;
    }
    assert(model.take(i as int) =~= model);
    out
}

fn implied_names_of(
    imports: &Vec<BzlmodUseRepoImport>,
    usage: &BzlmodExtensionUsage,
    locked: Option<&KeySet<String>>,
) -> (r: KeySet<String>)
    ensures
        r.deep_view() == implied_names(
            imports.deep_view(),
            usage.deep_view(),
            locked.deep_view(),
        ),
{
    let mut names: KeySet<String> = KeySet::new();
    assert(names.deep_view() =~= seq![]);
    names.insert_all(&import_repo_names_of(imports));
    names.insert_all(&bzlmod_extension_tag_repo_names(usage));
    names.insert_all(&required_overrides_of(&usage.repo_overrides));
    match locked {
        Some(more) => {
            names.insert_all(&more.items);
        },
        None => {},
    }
    names
}

/// The repository is injected into the extension, not generated by it.
pub open spec fn is_injected(overrides: Seq<BzlmodRepoOverrideModel>, repo_name: Text) -> bool {
    exists|i: int|
        0 <= i < overrides.len() && (#[trigger] overrides[i]).repo_name == repo_name
            && !overrides[i].must_exist
}

fn is_injected_repo(overrides: &Vec<BzlmodRepoOverride>, repo_name: &str) -> (r: bool)
    ensures
        r == is_injected(overrides.deep_view(), repo_name@),
{
    let ghost model = overrides.deep_view();
    let mut i: usize = 0;
    while i < overrides.len()
        invariant
            model == overrides.deep_view(),
            0 <= i <= overrides@.len(),
            forall|j: int|
                0 <= j < i ==> !((#[trigger] model[j]).repo_name == repo_name@
                    && !model[j].must_exist),
        decreases overrides.len() - i,
    {
        assert(model[i as int] == overrides@[i as int].deep_view());
        if same(overrides[i].repo_name.as_str(), repo_name) && !overrides[i].must_exist {
            return true;
        }
        i += 1;
    }
    false
}

/// The message for the import of an injected repository.
pub open spec fn injected_message(c: UsageContext, repo_name: Text, target: Text) -> Text {
    "bzlmod module extension `"@ + c.usage.extension_bzl_file + "`%`"@ + c.usage.extension_name
        + "` for `"@ + c.parent + "` imports injected repository `"@ + repo_name
        + "`; refer to `"@ + target + "` directly"@
}

/// The repositories with one more of an extension's group.
pub open spec fn with_group_repo(
    g: GeneratedReposModel,
    group: Text,
    repo_name: Text,
    cell: Text,
) -> GeneratedReposModel {
    GeneratedReposModel {
        aliases: g.aliases,
        modules: g.modules,
        declaring_cells: g.declaring_cells,
        repo_groups: with_group_entry(g.repo_groups, group, (repo_name, cell)),
        override_groups: g.override_groups,
    }
}

/// The state after one import: an alias for the overriding repository, for the
/// one that is there already, or for a new one.
pub open spec fn import_step(
    c: UsageContext,
    import: BzlmodUseRepoImportModel,
    run: UsageRun,
) -> Result<UsageRun, Text> {
    let repo = import.repo_name;
    let canonical = extension_repo_name(c.extension.unique_name, repo);
    let new_cell = cell_name_of(canonical);
    match lookup(c.targets, repo) {
        Some(target) => if is_injected(c.usage.repo_overrides, repo) {
            Err(injected_message(c, repo, target))
        } else {
            Ok(
                UsageRun {
                    repos: with_repo_alias(run.repos, c.cell, import.alias, target),
                    existing: run.existing,
                    names: run.names,
                },
            )
        },
        None => match lookup(run.existing, repo) {
            Some(cell) => Ok(
                UsageRun {
                    repos: with_repo_alias(run.repos, c.cell, import.alias, cell),
                    existing: run.existing,
                    names: set_remove(run.names, repo),
                },
            ),
            None => Ok(
                UsageRun {
                    repos: with_group_repo(
                        with_imported_repo(
                            run.repos,
                            c.cell,
                            import.alias,
                            c.extension.id.bzl_cell_name,
                            canonical,
                            extension_repo_generator(
                                c.extension,
                                c.parent,
                                c.is_root,
                                c.usage,
                                repo,
                                c.json,
                            ),
                        ),
                        c.extension.unique_name,
                        repo,
                        new_cell,
                    ),
                    existing: put::<String, Text>(run.existing, repo, new_cell),
                    names: set_remove(run.names, repo),
                },
            ),
        },
    }
}

/// The state after the imports from `i` on.
pub open spec fn import_steps(
    c: UsageContext,
    imports: Seq<BzlmodUseRepoImportModel>,
    i: int,
    run: UsageRun,
) -> Result<UsageRun, Text>
    decreases imports.len() - i,
{
    if i < 0 || i >= imports.len() {
        Ok(run)
    } else {
        match import_step(c, imports[i], run) {
            Err(message) => Err(message),
            Ok(next) => import_steps(c, imports, i + 1, next),
        }
    }
}

/// The repositories that the imports from `i` on leave: those after the last of
/// them, or before the first that fails.
pub open spec fn import_steps_left(
    c: UsageContext,
    imports: Seq<BzlmodUseRepoImportModel>,
    i: int,
    run: UsageRun,
) -> GeneratedReposModel
    decreases imports.len() - i,
{
    if i < 0 || i >= imports.len() {
        run.repos
    } else {
        match import_step(c, imports[i], run) {
            Err(_) => run.repos,
            Ok(next) => import_steps_left(c, imports, i + 1, next),
        }
    }
}

/// The repositories after the names from `i` on that no import generates.
pub open spec fn remaining_repos(
    c: UsageContext,
    names: Seq<Text>,
    i: int,
    g: GeneratedReposModel,
    existing: Seq<(Text, Text)>,
) -> GeneratedReposModel
    decreases names.len() - i,
{
    if i < 0 || i >= names.len() {
        g
    } else if lookup(existing, names[i]) is Some {
        remaining_repos(c, names, i + 1, g, existing)
    } else {
        let canonical = extension_repo_name(c.extension.unique_name, names[i]);
        remaining_repos(
            c,
            names,
            i + 1,
            with_group_repo(
                with_repo(
                    g,
                    c.extension.id.bzl_cell_name,
                    canonical,
                    extension_repo_generator(
                        c.extension,
                        c.parent,
                        c.is_root,
                        c.usage,
                        names[i],
                        c.json,
                    ),
                ),
                c.extension.unique_name,
                names[i],
                cell_name_of(canonical),
            ),
            put::<String, Text>(existing, names[i], cell_name_of(canonical)),
        )
    }
}

/// The repositories with the targets of overrides noted for an extension.
pub open spec fn with_override_group(
    g: GeneratedReposModel,
    group: Text,
    targets: Seq<(Text, Text)>,
) -> GeneratedReposModel {
    if targets.len() == 0 {
        g
    } else {
        GeneratedReposModel {
            aliases: g.aliases,
            modules: g.modules,
            declaring_cells: g.declaring_cells,
            repo_groups: g.repo_groups,
            override_groups: put::<String, Seq<(Text, Text)>>(
                g.override_groups,
                group,
                aliases_in(g.override_groups, group) + targets,
            ),
        }
    }
}

/// The message for an extension without usages.
pub open spec fn no_usages_message(id: BzlmodExtensionIdModel) -> Text {
    "bzlmod module extension `"@ + id.bzl_cell_name + "//"@ + id.bzl_path + "%"@
        + id.extension_name + "` has no single-extension usages value"@
}

/// The repositories after a usage of an extension: one for each name that it
/// implies, and an alias for each import.
pub open spec fn usage_repos(
    usage: BzlmodExtensionUsageModel,
    parent: Text,
    cell: Text,
    is_root: bool,
    locked: Seq<(Text, Seq<Text>)>,
    cells: Seq<(Text, Text)>,
    unique: Seq<(BzlmodExtensionIdModel, Text)>,
    jsons: Seq<(BzlmodExtensionIdModel, Text)>,
    g: GeneratedReposModel,
) -> Result<GeneratedReposModel, Text> {
    match resolved_extension(cell, usage, g.aliases, unique) {
        Err(message) => Err(message),
        Ok(extension) => match lockfile_key(extension.id, cells) {
            Err(message) => Err(message),
            Ok(key) => match override_targets(
                usage.repo_overrides,
                cell,
                g.aliases,
                extension.id,
                0,
                seq![],
            ) {
                Err(message) => Err(message),
                Ok(targets) => match lookup(jsons, extension.id) {
                    None => Err(no_usages_message(extension.id)),
                    Some(json) => {
                        let imports = open_imports(usage.imports, cell, g.aliases);
                        let names = implied_names(imports, usage, lookup(locked, key));
                        let start = with_override_group(g, extension.unique_name, targets);
                        if names.len() == 0 {
                            Ok(start)
                        } else {
                            let c = UsageContext {
                                usage,
                                parent,
                                cell,
                                is_root,
                                extension,
                                targets,
                                json,
                            };
                            let run = UsageRun {
                                repos: start,
                                existing: put_all(
                                    seq![],
                                    aliases_in(g.repo_groups, extension.unique_name),
                                    0,
                                ),
                                names,
                            };
                            match import_steps(c, imports, 0, run) {
                                Err(message) => Err(message),
                                Ok(done) => Ok(
                                    remaining_repos(c, done.names, 0, done.repos, done.existing),
                                ),
                            }
                        }
                    },
                },
            },
        },
    }
}

/// The repositories that a usage of an extension leaves: those after it where it
/// succeeds, and what was added up to the failure where it does not.
pub open spec fn usage_repos_left(
    usage: BzlmodExtensionUsageModel,
    parent: Text,
    cell: Text,
    is_root: bool,
    locked: Seq<(Text, Seq<Text>)>,
    cells: Seq<(Text, Text)>,
    unique: Seq<(BzlmodExtensionIdModel, Text)>,
    jsons: Seq<(BzlmodExtensionIdModel, Text)>,
    g: GeneratedReposModel,
) -> GeneratedReposModel {
    match resolved_extension(cell, usage, g.aliases, unique) {
        Err(_) => g,
        Ok(extension) => match lockfile_key(extension.id, cells) {
            Err(_) => g,
            Ok(key) => match override_targets(
                usage.repo_overrides,
                cell,
                g.aliases,
                extension.id,
                0,
                seq![],
            ) {
                Err(_) => g,
                Ok(targets) => {
                    let start = with_override_group(g, extension.unique_name, targets);
                    let imports = open_imports(usage.imports, cell, g.aliases);
                    let names = implied_names(imports, usage, lookup(locked, key));
                    match lookup(jsons, extension.id) {
                        Some(json) if names.len() > 0 => {
                            let c = UsageContext {
                                usage,
                                parent,
                                cell,
                                is_root,
                                extension,
                                targets,
                                json,
                            };
                            let run = UsageRun {
                                repos: start,
                                existing: put_all(
                                    seq![],
                                    aliases_in(g.repo_groups, extension.unique_name),
                                    0,
                                ),
                                names,
                            };
                            match import_steps(c, imports, 0, run) {
                                Err(_) => import_steps_left(c, imports, 0, run),
                                Ok(done) => remaining_repos(
                                    c,
                                    done.names,
                                    0,
                                    done.repos,
                                    done.existing,
                                ),
                            }
                        },
                        _ => start,
                    }
                },
            },
        },
    }
}

fn existing_repos(groups: &KeyMap<String, Vec<(String, String)>>, key: &String) -> (r: KeyMap<
    String,
    String,
>)
    ensures
        r.deep_view() == put_all(seq![], aliases_in(groups.deep_view(), key@), 0),
{
    let mut out: KeyMap<String, String> = KeyMap::new();
    assert(out.deep_view() =~= seq![]);
    match groups.get(key) {
        Some(group) => {
            let ghost model = group.deep_view();
            let mut i: usize = 0;
            while i < group.len()
                invariant
                    model == group.deep_view(),
                    0 <= i <= group@.len(),
                    put_all(seq![], model, 0) == put_all(out.deep_view(), model, i as int),
                decreases group.len() - i,
            {
                assert(model[i as int] == group@[i as int].deep_view());
                out.insert(group[i].0.clone(), group[i].1.clone());
                i += 1;
            }
        },
        None => {},
    }
    out
}

fn note_override_group(repos: &mut GeneratedRepos, group: &str, targets: &KeyMap<String, String>)
    ensures
        final(repos).deep_view() == with_override_group(
            old(repos).deep_view(),
            group@,
            targets.deep_view(),
        ),
{
    assert(targets.deep_view().len() == targets.entries@.len());
    if targets.entries.len() == 0 {
        return ;
    }
    let key = group.to_owned();
    let mut entries = match repos.override_groups.get(&key) {
        Some(entries) => entries.duplicate(),
        None => {
            let none: Vec<(String, String)> = Vec::new();
            assert(none.deep_view() =~= seq![]);
            none
        },
    };
    let ghost before = entries.deep_view();
    let mut more = targets.entries.duplicate();
    let ghost added = more.deep_view();
    entries.append(&mut more);
    assert(entries.deep_view() =~= before + added);
    repos.override_groups.insert(key, entries);
}

/// A usage of an extension while its repositories are generated.
struct UsageWork<'a> {
    usage: &'a BzlmodExtensionUsage,
    parent: &'a str,
    cell: &'a str,
    is_root: bool,
    extension: BzlmodResolvedExtension,
    targets: KeyMap<String, String>,
    json: String,
    existing: KeyMap<String, String>,
    names: KeySet<String>,
}

impl<'a> UsageWork<'a> {
    spec fn context(&self) -> UsageContext {
        UsageContext {
            usage: self.usage.deep_view(),
            parent: self.parent@,
            cell: self.cell@,
            is_root: self.is_root,
            extension: self.extension.deep_view(),
            targets: self.targets.deep_view(),
            json: self.json@,
        }
    }

    spec fn run(&self, repos: GeneratedReposModel) -> UsageRun {
        UsageRun {
            repos,
            existing: self.existing.deep_view(),
            names: self.names.deep_view(),
        }
    }

    fn generator(&self, repo_name: &str) -> (r: BzlmodGeneratedCellGenerator)
        ensures
            r.deep_view() == extension_repo_generator(
                self.context().extension,
                self.context().parent,
                self.context().is_root,
                self.context().usage,
                repo_name@,
                self.context().json,
            ),
    {
        bzlmod_module_extension_repo_config(
            &self.extension,
            self.parent,
            self.is_root,
            self.usage,
            repo_name,
            self.json.as_str(),
        )
    }

    fn import(&mut self, import: &BzlmodUseRepoImport, repos: &mut GeneratedRepos) -> (r: Result<
        (),
        InputError,
    >)
        ensures
            final(self).context() == old(self).context(),
            match import_step(
                old(self).context(),
                import.deep_view(),
                old(self).run(old(repos).deep_view()),
            ) {
                Ok(next) => r is Ok && final(self).run(final(repos).deep_view()) == next,
                Err(message) => r matches Err(e) && e.deep_view() == message
                    && final(repos).deep_view() == old(repos).deep_view(),
            },
    {
        match self.targets.get(&import.repo_name) {
            Some(target) => {
                if is_injected_repo(&self.usage.repo_overrides, import.repo_name.as_str()) {
                    let mut message = concat3(
                        "bzlmod module extension `",
                        self.usage.extension_bzl_file.as_str(),
                        "`%`",
                    );
                    message.append(self.usage.extension_name.as_str());
                    message.append("` for `");
                    message.append(self.parent);
                    message.append("` imports injected repository `");
                    message.append(import.repo_name.as_str());
                    message.append("`; refer to `");
                    message.append(target.as_str());
                    message.append("` directly");
                    return Err(InputError { message });
                }
                add_bzlmod_cell_alias(
                    &mut repos.aliases,
                    self.cell,
                    import.alias.as_str(),
                    target.as_str(),
                );
                return Ok(());
            },
            None => {},
        }
        match self.existing.get(&import.repo_name) {
            Some(cell) => {
                add_bzlmod_cell_alias(
                    &mut repos.aliases,
                    self.cell,
                    import.alias.as_str(),
                    cell.as_str(),
                );
                self.names.remove(&import.repo_name);
                return Ok(());
            },
            None => {},
        }
        let canonical = bzlmod_extension_repo_canonical_repo_name(
            &self.extension,
            import.repo_name.as_str(),
        );
        let generator = self.generator(import.repo_name.as_str());
        let cell_name = add_generated_bzlmod_repo_with_mapping_cell(
            repos,
            self.cell,
            import.alias.as_str(),
            self.extension.id.bzl_cell_name.as_str(),
            canonical.as_str(),
            generator,
        );
        push_group_entry(
            &mut repos.repo_groups,
            self.extension.unique_name.as_str(),
            (import.repo_name.clone(), cell_name.clone()),
        );
        self.existing.insert(import.repo_name.clone(), cell_name);
        self.names.remove(&import.repo_name);
        Ok(())
    }

    fn finish(self, repos: &mut GeneratedRepos)
        ensures
            final(repos).deep_view() == remaining_repos(
                self.context(),
                self.names.deep_view(),
                0,
                old(repos).deep_view(),
                self.existing.deep_view(),
            ),
    {
        let ghost first = repos.deep_view();
        let ghost c = self.context();
        let ghost names = self.names.deep_view();
        let ghost existing0 = self.existing.deep_view();
        let mut existing = self.existing.duplicate();
        let mut i: usize = 0;
        while i < self.names.items.len()
            invariant
                c == self.context(),
                names == self.names.deep_view(),
                0 <= i <= self.names.items@.len(),
                remaining_repos(c, names, 0, first, existing0) == remaining_repos(
                    c,
                    names,
                    i as int,
                    repos.deep_view(),
                    existing.deep_view(),
                ),
            decreases self.names.items.len() - i,
        {
            assert(names[i as int] == self.names.items@[i as int]@);
            let name = &self.names.items[i];
            if !existing.contains_key(name) {
                let canonical = bzlmod_extension_repo_canonical_repo_name(
                    &self.extension,
                    name.as_str(),
                );
                let generator = self.generator(name.as_str());
                let cell_name = add_unimported_generated_bzlmod_repo(
                    repos,
                    self.extension.id.bzl_cell_name.as_str(),
                    canonical.as_str(),
                    generator,
                );
                push_group_entry(
                    &mut repos.repo_groups,
                    self.extension.unique_name.as_str(),
                    (name.clone(), cell_name.clone()),
                );
                existing.insert(name.clone(), cell_name);
            }
            i += 1;
        }
    }
}

/// Adds the repositories that a usage of an extension brings about.
pub fn resolve_bzlmod_extension_usage_generated_repos(
    usage: &BzlmodExtensionUsage,
    parent_canonical_repo_name: &str,
    parent_cell_name: &str,
    parent_is_root: bool,
    root_module: &RootBzlmodModule,
    canonical_repo_names_by_cell: &KeyMap<String, String>,
    extension_unique_names: &KeyMap<BzlmodExtensionId, String>,
    extension_usages_json_by_id: &KeyMap<BzlmodExtensionId, String>,
    repos: &mut GeneratedRepos,
) -> (r: Result<(), InputError>)
    ensures
        match usage_repos(
            usage.deep_view(),
            parent_canonical_repo_name@,
            parent_cell_name@,
            parent_is_root,
            root_module.deep_view().lockfile_extension_generated_repos,
            canonical_repo_names_by_cell.deep_view(),
            extension_unique_names.deep_view(),
            extension_usages_json_by_id.deep_view(),
            old(repos).deep_view(),
        ) {
            Ok(next) => r is Ok && final(repos).deep_view() == next,
            Err(message) => r matches Err(e) && e.deep_view() == message,
        },
        final(repos).deep_view() == usage_repos_left(
            usage.deep_view(),
            parent_canonical_repo_name@,
            parent_cell_name@,
            parent_is_root,
            root_module.deep_view().lockfile_extension_generated_repos,
            canonical_repo_names_by_cell.deep_view(),
            extension_unique_names.deep_view(),
            extension_usages_json_by_id.deep_view(),
            old(repos).deep_view(),
        ),
        repos_appended(old(repos).deep_view(), final(repos).deep_view()),
        aliases_sorted(old(repos).deep_view().aliases) ==> only_imports_added(
            old(repos).deep_view().aliases,
            final(repos).deep_view().aliases,
            parent_cell_name@,
            usage.deep_view().imports,
        ),
{
    proof {
        law_usage_adds(
            usage.deep_view(),
            parent_canonical_repo_name@,
            parent_cell_name@,
            parent_is_root,
            root_module.deep_view().lockfile_extension_generated_repos,
            canonical_repo_names_by_cell.deep_view(),
            extension_unique_names.deep_view(),
            extension_usages_json_by_id.deep_view(),
            repos.deep_view(),
        );
    }
    let extension = match bzlmod_resolve_extension(
        parent_cell_name,
        usage,
        &repos.aliases,
        extension_unique_names,
    ) {
        Ok(extension) => extension,
        Err(e) => {
            return Err(e);
        },
    };
    let existing = existing_repos(&repos.repo_groups, &extension.unique_name);
    let imports = open_imports_of(&usage.imports, parent_cell_name, &repos.aliases);
    let key = match bzlmod_lockfile_extension_key(&extension.id, canonical_repo_names_by_cell) {
        Ok(key) => key,
        Err(e) => {
            return Err(e);
        },
    };
    let names = implied_names_of(
        &imports,
        usage,
        root_module.lockfile_extension_generated_repos.get(&key),
    );
    let targets = match bzlmod_extension_repo_override_targets(
        usage,
        parent_cell_name,
        &repos.aliases,
        &extension,
    ) {
        Ok(targets) => targets,
        Err(e) => {
            return Err(e);
        },
    };
    note_override_group(repos, extension.unique_name.as_str(), &targets);
    let json = match extension_usages_json_by_id.get(&extension.id) {
        Some(json) => json.clone(),
        None => {
            let id = &extension.id;
            let mut message = concat3("bzlmod module extension `", id.bzl_cell_name.as_str(), "//");
            message.append(id.bzl_path.as_str());
            message.append("%");
            message.append(id.extension_name.as_str());
            message.append("` has no single-extension usages value");
            return Err(InputError { message });
        },
    };
    assert(names.deep_view().len() == names.items@.len());
    if names.items.len() == 0 {
        return Ok(());
    }
    let ghost start = repos.deep_view();
    let mut work = UsageWork {
        usage,
        parent: parent_canonical_repo_name,
        cell: parent_cell_name,
        is_root: parent_is_root,
        extension,
        targets,
        json,
        existing,
        names,
    };
    let ghost c = work.context();
    let ghost run = work.run(start);
    let ghost model = imports.deep_view();
    let ghost whole = usage_repos(
        usage.deep_view(),
        parent_canonical_repo_name@,
        parent_cell_name@,
        parent_is_root,
        root_module.deep_view().lockfile_extension_generated_repos,
        canonical_repo_names_by_cell.deep_view(),
        extension_unique_names.deep_view(),
        extension_usages_json_by_id.deep_view(),
        old(repos).deep_view(),
    );
    assert(whole == (match import_steps(c, model, 0, run) {
        Err(message) => Err(message),
        Ok(done) => Ok(remaining_repos(c, done.names, 0, done.repos, done.existing)),
    }));
    let ghost left = usage_repos_left(
        usage.deep_view(),
        parent_canonical_repo_name@,
        parent_cell_name@,
        parent_is_root,
        root_module.deep_view().lockfile_extension_generated_repos,
        canonical_repo_names_by_cell.deep_view(),
        extension_unique_names.deep_view(),
        extension_usages_json_by_id.deep_view(),
        old(repos).deep_view(),
    );
    let mut i: usize = 0;
    while i < imports.len()
        invariant
            c == work.context(),
            model == imports.deep_view(),
            0 <= i <= imports@.len(),
            repos_appended(old(repos).deep_view(), left),
            aliases_sorted(old(repos).deep_view().aliases) ==> only_imports_added(
                old(repos).deep_view().aliases,
                left.aliases,
                parent_cell_name@,
                usage.deep_view().imports,
            ),
            left == usage_repos_left(
                usage.deep_view(),
                parent_canonical_repo_name@,
                parent_cell_name@,
                parent_is_root,
                root_module.deep_view().lockfile_extension_generated_repos,
                canonical_repo_names_by_cell.deep_view(),
                extension_unique_names.deep_view(),
                extension_usages_json_by_id.deep_view(),
                old(repos).deep_view(),
            ),
            left == (match import_steps(c, model, i as int, work.run(repos.deep_view())) {
                Err(_) => import_steps_left(c, model, i as int, work.run(repos.deep_view())),
                Ok(done) => remaining_repos(c, done.names, 0, done.repos, done.existing),
            }),
            whole == usage_repos(
                usage.deep_view(),
                parent_canonical_repo_name@,
                parent_cell_name@,
                parent_is_root,
                root_module.deep_view().lockfile_extension_generated_repos,
                canonical_repo_names_by_cell.deep_view(),
                extension_unique_names.deep_view(),
                extension_usages_json_by_id.deep_view(),
                old(repos).deep_view(),
            ),
            whole == (match import_steps(c, model, i as int, work.run(repos.deep_view())) {
                Err(message) => Err(message),
                Ok(done) => Ok(remaining_repos(c, done.names, 0, done.repos, done.existing)),
            }),
        decreases imports.len() - i,
    {
        assert(model[i as int] == imports@[i as int].deep_view());
        match work.import(&imports[i], repos) {
            Ok(_) => {},
            Err(e) => {
                return Err(e);
            },
        }
        i += 1;
    }
    work.finish(repos);
    Ok(())
}

/// The repository that an import stands for: what takes its place where it is overridden,
/// the one that is there already, or one that is named after the extension.
pub open spec fn imported_cell(c: UsageContext, existing: Seq<(Text, Text)>, repo: Text) -> Text {
    match lookup(c.targets, repo) {
        Some(target) => target,
        None => match lookup(existing, repo) {
            Some(cell) => cell,
            None => cell_name_of(c.extension.unique_name + "+"@ + repo),
        },
    }
}

/// An import stands in the module's cell for its repository, and nothing else changes
/// there; a repository that is injected into the extension cannot be imported.
pub proof fn law_import_stands_for(
    c: UsageContext,
    import: BzlmodUseRepoImportModel,
    run: UsageRun,
    alias: Text,
)
    requires
        aliases_sorted(run.repos.aliases),
    ensures
        import_step(c, import, run) is Err <==> lookup(c.targets, import.repo_name) is Some
            && is_injected(c.usage.repo_overrides, import.repo_name),
        import_step(c, import, run) matches Ok(next) ==> {
            &&& aliases_sorted(next.repos.aliases)
            &&& alias_target(next.repos.aliases, c.cell, import.alias) == Some(
                imported_cell(c, run.existing, import.repo_name),
            )
            &&& alias != import.alias ==> alias_target(next.repos.aliases, c.cell, alias)
                == alias_target(run.repos.aliases, c.cell, alias)
        },
{
    let cell = imported_cell(c, run.existing, import.repo_name);
    law_alias_in_order(run.repos.aliases, c.cell, import.alias, cell);
    law_alias_after_add(run.repos.aliases, c.cell, import.alias, cell, c.cell, import.alias);
    law_alias_after_add(run.repos.aliases, c.cell, import.alias, cell, c.cell, alias);
}

/// The repositories that have to exist are those of the overrides that say so.
pub proof fn law_required_overrides(overrides: Seq<BzlmodRepoOverrideModel>, name: Text)
    ensures
        required_overrides(overrides).contains(name) <==> exists|i: int|
            0 <= i < overrides.len() && (#[trigger] overrides[i]).repo_name == name
                && overrides[i].must_exist,
    decreases overrides.len(),
{
    if overrides.len() > 0 {
        let init = overrides.drop_last();
        law_required_overrides(init, name);
        lemma_push_contains(required_overrides(init), overrides.last().repo_name, name);
        assert(overrides[overrides.len() - 1] == overrides.last());
        if exists|i: int|
            0 <= i < init.len() && (#[trigger] init[i]).repo_name == name && init[i].must_exist {
            let i = choose|i: int|
                0 <= i < init.len() && (#[trigger] init[i]).repo_name == name
                    && init[i].must_exist;
            assert(overrides[i].repo_name == name);
        }
        if exists|i: int|
            0 <= i < overrides.len() && (#[trigger] overrides[i]).repo_name == name
                && overrides[i].must_exist {
            let i = choose|i: int|
                0 <= i < overrides.len() && (#[trigger] overrides[i]).repo_name == name
                    && overrides[i].must_exist;
            if i < init.len() {
                assert(init[i].repo_name == name);
            }
        }
    } else {
        assert(!required_overrides(overrides).contains(name));
    }
}

proof fn lemma_put_all_contains(items: Seq<Text>, more: Seq<Text>, i: int, x: Text)
    requires
        0 <= i <= more.len(),
    ensures
        set_put_all::<String>(items, more, i).contains(x) <==> items.contains(x) || exists|j: int|
            i <= j < more.len() && #[trigger] more[j] == x,
    decreases more.len() - i,
{
    if i < more.len() {
        lemma_put_all_contains(set_put::<String>(items, more[i]), more, i + 1, x);
        law_set_put_contains::<String>(items, more[i], x);
    }
}

/// A usage of an extension implies the repositories that it imports, those of its tags,
/// those that it overrides and that have to exist, and those of the lockfile; no others.
pub proof fn law_implied_names(
    imports: Seq<BzlmodUseRepoImportModel>,
    usage: BzlmodExtensionUsageModel,
    locked: Option<Seq<Text>>,
    name: Text,
)
    ensures
        implied_names(imports, usage, locked).contains(name) <==> {
            ||| exists|i: int| 0 <= i < imports.len() && (#[trigger] imports[i]).repo_name == name
            ||| tag_repo_names(usage).contains(name)
            ||| required_overrides(usage.repo_overrides).contains(name)
            ||| locked is Some && locked->0.contains(name)
        },
{
    let own = import_repo_names(imports);
    let tags = tag_repo_names(usage);
    let required = required_overrides(usage.repo_overrides);
    let none: Seq<Text> = seq![];
    let a = set_put_all::<String>(none, own, 0);
    let b = set_put_all::<String>(a, tags, 0);
    let c = set_put_all::<String>(b, required, 0);
    lemma_put_all_contains(none, own, 0, name);
    lemma_put_all_contains(a, tags, 0, name);
    lemma_put_all_contains(b, required, 0, name);
    if let Some(names) = locked {
        lemma_put_all_contains(c, names, 0, name);
    }
    if exists|i: int| 0 <= i < imports.len() && (#[trigger] imports[i]).repo_name == name {
        let i = choose|i: int| 0 <= i < imports.len() && (#[trigger] imports[i]).repo_name == name;
        assert(own[i] == name);
    }
    if exists|j: int| 0 <= j < own.len() && #[trigger] own[j] == name {
        let j = choose|j: int| 0 <= j < own.len() && #[trigger] own[j] == name;
        assert(imports[j].repo_name == name);
    }
}

} // verus!
