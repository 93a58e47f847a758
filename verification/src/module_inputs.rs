//! What the module file of a project and the files that it takes in declare.

use vstd::prelude::*;
use vstd::string::*;
use crate::blocks::{
    assignments, bzlmod_module_constants_from_lines, call_texts, calls, collect_bzl_calls,
    constants_of,
};
use crate::calls::{bzl_first_string_arg, first_string_arg, include_path, module_include_to_path};
use crate::discovery::{
    builtin_bazel_tools_module, builtin_dep, discovered_module, empty_source, patch_content,
    root_patch_content,
};
use crate::module::{
    BazelDep, BazelDepModel, BzlmodArchiveOverride, BzlmodArchiveOverrideModel,
    BzlmodLocalPathOverride, BzlmodLocalPathOverrideModel, BzlmodRootPatch, BzlmodRootPatchModel,
    BzlmodSingleVersionOverride, BzlmodSingleVersionOverrideModel, DiscoveredBcrModule,
    DiscoveredBcrModuleModel, InputError, RootBzlmodModule, RootBzlmodModuleModel,
};
use crate::module_aliases::{BazelModuleCellAliases, BazelModuleCellAliasesModel};
use crate::module_file::{aliases_of, bzlmod_deps_from_lines, bzlmod_module_aliases, deps_of};
use crate::module_overrides::{
    archive_override, bzlmod_archive_override_from_call, bzlmod_local_path_override_from_call,
    bzlmod_single_version_override_from_call, local_path_override, single_version_override,
};
use crate::module_rules::{
    bzlmod_registered_toolchains_from_lines, bzlmod_root_module_from_lines, lines_error,
    registered_toolchains, root_module, validate_bzlmod_module_lines,
};
use crate::ordered::{
    Duplicate, KeyMap, KeySet, law_set_put_contains, lemma_missing, lookup, missing, put, set_put,
};
use crate::paths::{
    KnownFiles, below, file_names, is_forward, is_forward_path, join_below, leaves_top,
    lemma_file_names,
};
use crate::resolved::{BazelCompatCellAlias, BazelCompatCellAliasModel};
use crate::selection::{apply_bzlmod_dep_overrides, overridden_version};
use crate::text::{Text, concat, concat3, join, join_of, lines};

verus! {

/// What the resolution of a project's modules starts from.
#[derive(Debug, PartialEq, Eq)]
pub struct BzlmodRootResolutionInput {
    pub aliases: BazelModuleCellAliases,
    pub root_deps: Vec<BazelDep>,
    pub root_module: RootBzlmodModule,
    pub builtin_bazel_tools_module: DiscoveredBcrModule,
    pub archive_overrides: KeyMap<String, BzlmodArchiveOverride>,
    pub single_version_overrides: KeyMap<String, BzlmodSingleVersionOverride>,
    pub local_path_overrides: KeyMap<String, BzlmodLocalPathOverride>,
}

/// The model of [`BzlmodRootResolutionInput`].
pub struct BzlmodRootResolutionInputModel {
    pub aliases: BazelModuleCellAliasesModel,
    pub root_deps: Seq<BazelDepModel>,
    pub root_module: RootBzlmodModuleModel,
    pub builtin_bazel_tools_module: DiscoveredBcrModuleModel,
    pub archive_overrides: Seq<(Text, BzlmodArchiveOverrideModel)>,
    pub single_version_overrides: Seq<(Text, BzlmodSingleVersionOverrideModel)>,
    pub local_path_overrides: Seq<(Text, BzlmodLocalPathOverrideModel)>,
}

impl DeepView for BzlmodRootResolutionInput {
    type V = BzlmodRootResolutionInputModel;

    open spec fn deep_view(&self) -> BzlmodRootResolutionInputModel {
        BzlmodRootResolutionInputModel {
            aliases: self.aliases.deep_view(),
            root_deps: self.root_deps.deep_view(),
            root_module: self.root_module.deep_view(),
            builtin_bazel_tools_module: self.builtin_bazel_tools_module.deep_view(),
            archive_overrides: self.archive_overrides.deep_view(),
            single_version_overrides: self.single_version_overrides.deep_view(),
            local_path_overrides: self.local_path_overrides.deep_view(),
        }
    }
}

impl Duplicate for BzlmodRootResolutionInput {
    fn duplicate(&self) -> (r: Self) {
        BzlmodRootResolutionInput {
            aliases: self.aliases.duplicate(),
            root_deps: self.root_deps.duplicate(),
            root_module: self.root_module.duplicate(),
            builtin_bazel_tools_module: self.builtin_bazel_tools_module.duplicate(),
            archive_overrides: self.archive_overrides.duplicate(),
            single_version_overrides: self.single_version_overrides.duplicate(),
            local_path_overrides: self.local_path_overrides.duplicate(),
        }
    }
}

/// What ends the reading of module files before its time: a file that has to be
/// looked up, or an error.
pub enum ReadStop {
    NeedsFile(String),
    Failed(InputError),
}

/// The model of [`ReadStop`].
pub enum ReadStopModel {
    NeedsFile(Text),
    Failed(Text),
}

impl DeepView for ReadStop {
    type V = ReadStopModel;

    open spec fn deep_view(&self) -> ReadStopModel {
        match self {
            ReadStop::NeedsFile(path) => ReadStopModel::NeedsFile(path@),
            ReadStop::Failed(e) => ReadStopModel::Failed(e.deep_view()),
        }
    }
}

/// A known file: its lines, or none where there is no such file.
pub open spec fn known_file(files: KnownFiles, path: Text) -> Result<
    Option<Seq<Text>>,
    ReadStopModel,
> {
    match lookup(files, path) {
        Some(found) => Ok(found),
        None => Err(ReadStopModel::NeedsFile(path)),
    }
}

/// A file below the project's cell.
pub open spec fn cell_file(files: KnownFiles, cell: Text, path: Text) -> Result<
    Option<Seq<Text>>,
    ReadStopModel,
> {
    if is_forward(path) {
        known_file(files, below(cell, path))
    } else {
        Err(ReadStopModel::Failed(leaves_top(path)))
    }
}

/// The patches with their contents, from `i` on.
pub open spec fn patches_read(
    files: KnownFiles,
    cell: Text,
    patches: Seq<BzlmodRootPatchModel>,
    i: int,
) -> Result<Seq<BzlmodRootPatchModel>, ReadStopModel>
    decreases patches.len() - i,
{
    if i < 0 || i >= patches.len() {
        Ok(patches)
    } else {
        match cell_file(files, cell, patches[i].path) {
            Err(stop) => Err(stop),
            Ok(None) => Err(
                ReadStopModel::Failed(
                    "bzlmod override patch `"@ + patches[i].path + "` does not exist"@,
                ),
            ),
            Ok(Some(lines)) => patches_read(
                files,
                cell,
                patches.update(
                    i,
                    BzlmodRootPatchModel { path: patches[i].path, content: patch_content(lines) },
                ),
                i + 1,
            ),
        }
    }
}

/// The patches as reading them from `i` on leaves them: each with its content up to
/// the first that cannot be read, and that one and the others as they were.
pub open spec fn patches_left(
    files: KnownFiles,
    cell: Text,
    patches: Seq<BzlmodRootPatchModel>,
    i: int,
) -> Seq<BzlmodRootPatchModel>
    decreases patches.len() - i,
{
    if i < 0 || i >= patches.len() {
        patches
    } else {
        match cell_file(files, cell, patches[i].path) {
            Ok(Some(lines)) => patches_left(
                files,
                cell,
                patches.update(
                    i,
                    BzlmodRootPatchModel { path: patches[i].path, content: patch_content(lines) },
                ),
                i + 1,
            ),
            _ => patches,
        }
    }
}

/// The overrides with those of the `archive_override` calls from `i` on.
pub open spec fn with_archives(
    files: KnownFiles,
    cell: Text,
    file: Text,
    calls: Seq<Text>,
    constants: Seq<(Text, Text)>,
    i: int,
    done: Seq<(Text, BzlmodArchiveOverrideModel)>,
) -> Result<Seq<(Text, BzlmodArchiveOverrideModel)>, ReadStopModel>
    decreases calls.len() - i,
{
    if i < 0 || i >= calls.len() {
        Ok(done)
    } else {
        match archive_override(file, calls[i], constants) {
            Err(e) => Err(ReadStopModel::Failed(e)),
            Ok(o) => match patches_read(files, cell, o.patches, 0) {
                Err(stop) => Err(stop),
                Ok(patches) => with_archives(
                    files,
                    cell,
                    file,
                    calls,
                    constants,
                    i + 1,
                    put::<String, BzlmodArchiveOverrideModel>(
                        done,
                        o.module_name,
                        BzlmodArchiveOverrideModel { patches, ..o },
                    ),
                ),
            },
        }
    }
}

/// The overrides with those of the `single_version_override` calls from `i` on.
pub open spec fn with_versions(
    files: KnownFiles,
    cell: Text,
    file: Text,
    calls: Seq<Text>,
    constants: Seq<(Text, Text)>,
    i: int,
    done: Seq<(Text, BzlmodSingleVersionOverrideModel)>,
) -> Result<Seq<(Text, BzlmodSingleVersionOverrideModel)>, ReadStopModel>
    decreases calls.len() - i,
{
    if i < 0 || i >= calls.len() {
        Ok(done)
    } else {
        match single_version_override(file, calls[i], constants) {
            Err(e) => Err(ReadStopModel::Failed(e)),
            Ok(None) => with_versions(files, cell, file, calls, constants, i + 1, done),
            Ok(Some((module_name, o))) => match patches_read(files, cell, o.patches, 0) {
                Err(stop) => Err(stop),
                Ok(patches) => with_versions(
                    files,
                    cell,
                    file,
                    calls,
                    constants,
                    i + 1,
                    put::<String, BzlmodSingleVersionOverrideModel>(
                        done,
                        module_name,
                        BzlmodSingleVersionOverrideModel { patches, ..o },
                    ),
                ),
            },
        }
    }
}

/// What a `local_path_override` without a module file is answered.
pub open spec fn no_module_file(module_name: Text, path: Text) -> Text {
    "local_path_override for module `"@ + module_name + "` points to `"@ + path + "`, but `"@ + path
        + "/MODULE.bazel` does not exist"@
}

/// The overrides with those of the `local_path_override` calls from `i` on.
pub open spec fn with_local_paths(
    files: KnownFiles,
    cell: Text,
    calls: Seq<Text>,
    i: int,
    done: Seq<(Text, BzlmodLocalPathOverrideModel)>,
) -> Result<Seq<(Text, BzlmodLocalPathOverrideModel)>, ReadStopModel>
    decreases calls.len() - i,
{
    if i < 0 || i >= calls.len() {
        Ok(done)
    } else {
        match local_path_override(cell, calls[i]) {
            Err(e) => Err(ReadStopModel::Failed(e)),
            Ok(o) => match known_file(files, below(o.path, "MODULE.bazel"@)) {
                Err(stop) => Err(stop),
                Ok(None) => Err(ReadStopModel::Failed(no_module_file(o.module_name, o.path))),
                Ok(Some(lines)) => with_local_paths(
                    files,
                    cell,
                    calls,
                    i + 1,
                    put::<String, BzlmodLocalPathOverrideModel>(
                        done,
                        o.module_name,
                        BzlmodLocalPathOverrideModel { module_text: join(lines, "\n"@), ..o },
                    ),
                ),
            },
        }
    }
}

/// The files that are left to read, with those of the `include` calls from `i`
/// on.
pub open spec fn with_includes(file: Text, calls: Seq<Text>, i: int, stack: Seq<Text>) -> Seq<Text>
    decreases calls.len() - i,
{
    if i < 0 || i >= calls.len() {
        stack
    } else {
        match first_string_arg(calls[i]) {
            Some(label) => match include_path(file, label) {
                Some(path) => with_includes(file, calls, i + 1, stack.push(path)),
                None => with_includes(file, calls, i + 1, stack),
            },
            None => with_includes(file, calls, i + 1, stack),
        }
    }
}

/// The first override of a kind that is not known here.
pub open spec fn unknown_override(lines: Seq<Text>) -> Option<Text> {
    let versions = call_texts(calls(lines, "multiple_version_override("@, 0));
    let gits = call_texts(calls(lines, "git_override("@, 0));
    if versions.len() > 0 {
        Some(
            "multiple_version_override is not implemented in Buck2 bzlmod resolution yet. Bazel allows multiple selected versions of the same module; refusing to silently collapse that graph: "@
                + versions[0],
        )
    } else if gits.len() > 0 {
        Some("git_override is not implemented in Buck2 bzlmod resolution yet: "@ + gits[0])
    } else {
        None
    }
}

/// Names as aliases of the root cell.
pub open spec fn root_aliases_of(names: Seq<Text>) -> Seq<BazelCompatCellAliasModel> {
    Seq::new(
        names.len(),
        |i: int| BazelCompatCellAliasModel { alias: names[i], cell_name: "root"@ },
    )
}

/// Where the reading of module files stands: the files seen, those left to read,
/// the last first, and what was declared so far.
pub struct RootReading {
    pub seen: Seq<Text>,
    pub stack: Seq<Text>,
    pub root_aliases: Seq<BazelCompatCellAliasModel>,
    pub root_deps: Seq<BazelDepModel>,
    pub archives: Seq<(Text, BzlmodArchiveOverrideModel)>,
    pub versions: Seq<(Text, BzlmodSingleVersionOverrideModel)>,
    pub local_paths: Seq<(Text, BzlmodLocalPathOverrideModel)>,
    pub toolchains: Seq<Text>,
    pub lines: Seq<Text>,
}

/// The state after a file of those lines.
pub open spec fn file_read(
    files: KnownFiles,
    cell: Text,
    file: Text,
    lines: Seq<Text>,
    s: RootReading,
) -> Result<RootReading, ReadStopModel> {
    let constants = constants_of(assignments(lines, 0));
    match lines_error(file, lines, 0) {
        Some(e) => Err(ReadStopModel::Failed(e)),
        None => match with_archives(
            files,
            cell,
            file,
            call_texts(calls(lines, "archive_override("@, 0)),
            constants,
            0,
            s.archives,
        ) {
            Err(stop) => Err(stop),
            Ok(archives) => match with_versions(
                files,
                cell,
                file,
                call_texts(calls(lines, "single_version_override("@, 0)),
                constants,
                0,
                s.versions,
            ) {
                Err(stop) => Err(stop),
                Ok(versions) => match unknown_override(lines) {
                    Some(e) => Err(ReadStopModel::Failed(e)),
                    None => match with_local_paths(
                        files,
                        cell,
                        call_texts(calls(lines, "local_path_override("@, 0)),
                        0,
                        s.local_paths,
                    ) {
                        Err(stop) => Err(stop),
                        Ok(local_paths) => Ok(
                            RootReading {
                                seen: s.seen,
                                stack: with_includes(
                                    file,
                                    call_texts(calls(lines, "include("@, 0)),
                                    0,
                                    s.stack,
                                ),
                                root_aliases: s.root_aliases + root_aliases_of(
                                    aliases_of(call_texts(calls(lines, "module("@, 0))),
                                ),
                                root_deps: s.root_deps + deps_of(
                                    call_texts(calls(lines, "bazel_dep("@, 0)),
                                    false,
                                ),
                                archives,
                                versions,
                                local_paths,
                                toolchains: s.toolchains + registered_toolchains(lines, false),
                                lines: s.lines + lines,
                            },
                        ),
                    },
                },
            },
        },
    }
}

/// What the reading comes to from a state on.
pub open spec fn root_reading(files: KnownFiles, cell: Text, s: RootReading) -> Result<
    RootReading,
    ReadStopModel,
>
    decreases missing(root_names(files, cell), s.seen), s.stack.len(),
    via root_reading_decreases
{
    if s.stack.len() == 0 {
        Ok(s)
    } else {
        let file = s.stack.last();
        let rest = RootReading { stack: s.stack.drop_last(), ..s };
        if s.seen.contains(file) {
            root_reading(files, cell, rest)
        } else {
            let seen = RootReading { seen: set_put::<String>(s.seen, file), ..rest };
            match cell_file(files, cell, file) {
                Err(stop) => Err(stop),
                Ok(None) => root_reading(files, cell, seen),
                Ok(Some(lines)) => match file_read(files, cell, file, lines, seen) {
                    Err(stop) => Err(stop),
                    Ok(next) => root_reading(files, cell, next),
                },
            }
        }
    }
}

/// The names below the cell of the known files, as far as they are there.
pub open spec fn root_names(files: KnownFiles, cell: Text) -> Seq<Text> {
    Seq::new(
        files.len(),
        |i: int|
            if cell.len() == 0 {
                files[i].0
            } else if files[i].0.len() > cell.len() {
                files[i].0.skip((cell.len() + 1) as int)
            } else {
                seq![]
            },
    )
}

proof fn lemma_root_names(files: KnownFiles, cell: Text, file: Text)
    requires
        lookup(files, below(cell, file)) is Some,
    ensures
        root_names(files, cell).contains(file),
{
    lemma_file_names(files, below(cell, file));
    let names = file_names(files);
    let i = choose|i: int| 0 <= i < names.len() && names[i] == below(cell, file);
    assert(files[i].0 == below(cell, file));
    reveal_strlit("/");
    assert("/"@.len() == 1);
    if cell.len() > 0 && file.len() > 0 {
        assert(below(cell, file).skip((cell.len() + 1) as int) =~= file);
    }
    assert(file.len() == 0 ==> file =~= seq![]);
    assert(root_names(files, cell)[i] == file);
}

/// A file that is there and was not seen before leaves fewer of them.
pub proof fn lemma_seen(files: KnownFiles, cell: Text, seen: Seq<Text>, file: Text)
    requires
        !seen.contains(file),
        lookup(files, below(cell, file)) is Some,
    ensures
        missing(root_names(files, cell), set_put::<String>(seen, file)) < missing(
            root_names(files, cell),
            seen,
        ),
{
    let next = set_put::<String>(seen, file);
    lemma_root_names(files, cell, file);
    assert forall|x: Text| #[trigger] seen.contains(x) implies next.contains(x) by {
        law_set_put_contains::<String>(seen, file, x);
    }
    law_set_put_contains::<String>(seen, file, file);
    lemma_missing(root_names(files, cell), seen, next);
    assert(root_names(files, cell).contains(file));
}

#[via_fn]
proof fn root_reading_decreases(files: KnownFiles, cell: Text, s: RootReading) {
    if s.stack.len() > 0 {
        let file = s.stack.last();
        if !s.seen.contains(file) && cell_file(files, cell, file) is Ok {
            lemma_seen(files, cell, s.seen, file);
        }
    }
}

/// The state before any file was read.
pub open spec fn first_reading() -> RootReading {
    RootReading {
        seen: seq![],
        stack: seq!["MODULE.bazel"@],
        root_aliases: seq![],
        root_deps: seq![],
        archives: seq![],
        versions: seq![],
        local_paths: seq![],
        toolchains: seq![],
        lines: seq![],
    }
}

/// The modules with the versions that the overrides give them.
pub open spec fn overridden(deps: Seq<BazelDepModel>, s: RootReading) -> Seq<BazelDepModel> {
    Seq::new(
        deps.len(),
        |i: int| overridden_version(deps[i], s.archives, s.versions, s.local_paths),
    )
}

/// What the resolution starts from: what the module files of the cell declare,
/// and the module of the bundled tools.
pub open spec fn root_input(files: KnownFiles, cell: Text, module_tools: Text) -> Result<
    BzlmodRootResolutionInputModel,
    ReadStopModel,
> {
    match root_reading(files, cell, first_reading()) {
        Err(stop) => Err(stop),
        Ok(s) => match discovered_module(
            builtin_dep(),
            empty_source(),
            "bazel_tools"@,
            lines(module_tools),
        ) {
            Err(e) => Err(ReadStopModel::Failed(e)),
            Ok(tools) => match root_module(s.lines) {
                Err(e) => Err(ReadStopModel::Failed(e)),
                Ok(root) => Ok(
                    BzlmodRootResolutionInputModel {
                        aliases: BazelModuleCellAliasesModel {
                            root_aliases: s.root_aliases,
                            cell_aliases: seq![],
                            external_modules: seq![],
                            registered_toolchains: s.toolchains,
                        },
                        root_deps: overridden(s.root_deps, s),
                        root_module: root,
                        builtin_bazel_tools_module: DiscoveredBcrModuleModel {
                            deps: overridden(tools.deps, s),
                            ..tools
                        },
                        archive_overrides: s.archives,
                        single_version_overrides: s.versions,
                        local_path_overrides: s.local_paths,
                    },
                ),
            },
        },
    }
}

fn failed<T>(e: InputError) -> (r: Result<T, ReadStop>)
    ensures
        r matches Err(stop) && stop.deep_view() == ReadStopModel::Failed(e.deep_view()),
{
    Err(ReadStop::Failed(e))
}

fn get_known_file<'a>(files: &'a KeyMap<String, Option<Vec<String>>>, path: String) -> (r: Result<
    Option<&'a Vec<String>>,
    ReadStop,
>)
    ensures
        match r {
            Ok(lines) => known_file(files.deep_view(), path@) == Ok::<
                Option<Seq<Text>>,
                ReadStopModel,
            >(lines.deep_view()),
            Err(stop) => known_file(files.deep_view(), path@) == Err::<
                Option<Seq<Text>>,
                ReadStopModel,
            >(stop.deep_view()),
        },
{
    match files.get(&path) {
        Some(Some(lines)) => Ok(Some(lines)),
        Some(None) => Ok(None),
        None => Err(ReadStop::NeedsFile(path)),
    }
}

fn get_cell_file<'a>(
    files: &'a KeyMap<String, Option<Vec<String>>>,
    cell: &str,
    path: &str,
) -> (r: Result<Option<&'a Vec<String>>, ReadStop>)
    ensures
        match r {
            Ok(lines) => cell_file(files.deep_view(), cell@, path@) == Ok::<
                Option<Seq<Text>>,
                ReadStopModel,
            >(lines.deep_view()),
            Err(stop) => cell_file(files.deep_view(), cell@, path@) == Err::<
                Option<Seq<Text>>,
                ReadStopModel,
            >(stop.deep_view()),
        },
{
    if is_forward_path(path) {
        get_known_file(files, join_below(cell, path))
    } else {
        failed(
            InputError {
                message: concat3(
                    "expected a normalized path but got an un-normalized path instead: `",
                    path,
                    "`",
                ),
            },
        )
    }
}

/// Reads the contents of the patches.
pub fn read_bzlmod_root_patch_contents(
    cell_path: &str,
    files: &KeyMap<String, Option<Vec<String>>>,
    patches: &mut Vec<BzlmodRootPatch>,
) -> (r: Result<(), ReadStop>)
    ensures
        match r {
            Ok(_) => patches_read(
                files.deep_view(),
                cell_path@,
                old(patches).deep_view(),
                0,
            ) == Ok::<Seq<BzlmodRootPatchModel>, ReadStopModel>(final(patches).deep_view()),
            Err(stop) => patches_read(
                files.deep_view(),
                cell_path@,
                old(patches).deep_view(),
                0,
            ) == Err::<Seq<BzlmodRootPatchModel>, ReadStopModel>(stop.deep_view()),
        },
        final(patches).deep_view() == patches_left(
            files.deep_view(),
            cell_path@,
            old(patches).deep_view(),
            0,
        ),
{
    let ghost left = patches_left(files.deep_view(), cell_path@, patches.deep_view(), 0);
    let ghost whole = patches_read(files.deep_view(), cell_path@, patches.deep_view(), 0);
    let mut i: usize = 0;
    while i < patches.len()
        invariant
            left == patches_left(files.deep_view(), cell_path@, old(patches).deep_view(), 0),
            left == patches_left(
                files.deep_view(),
                cell_path@,
                patches.deep_view(),
                i as int,
            ),
            whole == patches_read(files.deep_view(), cell_path@, old(patches).deep_view(), 0),
            whole == patches_read(
                files.deep_view(),
                cell_path@,
                patches.deep_view(),
                i as int,
            ),
            0 <= i <= patches@.len(),
        decreases patches.len() - i,
    {
        let ghost before = patches.deep_view();
        let path = patches[i].path.clone();
        assert(before[i as int] == patches@[i as int].deep_view());
        assert(before.len() == patches@.len());
        match get_cell_file(files, cell_path, path.as_str()) {
            Err(stop) => {
                return Err(stop);
            },
            Ok(None) => {
                return failed(
                    InputError {
                        message: concat3(
                            "bzlmod override patch `",
                            path.as_str(),
                            "` does not exist",
                        ),
                    },
                );
            },
            Ok(Some(lines)) => {
                let patch = BzlmodRootPatch { path, content: root_patch_content(lines) };
                let ghost read = patch.deep_view();
                patches.set(i, patch);
                assert(patches.deep_view() =~= before.update(i as int, read));
            },
        }
        i += 1;
    }
    Ok(())
}

fn add_archives(
    files: &KeyMap<String, Option<Vec<String>>>,
    cell: &str,
    file: &str,
    calls: &Vec<String>,
    constants: &Vec<(String, String)>,
    done: &mut KeyMap<String, BzlmodArchiveOverride>,
) -> (r: Result<(), ReadStop>)
    ensures
        with_archives(
            files.deep_view(),
            cell@,
            file@,
            calls.deep_view(),
            constants.deep_view(),
            0,
            old(done).deep_view(),
        ) == (match r {
            Ok(_) => Ok::<
                Seq<(Text, BzlmodArchiveOverrideModel)>,
                ReadStopModel,
            >(final(done).deep_view()),
            Err(stop) => Err(stop.deep_view()),
        }),
{
    let ghost model = calls.deep_view();
    let ghost whole = with_archives(
        files.deep_view(),
        cell@,
        file@,
        model,
        constants.deep_view(),
        0,
        done.deep_view(),
    );
    let mut i: usize = 0;
    while i < calls.len()
        invariant
            model == calls.deep_view(),
            0 <= i <= calls@.len(),
            whole == with_archives(
                files.deep_view(),
                cell@,
                file@,
                model,
                constants.deep_view(),
                0,
                old(done).deep_view(),
            ),
            whole == with_archives(
                files.deep_view(),
                cell@,
                file@,
                model,
                constants.deep_view(),
                i as int,
                done.deep_view(),
            ),
        decreases calls.len() - i,
    {
        assert(model[i as int] == calls@[i as int]@);
        let mut o = match bzlmod_archive_override_from_call(file, calls[i].as_str(), constants) {
            Ok(o) => o,
            Err(e) => {
                return failed(e);
            },
        };
        match read_bzlmod_root_patch_contents(cell, files, &mut o.patches) {
            Ok(_) => {},
            Err(stop) => {
                return Err(stop);
            },
        }
        done.insert(o.module_name.clone(), o);
        i += 1;
    }
    Ok(())
}

fn add_versions(
    files: &KeyMap<String, Option<Vec<String>>>,
    cell: &str,
    file: &str,
    calls: &Vec<String>,
    constants: &Vec<(String, String)>,
    done: &mut KeyMap<String, BzlmodSingleVersionOverride>,
) -> (r: Result<(), ReadStop>)
    ensures
        with_versions(
            files.deep_view(),
            cell@,
            file@,
            calls.deep_view(),
            constants.deep_view(),
            0,
            old(done).deep_view(),
        ) == (match r {
            Ok(_) => Ok::<
                Seq<(Text, BzlmodSingleVersionOverrideModel)>,
                ReadStopModel,
            >(final(done).deep_view()),
            Err(stop) => Err(stop.deep_view()),
        }),
{
    let ghost model = calls.deep_view();
    let ghost whole = with_versions(
        files.deep_view(),
        cell@,
        file@,
        model,
        constants.deep_view(),
        0,
        done.deep_view(),
    );
    let mut i: usize = 0;
    while i < calls.len()
        invariant
            model == calls.deep_view(),
            0 <= i <= calls@.len(),
            whole == with_versions(
                files.deep_view(),
                cell@,
                file@,
                model,
                constants.deep_view(),
                0,
                old(done).deep_view(),
            ),
            whole == with_versions(
                files.deep_view(),
                cell@,
                file@,
                model,
                constants.deep_view(),
                i as int,
                done.deep_view(),
            ),
        decreases calls.len() - i,
    {
        assert(model[i as int] == calls@[i as int]@);
        match bzlmod_single_version_override_from_call(file, calls[i].as_str(), constants) {
            Ok(Some((module_name, found))) => {
                let mut o = found;
                match read_bzlmod_root_patch_contents(cell, files, &mut o.patches) {
                    Ok(_) => {},
                    Err(stop) => {
                        return Err(stop);
                    },
                }
                done.insert(module_name, o);
            },
            Ok(None) => {},
            Err(e) => {
                return failed(e);
            },
        }
        i += 1;
    }
    Ok(())
}

fn add_local_paths(
    files: &KeyMap<String, Option<Vec<String>>>,
    cell: &str,
    calls: &Vec<String>,
    done: &mut KeyMap<String, BzlmodLocalPathOverride>,
) -> (r: Result<(), ReadStop>)
    ensures
        with_local_paths(
            files.deep_view(),
            cell@,
            calls.deep_view(),
            0,
            old(done).deep_view(),
        ) == (match r {
            Ok(_) => Ok::<
                Seq<(Text, BzlmodLocalPathOverrideModel)>,
                ReadStopModel,
            >(final(done).deep_view()),
            Err(stop) => Err(stop.deep_view()),
        }),
{
    let ghost model = calls.deep_view();
    let ghost whole = with_local_paths(files.deep_view(), cell@, model, 0, done.deep_view());
    let mut i: usize = 0;
    while i < calls.len()
        invariant
            model == calls.deep_view(),
            0 <= i <= calls@.len(),
            whole == with_local_paths(files.deep_view(), cell@, model, 0, old(done).deep_view()),
            whole == with_local_paths(
                files.deep_view(),
                cell@,
                model,
                i as int,
                done.deep_view(),
            ),
        decreases calls.len() - i,
    {
        assert(model[i as int] == calls@[i as int]@);
        let mut o = match bzlmod_local_path_override_from_call(cell, calls[i].as_str()) {
            Ok(o) => o,
            Err(e) => {
                return failed(e);
            },
        };
        match get_known_file(files, join_below(o.path.as_str(), "MODULE.bazel")) {
            Err(stop) => {
                return Err(stop);
            },
            Ok(None) => {
                let mut message = concat3(
                    "local_path_override for module `",
                    o.module_name.as_str(),
                    "` points to `",
                );
                message.append(o.path.as_str());
                message.append("`, but `");
                message.append(o.path.as_str());
                message.append("/MODULE.bazel` does not exist");
                return failed(InputError { message });
            },
            Ok(Some(lines)) => {
                o.module_text = join_of(lines, "\n");
            },
        }
        done.insert(o.module_name.clone(), o);
        i += 1;
    }
    Ok(())
}

fn add_includes(file: &str, calls: &Vec<String>, stack: &mut Vec<String>)
    ensures
        final(stack).deep_view() == with_includes(
            file@,
            calls.deep_view(),
            0,
            old(stack).deep_view(),
        ),
{
    let ghost model = calls.deep_view();
    let ghost first = stack.deep_view();
    let mut i: usize = 0;
    while i < calls.len()
        invariant
            model == calls.deep_view(),
            0 <= i <= calls@.len(),
            with_includes(file@, model, 0, first) == with_includes(
                file@,
                model,
                i as int,
                stack.deep_view(),
            ),
        decreases calls.len() - i,
    {
        let ghost before = stack.deep_view();
        assert(model[i as int] == calls@[i as int]@);
        match bzl_first_string_arg(calls[i].as_str()) {
            Some(label) => match module_include_to_path(file, label.as_str()) {
                Some(path) => {
                    let ghost added = path@;
                    stack.push(path);
                    assert(stack.deep_view() =~= before.push(added));
                },
                None => {},
            },
            None => {},
        }
        i += 1;
    }
}

fn unknown_override_of(lines: &Vec<String>) -> (r: Option<InputError>)
    ensures
        r.deep_view() == unknown_override(lines.deep_view()),
{
    let versions = collect_bzl_calls(lines, "multiple_version_override(");
    assert(versions.deep_view().len() == versions@.len());
    if versions.len() > 0 {
        assert(versions.deep_view()[0] == versions@[0]@);
        return Some(
            InputError {
                message: concat(
                    "multiple_version_override is not implemented in Buck2 bzlmod resolution yet. Bazel allows multiple selected versions of the same module; refusing to silently collapse that graph: ",
                    versions[0].as_str(),
                ),
            },
        );
    }
    let gits = collect_bzl_calls(lines, "git_override(");
    assert(gits.deep_view().len() == gits@.len());
    if gits.len() > 0 {
        assert(gits.deep_view()[0] == gits@[0]@);
        return Some(
            InputError {
                message: concat(
                    "git_override is not implemented in Buck2 bzlmod resolution yet: ",
                    gits[0].as_str(),
                ),
            },
        );
    }
    None
}

fn extend<T: Duplicate>(out: &mut Vec<T>, more: &Vec<T>)
    ensures
        final(out).deep_view() == old(out).deep_view() + more.deep_view(),
{
    let ghost first = out.deep_view();
    let ghost model = more.deep_view();
    let mut i: usize = 0;
    assert(first + model.take(0) =~= first);
    while i < more.len()
        invariant
            model == more.deep_view(),
            0 <= i <= more@.len(),
            out.deep_view() == first + model.take(i as int),
        decreases more.len() - i,
    {
        let ghost before = out.deep_view();
        let item = more[i].duplicate();
        let ghost added = item.deep_view();
        out.push(item);
        assert(out.deep_view() =~= before.push(added));
        assert(before.push(added) =~= first + model.take(i + 1));
        i += 1;
    }
    assert(model.take(i as int) =~= model);
}

fn push_root_aliases(out: &mut Vec<BazelCompatCellAlias>, names: &Vec<String>)
    ensures
        final(out).deep_view() == old(out).deep_view() + root_aliases_of(names.deep_view()),
{
    let ghost first = out.deep_view();
    let ghost all = root_aliases_of(names.deep_view());
    let mut i: usize = 0;
    assert(first + all.take(0) =~= first);
    while i < names.len()
        invariant
            all == root_aliases_of(names.deep_view()),
            0 <= i <= names@.len(),
            out.deep_view() == first + all.take(i as int),
        decreases names.len() - i,
    {
        let ghost before = out.deep_view();
        assert(names.deep_view()[i as int] == names@[i as int]@);
        out.push(BazelCompatCellAlias { alias: names[i].clone(), cell_name: "root".to_owned() });
        assert(out.deep_view() =~= before.push(all[i as int]));
        assert(before.push(all[i as int]) =~= first + all.take(i + 1));
        i += 1;
    }
    assert(all.take(i as int) =~= all);
}

/// The state of a reading of module files.
struct RootReader {
    seen: KeySet<String>,
    stack: Vec<String>,
    root_aliases: Vec<BazelCompatCellAlias>,
    root_deps: Vec<BazelDep>,
    archives: KeyMap<String, BzlmodArchiveOverride>,
    versions: KeyMap<String, BzlmodSingleVersionOverride>,
    local_paths: KeyMap<String, BzlmodLocalPathOverride>,
    toolchains: Vec<String>,
    lines: Vec<String>,
}

impl DeepView for RootReader {
    type V = RootReading;

    closed spec fn deep_view(&self) -> RootReading {
        RootReading {
            seen: self.seen.deep_view(),
            stack: self.stack.deep_view(),
            root_aliases: self.root_aliases.deep_view(),
            root_deps: self.root_deps.deep_view(),
            archives: self.archives.deep_view(),
            versions: self.versions.deep_view(),
            local_paths: self.local_paths.deep_view(),
            toolchains: self.toolchains.deep_view(),
            lines: self.lines.deep_view(),
        }
    }
}

fn read_module_file(
    reader: &mut RootReader,
    files: &KeyMap<String, Option<Vec<String>>>,
    cell: &str,
    file: &str,
    lines: &Vec<String>,
) -> (r: Result<(), ReadStop>)
    ensures
        file_read(
            files.deep_view(),
            cell@,
            file@,
            lines.deep_view(),
            old(reader).deep_view(),
        ) == (match r {
            Ok(_) => Ok::<RootReading, ReadStopModel>(final(reader).deep_view()),
            Err(stop) => Err(stop.deep_view()),
        }),
{
    match validate_bzlmod_module_lines(file, lines) {
        Ok(_) => {},
        Err(e) => {
            return failed(e);
        },
    }
    let constants = bzlmod_module_constants_from_lines(lines);
    extend(&mut reader.lines, lines);
    push_root_aliases(&mut reader.root_aliases, &bzlmod_module_aliases(lines));
    extend(&mut reader.root_deps, &bzlmod_deps_from_lines(lines, false));
    match add_archives(
        files,
        cell,
        file,
        &collect_bzl_calls(lines, "archive_override("),
        &constants,
        &mut reader.archives,
    ) {
        Ok(_) => {},
        Err(stop) => {
            return Err(stop);
        },
    }
    match add_versions(
        files,
        cell,
        file,
        &collect_bzl_calls(lines, "single_version_override("),
        &constants,
        &mut reader.versions,
    ) {
        Ok(_) => {},
        Err(stop) => {
            return Err(stop);
        },
    }
    match unknown_override_of(lines) {
        Some(e) => {
            return failed(e);
        },
        None => {},
    }
    match add_local_paths(
        files,
        cell,
        &collect_bzl_calls(lines, "local_path_override("),
        &mut reader.local_paths,
    ) {
        Ok(_) => {},
        Err(stop) => {
            return Err(stop);
        },
    }
    extend(&mut reader.toolchains, &bzlmod_registered_toolchains_from_lines(lines, false));
    add_includes(file, &collect_bzl_calls(lines, "include("), &mut reader.stack);
    Ok(())
}

fn read_module_files(files: &KeyMap<String, Option<Vec<String>>>, cell: &str) -> (r: Result<
    RootReader,
    ReadStop,
>)
    ensures
        root_reading(files.deep_view(), cell@, first_reading()) == (match r {
            Ok(reader) => Ok::<RootReading, ReadStopModel>(reader.deep_view()),
            Err(stop) => Err(stop.deep_view()),
        }),
{
    let ghost known = files.deep_view();
    let mut stack: Vec<String> = Vec::new();
    stack.push("MODULE.bazel".to_owned());
    assert(stack.deep_view() =~= seq!["MODULE.bazel"@]);
    let mut reader = RootReader {
        seen: KeySet::new(),
        stack,
        root_aliases: Vec::new(),
        root_deps: Vec::new(),
        archives: KeyMap::new(),
        versions: KeyMap::new(),
        local_paths: KeyMap::new(),
        toolchains: Vec::new(),
        lines: Vec::new(),
    };
    proof {
        let s = reader.deep_view();
        assert(s.seen =~= seq![]);
        assert(s.root_aliases =~= seq![]);
        assert(s.root_deps =~= seq![]);
        assert(s.archives =~= seq![]);
        assert(s.versions =~= seq![]);
        assert(s.local_paths =~= seq![]);
        assert(s.toolchains =~= seq![]);
        assert(s.lines =~= seq![]);
    }
    let ghost whole = root_reading(known, cell@, first_reading());
    while reader.stack.len() > 0
        invariant
            known == files.deep_view(),
            whole == root_reading(known, cell@, first_reading()),
            whole == root_reading(known, cell@, reader.deep_view()),
        decreases
            missing(root_names(known, cell@), reader.deep_view().seen),
            reader.deep_view().stack.len(),
    {
        let ghost s = reader.deep_view();
        let file = reader.stack.pop().unwrap();
        assert(file@ == s.stack.last());
        assert(reader.stack.deep_view() =~= s.stack.drop_last());
        if !reader.seen.contains(&file) {
            reader.seen.insert(file.clone());
            proof {
                if cell_file(known, cell@, file@) is Ok {
                    lemma_seen(known, cell@, s.seen, file@);
                }
            }
            match get_cell_file(files, cell, file.as_str()) {
                Err(stop) => {
                    return Err(stop);
                },
                Ok(None) => {},
                Ok(Some(lines)) => {
                    match read_module_file(&mut reader, files, cell, file.as_str(), lines) {
                        Ok(_) => {},
                        Err(stop) => {
                            return Err(stop);
                        },
                    }
                },
            }
        }
    }
    assert(reader.deep_view().stack.len() == reader.stack@.len());
    Ok(reader)
}

/// What the resolution starts from: what the module files of the cell declare,
/// and the module of the bundled tools. Where a file that is needed is not among
/// the known ones, that file.
pub fn read_bazel_module_resolution_inputs(
    cell_path: &str,
    files: &KeyMap<String, Option<Vec<String>>>,
    module_tools: &str,
) -> (r: Result<BzlmodRootResolutionInput, ReadStop>)
    ensures
        root_input(files.deep_view(), cell_path@, module_tools@) == (match r {
            Ok(input) => Ok::<BzlmodRootResolutionInputModel, ReadStopModel>(input.deep_view()),
            Err(stop) => Err(stop.deep_view()),
        }),
{
    let reader = match read_module_files(files, cell_path) {
        Ok(reader) => reader,
        Err(stop) => {
            return Err(stop);
        },
    };
    let ghost s = reader.deep_view();
    let mut builtin = match builtin_bazel_tools_module(module_tools) {
        Ok(builtin) => builtin,
        Err(e) => {
            return failed(e);
        },
    };
    let ghost tools = builtin.deep_view();
    let mut root_deps = reader.root_deps;
    apply_bzlmod_dep_overrides(
        &mut root_deps,
        &reader.archives,
        &reader.versions,
        &reader.local_paths,
    );
    apply_bzlmod_dep_overrides(
        &mut builtin.deps,
        &reader.archives,
        &reader.versions,
        &reader.local_paths,
    );
    assert(root_deps.deep_view() =~= overridden(s.root_deps, s));
    assert(builtin.deps.deep_view() =~= overridden(tools.deps, s));
    let root_module = match bzlmod_root_module_from_lines(&reader.lines) {
        Ok(root_module) => root_module,
        Err(e) => {
            return failed(e);
        },
    };
    let aliases = BazelModuleCellAliases {
        root_aliases: reader.root_aliases,
        cell_aliases: KeyMap::new(),
        external_modules: Vec::new(),
        registered_toolchains: reader.toolchains,
    };
    assert(aliases.cell_aliases.deep_view() =~= seq![]);
    assert(aliases.external_modules.deep_view() =~= seq![]);
    Ok(
        BzlmodRootResolutionInput {
            aliases,
            root_deps,
            root_module,
            builtin_bazel_tools_module: builtin,
            archive_overrides: reader.archives,
            single_version_overrides: reader.versions,
            local_path_overrides: reader.local_paths,
        },
    )
}

/// A module file of the root adds to what was declared before: its dependencies, those for
/// development too, its toolchains and its lines, each behind those of the files before it;
/// a refused override stops the reading.
pub proof fn law_file_adds(
    files: KnownFiles,
    cell: Text,
    file: Text,
    lines: Seq<Text>,
    s: RootReading,
)
    ensures
        file_read(files, cell, file, lines, s) matches Ok(next) ==> {
            &&& next.root_deps == s.root_deps + deps_of(
                call_texts(calls(lines, "bazel_dep("@, 0)),
                false,
            )
            &&& next.toolchains == s.toolchains + registered_toolchains(lines, false)
            &&& next.lines == s.lines + lines
            &&& next.seen == s.seen
            &&& calls(lines, "git_override("@, 0).len() == 0
            &&& calls(lines, "multiple_version_override("@, 0).len() == 0
        },
{
}

/// The files that a module file takes in are left to read, in the order of the calls,
/// behind those that were left before.
pub proof fn law_includes(file: Text, calls: Seq<Text>, i: int, stack: Seq<Text>)
    requires
        0 <= i <= calls.len(),
    ensures
        stack.is_prefix_of(with_includes(file, calls, i, stack)),
        forall|j: int|
            i <= j < calls.len() && first_string_arg(#[trigger] calls[j]) is Some && include_path(
                file,
                first_string_arg(calls[j])->0,
            ) is Some ==> with_includes(file, calls, i, stack).contains(
                include_path(file, first_string_arg(calls[j])->0)->0,
            ),
    decreases calls.len() - i,
{
    let all = with_includes(file, calls, i, stack);
    if i < calls.len() {
        let pushed = first_string_arg(calls[i]) is Some && include_path(
            file,
            first_string_arg(calls[i])->0,
        ) is Some;
        if pushed {
            let path = include_path(file, first_string_arg(calls[i])->0)->0;
            let next = stack.push(path);
            law_includes(file, calls, i + 1, next);
            assert(stack =~= next.subrange(0, stack.len() as int));
            assert(all.subrange(0, stack.len() as int) =~= all.subrange(
                0,
                next.len() as int,
            ).subrange(0, stack.len() as int));
            assert(all.subrange(0, next.len() as int)[stack.len() as int] == all[stack.len() as int]);
            assert(all[stack.len() as int] == path);
        } else {
            law_includes(file, calls, i + 1, stack);
        }
    } else {
        assert(stack.subrange(0, stack.len() as int) =~= stack);
    }
}

proof fn lemma_prefix_sum(a: Seq<BazelDepModel>, b: Seq<BazelDepModel>, c: Seq<BazelDepModel>)
    requires
        (a + b).is_prefix_of(c),
    ensures
        a.is_prefix_of(c),
{
    assert(a =~= (a + b).subrange(0, a.len() as int));
    assert(c.subrange(0, a.len() as int) =~= c.subrange(0, (a + b).len() as int).subrange(
        0,
        a.len() as int,
    ));
}

/// The reading goes through every file that is left to read, once each: in the end all of
/// them were seen, nothing is left, and what was declared before is still there in front.
pub proof fn law_reading_goes_through(files: KnownFiles, cell: Text, s: RootReading, file: Text)
    ensures
        root_reading(files, cell, s) matches Ok(end) ==> {
            &&& end.stack.len() == 0
            &&& s.seen.contains(file) || s.stack.contains(file) ==> end.seen.contains(file)
            &&& s.root_deps.is_prefix_of(end.root_deps)
        },
    decreases missing(root_names(files, cell), s.seen), s.stack.len(),
{
    if s.stack.len() == 0 {
        assert(s.root_deps.subrange(0, s.root_deps.len() as int) =~= s.root_deps);
    } else {
        let own = s.stack.last();
        let rest = RootReading { stack: s.stack.drop_last(), ..s };
        assert(s.stack.contains(file) ==> file == own || rest.stack.contains(file)) by {
            if s.stack.contains(file) {
                let i = choose|i: int| 0 <= i < s.stack.len() && s.stack[i] == file;
                if i < rest.stack.len() {
                    assert(rest.stack[i] == file);
                }
            }
        }
        if s.seen.contains(own) {
            law_reading_goes_through(files, cell, rest, file);
        } else {
            let seen = RootReading { seen: set_put::<String>(s.seen, own), ..rest };
            law_set_put_contains::<String>(s.seen, own, file);
            match cell_file(files, cell, own) {
                Err(_) => {},
                Ok(None) => {
                    lemma_seen(files, cell, s.seen, own);
                    law_reading_goes_through(files, cell, seen, file);
                },
                Ok(Some(lines)) => {
                    if let Ok(next) = file_read(files, cell, own, lines, seen) {
                        lemma_seen(files, cell, s.seen, own);
                        law_reading_goes_through(files, cell, next, file);
                        law_file_adds(files, cell, own, lines, seen);
                        law_includes(
                            own,
                            call_texts(calls(lines, "include("@, 0)),
                            0,
                            rest.stack,
                        );
                        if rest.stack.contains(file) {
                            let i = choose|i: int|
                                0 <= i < rest.stack.len() && rest.stack[i] == file;
                            assert(next.stack.subrange(0, rest.stack.len() as int)[i] == file);
                            assert(next.stack[i] == file);
                        }
                        if let Ok(end) = root_reading(files, cell, s) {
                            lemma_prefix_sum(
                                s.root_deps,
                                deps_of(call_texts(calls(lines, "bazel_dep("@, 0)), false),
                                end.root_deps,
                            );
                        }
                    }
                },
            }
        }
    }
}

} // verus!
