//! Resolved modules: what becomes of a module graph.

use vstd::prelude::*;
use crate::external::{BzlmodGeneratedCellGenerator, BzlmodGeneratedCellGeneratorModel};
use crate::module::{
    BzlmodOverlayConfig, BzlmodOverlayConfigModel, BzlmodPatchConfig, BzlmodPatchConfigModel,
};
use crate::ordered::{Duplicate, KeyMap, OrderedKey};
use crate::text::{Text, strip_prefix};

verus! {

/// A name for a cell; `root` stands for the root cell, whatever its name.
#[derive(Debug, PartialEq, Eq)]
pub struct BazelCompatCellAlias {
    pub alias: String,
    pub cell_name: String,
}

/// The model of [`BazelCompatCellAlias`].
pub struct BazelCompatCellAliasModel {
    pub alias: Text,
    pub cell_name: Text,
}

impl DeepView for BazelCompatCellAlias {
    type V = BazelCompatCellAliasModel;

    open spec fn deep_view(&self) -> BazelCompatCellAliasModel {
        BazelCompatCellAliasModel {
            alias: self.alias.deep_view(),
            cell_name: self.cell_name.deep_view(),
        }
    }
}

impl Duplicate for BazelCompatCellAlias {
    fn duplicate(&self) -> (r: Self) {
        BazelCompatCellAlias {
            alias: self.alias.duplicate(),
            cell_name: self.cell_name.duplicate(),
        }
    }
}

impl OrderedKey for BazelCompatCellAlias {
    open spec fn key_lt(a: BazelCompatCellAliasModel, b: BazelCompatCellAliasModel) -> bool {
        <(String, String)>::key_lt((a.alias, a.cell_name), (b.alias, b.cell_name))
    }

    proof fn key_lt_irreflexive(a: BazelCompatCellAliasModel) {
        <(String, String)>::key_lt_irreflexive((a.alias, a.cell_name));
    }

    proof fn key_lt_transitive(
        a: BazelCompatCellAliasModel,
        b: BazelCompatCellAliasModel,
        c: BazelCompatCellAliasModel,
    ) {
        <(String, String)>::key_lt_transitive(
            (a.alias, a.cell_name),
            (b.alias, b.cell_name),
            (c.alias, c.cell_name),
        );
    }

    proof fn key_lt_total(a: BazelCompatCellAliasModel, b: BazelCompatCellAliasModel) {
        <(String, String)>::key_lt_total((a.alias, a.cell_name), (b.alias, b.cell_name));
    }

    fn precedes(&self, other: &Self) -> (r: bool) {
        if self.alias.precedes(&other.alias) {
            return true;
        }
        if !self.alias.same_key(&other.alias) {
            return false;
        }
        self.cell_name.precedes(&other.cell_name)
    }

    fn same_key(&self, other: &Self) -> (r: bool) {
        self.alias.same_key(&other.alias) && self.cell_name.same_key(&other.cell_name)
    }
}

/// A module that a registry, an archive or a directory provides.
#[derive(Debug, PartialEq, Eq)]
pub struct ResolvedRegistryModule {
    pub cell_name: String,
    pub aliases: Vec<String>,
    pub module_name: String,
    pub version: String,
    pub canonical_repo_name: String,
    pub local_path: Option<String>,
    pub url: String,
    pub urls_json: String,
    pub integrity: String,
    pub strip_prefix: Option<String>,
    pub archive_type: Option<String>,
    pub patches: Vec<BzlmodPatchConfig>,
    pub overlays: Vec<BzlmodOverlayConfig>,
    pub patch_strip: u32,
}

/// The model of [`ResolvedRegistryModule`].
pub struct ResolvedRegistryModuleModel {
    pub cell_name: Text,
    pub aliases: Seq<Text>,
    pub module_name: Text,
    pub version: Text,
    pub canonical_repo_name: Text,
    pub local_path: Option<Text>,
    pub url: Text,
    pub urls_json: Text,
    pub integrity: Text,
    pub strip_prefix: Option<Text>,
    pub archive_type: Option<Text>,
    pub patches: Seq<BzlmodPatchConfigModel>,
    pub overlays: Seq<BzlmodOverlayConfigModel>,
    pub patch_strip: u32,
}

impl DeepView for ResolvedRegistryModule {
    type V = ResolvedRegistryModuleModel;

    open spec fn deep_view(&self) -> ResolvedRegistryModuleModel {
        ResolvedRegistryModuleModel {
            cell_name: self.cell_name.deep_view(),
            aliases: self.aliases.deep_view(),
            module_name: self.module_name.deep_view(),
            version: self.version.deep_view(),
            canonical_repo_name: self.canonical_repo_name.deep_view(),
            local_path: self.local_path.deep_view(),
            url: self.url.deep_view(),
            urls_json: self.urls_json.deep_view(),
            integrity: self.integrity.deep_view(),
            strip_prefix: self.strip_prefix.deep_view(),
            archive_type: self.archive_type.deep_view(),
            patches: self.patches.deep_view(),
            overlays: self.overlays.deep_view(),
            patch_strip: self.patch_strip.deep_view(),
        }
    }
}

impl Duplicate for ResolvedRegistryModule {
    fn duplicate(&self) -> (r: Self) {
        ResolvedRegistryModule {
            cell_name: self.cell_name.duplicate(),
            aliases: self.aliases.duplicate(),
            module_name: self.module_name.duplicate(),
            version: self.version.duplicate(),
            canonical_repo_name: self.canonical_repo_name.duplicate(),
            local_path: self.local_path.duplicate(),
            url: self.url.duplicate(),
            urls_json: self.urls_json.duplicate(),
            integrity: self.integrity.duplicate(),
            strip_prefix: self.strip_prefix.duplicate(),
            archive_type: self.archive_type.duplicate(),
            patches: self.patches.duplicate(),
            overlays: self.overlays.duplicate(),
            patch_strip: self.patch_strip.duplicate(),
        }
    }
}

/// A repository whose contents are generated.
#[derive(Debug, PartialEq, Eq)]
pub struct ResolvedGeneratedModule {
    pub cell_name: String,
    pub aliases: Vec<String>,
    pub canonical_repo_name: String,
    pub generator: BzlmodGeneratedCellGenerator,
}

/// The model of [`ResolvedGeneratedModule`].
pub struct ResolvedGeneratedModuleModel {
    pub cell_name: Text,
    pub aliases: Seq<Text>,
    pub canonical_repo_name: Text,
    pub generator: BzlmodGeneratedCellGeneratorModel,
}

impl DeepView for ResolvedGeneratedModule {
    type V = ResolvedGeneratedModuleModel;

    open spec fn deep_view(&self) -> ResolvedGeneratedModuleModel {
        ResolvedGeneratedModuleModel {
            cell_name: self.cell_name.deep_view(),
            aliases: self.aliases.deep_view(),
            canonical_repo_name: self.canonical_repo_name.deep_view(),
            generator: self.generator.deep_view(),
        }
    }
}

impl Duplicate for ResolvedGeneratedModule {
    fn duplicate(&self) -> (r: Self) {
        ResolvedGeneratedModule {
            cell_name: self.cell_name.duplicate(),
            aliases: self.aliases.duplicate(),
            canonical_repo_name: self.canonical_repo_name.duplicate(),
            generator: self.generator.duplicate(),
        }
    }
}

/// A repository outside the project.
#[derive(Debug, PartialEq, Eq)]
pub enum ResolvedExternalModule {
    Registry(ResolvedRegistryModule),
    Generated(ResolvedGeneratedModule),
}

/// The model of [`ResolvedExternalModule`].
pub enum ResolvedExternalModuleModel {
    Registry(ResolvedRegistryModuleModel),
    Generated(ResolvedGeneratedModuleModel),
}

impl DeepView for ResolvedExternalModule {
    type V = ResolvedExternalModuleModel;

    open spec fn deep_view(&self) -> ResolvedExternalModuleModel {
        match self {
            ResolvedExternalModule::Registry(s) => {
                ResolvedExternalModuleModel::Registry(s.deep_view())
            },
            ResolvedExternalModule::Generated(s) => {
                ResolvedExternalModuleModel::Generated(s.deep_view())
            },
        }
    }
}

impl Duplicate for ResolvedExternalModule {
    fn duplicate(&self) -> (r: Self) {
        match self {
            ResolvedExternalModule::Registry(s) => ResolvedExternalModule::Registry(s.duplicate()),
            ResolvedExternalModule::Generated(s) => {
                ResolvedExternalModule::Generated(s.duplicate())
            },
        }
    }
}

/// What a graph resolves to.
#[derive(Debug, PartialEq, Eq)]
pub struct BcrResolution {
    pub external_modules: Vec<ResolvedExternalModule>,
    pub root_aliases: Vec<BazelCompatCellAlias>,
    pub cell_aliases: KeyMap<String, Vec<BazelCompatCellAlias>>,
    pub registered_toolchains: Vec<String>,
}

/// The model of [`BcrResolution`].
pub struct BcrResolutionModel {
    pub external_modules: Seq<ResolvedExternalModuleModel>,
    pub root_aliases: Seq<BazelCompatCellAliasModel>,
    pub cell_aliases: Seq<(Text, Seq<BazelCompatCellAliasModel>)>,
    pub registered_toolchains: Seq<Text>,
}

impl DeepView for BcrResolution {
    type V = BcrResolutionModel;

    open spec fn deep_view(&self) -> BcrResolutionModel {
        BcrResolutionModel {
            external_modules: self.external_modules.deep_view(),
            root_aliases: self.root_aliases.deep_view(),
            cell_aliases: self.cell_aliases.deep_view(),
            registered_toolchains: self.registered_toolchains.deep_view(),
        }
    }
}

impl Duplicate for BcrResolution {
    fn duplicate(&self) -> (r: Self) {
        BcrResolution {
            external_modules: self.external_modules.duplicate(),
            root_aliases: self.root_aliases.duplicate(),
            cell_aliases: self.cell_aliases.duplicate(),
            registered_toolchains: self.registered_toolchains.duplicate(),
        }
    }
}

/// The repositories generated so far: the aliases of each cell, the repositories,
/// the cell whose aliases each of them shares, and by extension the repositories
/// and overrides.
#[derive(Debug, PartialEq, Eq)]
pub struct GeneratedRepos {
    pub aliases: KeyMap<String, KeyMap<String, String>>,
    pub modules: Vec<ResolvedExternalModule>,
    pub declaring_cells: Vec<(String, String)>,
    pub repo_groups: KeyMap<String, Vec<(String, String)>>,
    pub override_groups: KeyMap<String, Vec<(String, String)>>,
}

/// The model of [`GeneratedRepos`].
pub struct GeneratedReposModel {
    pub aliases: Seq<(Text, Seq<(Text, Text)>)>,
    pub modules: Seq<ResolvedExternalModuleModel>,
    pub declaring_cells: Seq<(Text, Text)>,
    pub repo_groups: Seq<(Text, Seq<(Text, Text)>)>,
    pub override_groups: Seq<(Text, Seq<(Text, Text)>)>,
}

impl DeepView for GeneratedRepos {
    type V = GeneratedReposModel;

    open spec fn deep_view(&self) -> GeneratedReposModel {
        GeneratedReposModel {
            aliases: self.aliases.deep_view(),
            modules: self.modules.deep_view(),
            declaring_cells: self.declaring_cells.deep_view(),
            repo_groups: self.repo_groups.deep_view(),
            override_groups: self.override_groups.deep_view(),
        }
    }
}

impl Duplicate for GeneratedRepos {
    fn duplicate(&self) -> (r: Self) {
        GeneratedRepos {
            aliases: self.aliases.duplicate(),
            modules: self.modules.duplicate(),
            declaring_cells: self.declaring_cells.duplicate(),
            repo_groups: self.repo_groups.duplicate(),
            override_groups: self.override_groups.duplicate(),
        }
    }
}

/// A module of a registry as configuration holds it: patches and overlays as JSON.
#[derive(Debug, PartialEq, Eq)]
pub struct BazelCompatRegistryModule {
    pub cell_name: String,
    pub aliases: Vec<String>,
    pub module_name: String,
    pub version: String,
    pub canonical_repo_name: String,
    pub local_path: Option<String>,
    pub url: String,
    pub urls_json: String,
    pub integrity: String,
    pub strip_prefix: Option<String>,
    pub archive_type: Option<String>,
    pub patches_json: String,
    pub overlays_json: String,
    pub patch_strip: u32,
}

/// The model of [`BazelCompatRegistryModule`].
pub struct BazelCompatRegistryModuleModel {
    pub cell_name: Text,
    pub aliases: Seq<Text>,
    pub module_name: Text,
    pub version: Text,
    pub canonical_repo_name: Text,
    pub local_path: Option<Text>,
    pub url: Text,
    pub urls_json: Text,
    pub integrity: Text,
    pub strip_prefix: Option<Text>,
    pub archive_type: Option<Text>,
    pub patches_json: Text,
    pub overlays_json: Text,
    pub patch_strip: u32,
}

impl DeepView for BazelCompatRegistryModule {
    type V = BazelCompatRegistryModuleModel;

    open spec fn deep_view(&self) -> BazelCompatRegistryModuleModel {
        BazelCompatRegistryModuleModel {
            cell_name: self.cell_name.deep_view(),
            aliases: self.aliases.deep_view(),
            module_name: self.module_name.deep_view(),
            version: self.version.deep_view(),
            canonical_repo_name: self.canonical_repo_name.deep_view(),
            local_path: self.local_path.deep_view(),
            url: self.url.deep_view(),
            urls_json: self.urls_json.deep_view(),
            integrity: self.integrity.deep_view(),
            strip_prefix: self.strip_prefix.deep_view(),
            archive_type: self.archive_type.deep_view(),
            patches_json: self.patches_json.deep_view(),
            overlays_json: self.overlays_json.deep_view(),
            patch_strip: self.patch_strip.deep_view(),
        }
    }
}

impl Duplicate for BazelCompatRegistryModule {
    fn duplicate(&self) -> (r: Self) {
        BazelCompatRegistryModule {
            cell_name: self.cell_name.duplicate(),
            aliases: self.aliases.duplicate(),
            module_name: self.module_name.duplicate(),
            version: self.version.duplicate(),
            canonical_repo_name: self.canonical_repo_name.duplicate(),
            local_path: self.local_path.duplicate(),
            url: self.url.duplicate(),
            urls_json: self.urls_json.duplicate(),
            integrity: self.integrity.duplicate(),
            strip_prefix: self.strip_prefix.duplicate(),
            archive_type: self.archive_type.duplicate(),
            patches_json: self.patches_json.duplicate(),
            overlays_json: self.overlays_json.duplicate(),
            patch_strip: self.patch_strip.duplicate(),
        }
    }
}

/// A generated repository as configuration holds it: its generator as JSON.
#[derive(Debug, PartialEq, Eq)]
pub struct BazelCompatGeneratedModule {
    pub cell_name: String,
    pub aliases: Vec<String>,
    pub canonical_repo_name: String,
    pub generator_json: String,
}

/// The model of [`BazelCompatGeneratedModule`].
pub struct BazelCompatGeneratedModuleModel {
    pub cell_name: Text,
    pub aliases: Seq<Text>,
    pub canonical_repo_name: Text,
    pub generator_json: Text,
}

impl DeepView for BazelCompatGeneratedModule {
    type V = BazelCompatGeneratedModuleModel;

    open spec fn deep_view(&self) -> BazelCompatGeneratedModuleModel {
        BazelCompatGeneratedModuleModel {
            cell_name: self.cell_name.deep_view(),
            aliases: self.aliases.deep_view(),
            canonical_repo_name: self.canonical_repo_name.deep_view(),
            generator_json: self.generator_json.deep_view(),
        }
    }
}

impl Duplicate for BazelCompatGeneratedModule {
    fn duplicate(&self) -> (r: Self) {
        BazelCompatGeneratedModule {
            cell_name: self.cell_name.duplicate(),
            aliases: self.aliases.duplicate(),
            canonical_repo_name: self.canonical_repo_name.duplicate(),
            generator_json: self.generator_json.duplicate(),
        }
    }
}

/// A repository outside the project as configuration holds it.
#[derive(Debug, PartialEq, Eq)]
pub enum BazelCompatExternalModule {
    Registry(BazelCompatRegistryModule),
    Generated(BazelCompatGeneratedModule),
}

/// The model of [`BazelCompatExternalModule`].
pub enum BazelCompatExternalModuleModel {
    Registry(BazelCompatRegistryModuleModel),
    Generated(BazelCompatGeneratedModuleModel),
}

impl DeepView for BazelCompatExternalModule {
    type V = BazelCompatExternalModuleModel;

    open spec fn deep_view(&self) -> BazelCompatExternalModuleModel {
        match self {
            BazelCompatExternalModule::Registry(s) => {
                BazelCompatExternalModuleModel::Registry(s.deep_view())
            },
            BazelCompatExternalModule::Generated(s) => {
                BazelCompatExternalModuleModel::Generated(s.deep_view())
            },
        }
    }
}

impl Duplicate for BazelCompatExternalModule {
    fn duplicate(&self) -> (r: Self) {
        match self {
            BazelCompatExternalModule::Registry(s) => {
                BazelCompatExternalModule::Registry(s.duplicate())
            },
            BazelCompatExternalModule::Generated(s) => {
                BazelCompatExternalModule::Generated(s.duplicate())
            },
        }
    }
}

/// The options that `.bazelrc` files give.
#[derive(Debug, PartialEq, Eq)]
pub struct BazelCompatBazelrcOptions {
    pub copt: Vec<String>,
    pub conlyopt: Vec<String>,
    pub cxxopt: Vec<String>,
    pub host_copt: Vec<String>,
    pub host_conlyopt: Vec<String>,
    pub host_cxxopt: Vec<String>,
    pub per_file_copt: Vec<String>,
    pub macos_minimum_os: Vec<String>,
    pub host_macos_minimum_os: Vec<String>,
    pub command_line_build_settings: Vec<String>,
}

/// The model of [`BazelCompatBazelrcOptions`].
pub struct BazelCompatBazelrcOptionsModel {
    pub copt: Seq<Text>,
    pub conlyopt: Seq<Text>,
    pub cxxopt: Seq<Text>,
    pub host_copt: Seq<Text>,
    pub host_conlyopt: Seq<Text>,
    pub host_cxxopt: Seq<Text>,
    pub per_file_copt: Seq<Text>,
    pub macos_minimum_os: Seq<Text>,
    pub host_macos_minimum_os: Seq<Text>,
    pub command_line_build_settings: Seq<Text>,
}

impl DeepView for BazelCompatBazelrcOptions {
    type V = BazelCompatBazelrcOptionsModel;

    open spec fn deep_view(&self) -> BazelCompatBazelrcOptionsModel {
        BazelCompatBazelrcOptionsModel {
            copt: self.copt.deep_view(),
            conlyopt: self.conlyopt.deep_view(),
            cxxopt: self.cxxopt.deep_view(),
            host_copt: self.host_copt.deep_view(),
            host_conlyopt: self.host_conlyopt.deep_view(),
            host_cxxopt: self.host_cxxopt.deep_view(),
            per_file_copt: self.per_file_copt.deep_view(),
            macos_minimum_os: self.macos_minimum_os.deep_view(),
            host_macos_minimum_os: self.host_macos_minimum_os.deep_view(),
            command_line_build_settings: self.command_line_build_settings.deep_view(),
        }
    }
}

impl Duplicate for BazelCompatBazelrcOptions {
    fn duplicate(&self) -> (r: Self) {
        BazelCompatBazelrcOptions {
            copt: self.copt.duplicate(),
            conlyopt: self.conlyopt.duplicate(),
            cxxopt: self.cxxopt.duplicate(),
            host_copt: self.host_copt.duplicate(),
            host_conlyopt: self.host_conlyopt.duplicate(),
            host_cxxopt: self.host_cxxopt.duplicate(),
            per_file_copt: self.per_file_copt.duplicate(),
            macos_minimum_os: self.macos_minimum_os.duplicate(),
            host_macos_minimum_os: self.host_macos_minimum_os.duplicate(),
            command_line_build_settings: self.command_line_build_settings.duplicate(),
        }
    }
}

} // verus!
