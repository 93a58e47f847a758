//! Module files and what they declare: data types with their models.

use vstd::prelude::*;
use crate::ordered::{Duplicate, KeyMap, KeySet, OrderedKey};
use crate::text::{Text, strip_prefix};

verus! {

/// An error in what the user wrote; the message says what.
#[derive(Debug, PartialEq, Eq)]
pub struct InputError {
    pub message: String,
}

impl DeepView for InputError {
    type V = Text;

    open spec fn deep_view(&self) -> Text {
        self.message@
    }
}

impl Duplicate for InputError {
    fn duplicate(&self) -> (r: Self) {
        InputError { message: self.message.clone() }
    }
}

/// A module that another one depends on, by name and version, with the name it
/// goes by there.
#[derive(Debug, PartialEq, Eq)]
pub struct BazelDep {
    pub name: String,
    pub version: String,
    pub apparent_name: Option<String>,
}

/// The model of [`BazelDep`].
pub struct BazelDepModel {
    pub name: Text,
    pub version: Text,
    pub apparent_name: Option<Text>,
}

impl DeepView for BazelDep {
    type V = BazelDepModel;

    open spec fn deep_view(&self) -> BazelDepModel {
        BazelDepModel {
            name: self.name.deep_view(),
            version: self.version.deep_view(),
            apparent_name: self.apparent_name.deep_view(),
        }
    }
}

impl Duplicate for BazelDep {
    fn duplicate(&self) -> (r: Self) {
        BazelDep {
            name: self.name.duplicate(),
            version: self.version.duplicate(),
            apparent_name: self.apparent_name.duplicate(),
        }
    }
}

/// A repository of an extension, and the name it is imported under.
#[derive(Debug, PartialEq, Eq)]
pub struct BzlmodUseRepoImport {
    pub alias: String,
    pub repo_name: String,
}

/// The model of [`BzlmodUseRepoImport`].
pub struct BzlmodUseRepoImportModel {
    pub alias: Text,
    pub repo_name: Text,
}

impl DeepView for BzlmodUseRepoImport {
    type V = BzlmodUseRepoImportModel;

    open spec fn deep_view(&self) -> BzlmodUseRepoImportModel {
        BzlmodUseRepoImportModel {
            alias: self.alias.deep_view(),
            repo_name: self.repo_name.deep_view(),
        }
    }
}

impl Duplicate for BzlmodUseRepoImport {
    fn duplicate(&self) -> (r: Self) {
        BzlmodUseRepoImport {
            alias: self.alias.duplicate(),
            repo_name: self.repo_name.duplicate(),
        }
    }
}

/// A repository of an extension that another one takes the place of.
#[derive(Debug, PartialEq, Eq)]
pub struct BzlmodRepoOverride {
    pub repo_name: String,
    pub overriding_repo_name: String,
    pub must_exist: bool,
}

/// The model of [`BzlmodRepoOverride`].
pub struct BzlmodRepoOverrideModel {
    pub repo_name: Text,
    pub overriding_repo_name: Text,
    pub must_exist: bool,
}

impl DeepView for BzlmodRepoOverride {
    type V = BzlmodRepoOverrideModel;

    open spec fn deep_view(&self) -> BzlmodRepoOverrideModel {
        BzlmodRepoOverrideModel {
            repo_name: self.repo_name.deep_view(),
            overriding_repo_name: self.overriding_repo_name.deep_view(),
            must_exist: self.must_exist.deep_view(),
        }
    }
}

impl Duplicate for BzlmodRepoOverride {
    fn duplicate(&self) -> (r: Self) {
        BzlmodRepoOverride {
            repo_name: self.repo_name.duplicate(),
            overriding_repo_name: self.overriding_repo_name.duplicate(),
            must_exist: self.must_exist.duplicate(),
        }
    }
}

impl OrderedKey for BzlmodRepoOverride {
    open spec fn key_lt(a: BzlmodRepoOverrideModel, b: BzlmodRepoOverrideModel) -> bool {
        <(String, (String, bool))>::key_lt(
            (a.repo_name, (a.overriding_repo_name, a.must_exist)),
            (b.repo_name, (b.overriding_repo_name, b.must_exist)),
        )
    }

    proof fn key_lt_irreflexive(a: BzlmodRepoOverrideModel) {
        <(String, (String, bool))>::key_lt_irreflexive(
            (a.repo_name, (a.overriding_repo_name, a.must_exist)),
        );
    }

    proof fn key_lt_transitive(
        a: BzlmodRepoOverrideModel,
        b: BzlmodRepoOverrideModel,
        c: BzlmodRepoOverrideModel,
    ) {
        <(String, (String, bool))>::key_lt_transitive(
            (a.repo_name, (a.overriding_repo_name, a.must_exist)),
            (b.repo_name, (b.overriding_repo_name, b.must_exist)),
            (c.repo_name, (c.overriding_repo_name, c.must_exist)),
        );
    }

    proof fn key_lt_total(a: BzlmodRepoOverrideModel, b: BzlmodRepoOverrideModel) {
        <(String, (String, bool))>::key_lt_total(
            (a.repo_name, (a.overriding_repo_name, a.must_exist)),
            (b.repo_name, (b.overriding_repo_name, b.must_exist)),
        );
    }

    fn precedes(&self, other: &Self) -> (r: bool) {
        if self.repo_name.precedes(&other.repo_name) {
            return true;
        }
        if !self.repo_name.same_key(&other.repo_name) {
            return false;
        }
        if self.overriding_repo_name.precedes(&other.overriding_repo_name) {
            return true;
        }
        if !self.overriding_repo_name.same_key(&other.overriding_repo_name) {
            return false;
        }
        self.must_exist.precedes(&other.must_exist)
    }

    fn same_key(&self, other: &Self) -> (r: bool) {
        self.repo_name.same_key(&other.repo_name)
            && self.overriding_repo_name.same_key(&other.overriding_repo_name)
            && self.must_exist.same_key(&other.must_exist)
    }
}

/// A tag that a module gives an extension: its arguments as written, and the
/// names bound around it.
#[derive(Debug, PartialEq, Eq)]
pub struct BzlmodExtensionTag {
    pub tag_name: String,
    pub bindings: Vec<(String, String)>,
    pub kwargs: Vec<(String, String)>,
}

/// The model of [`BzlmodExtensionTag`].
pub struct BzlmodExtensionTagModel {
    pub tag_name: Text,
    pub bindings: Seq<(Text, Text)>,
    pub kwargs: Seq<(Text, Text)>,
}

impl DeepView for BzlmodExtensionTag {
    type V = BzlmodExtensionTagModel;

    open spec fn deep_view(&self) -> BzlmodExtensionTagModel {
        BzlmodExtensionTagModel {
            tag_name: self.tag_name.deep_view(),
            bindings: self.bindings.deep_view(),
            kwargs: self.kwargs.deep_view(),
        }
    }
}

impl Duplicate for BzlmodExtensionTag {
    fn duplicate(&self) -> (r: Self) {
        BzlmodExtensionTag {
            tag_name: self.tag_name.duplicate(),
            bindings: self.bindings.duplicate(),
            kwargs: self.kwargs.duplicate(),
        }
    }
}

/// The use of an extension in a module file.
#[derive(Debug, PartialEq, Eq)]
pub struct BzlmodExtensionUsage {
    pub proxy_name: String,
    pub extension_bzl_file: String,
    pub extension_name: String,
    pub dev_dependency: bool,
    pub imports: Vec<BzlmodUseRepoImport>,
    pub repo_overrides: Vec<BzlmodRepoOverride>,
    pub tags: Vec<BzlmodExtensionTag>,
}

/// The model of [`BzlmodExtensionUsage`].
pub struct BzlmodExtensionUsageModel {
    pub proxy_name: Text,
    pub extension_bzl_file: Text,
    pub extension_name: Text,
    pub dev_dependency: bool,
    pub imports: Seq<BzlmodUseRepoImportModel>,
    pub repo_overrides: Seq<BzlmodRepoOverrideModel>,
    pub tags: Seq<BzlmodExtensionTagModel>,
}

impl DeepView for BzlmodExtensionUsage {
    type V = BzlmodExtensionUsageModel;

    open spec fn deep_view(&self) -> BzlmodExtensionUsageModel {
        BzlmodExtensionUsageModel {
            proxy_name: self.proxy_name.deep_view(),
            extension_bzl_file: self.extension_bzl_file.deep_view(),
            extension_name: self.extension_name.deep_view(),
            dev_dependency: self.dev_dependency.deep_view(),
            imports: self.imports.deep_view(),
            repo_overrides: self.repo_overrides.deep_view(),
            tags: self.tags.deep_view(),
        }
    }
}

impl Duplicate for BzlmodExtensionUsage {
    fn duplicate(&self) -> (r: Self) {
        BzlmodExtensionUsage {
            proxy_name: self.proxy_name.duplicate(),
            extension_bzl_file: self.extension_bzl_file.duplicate(),
            extension_name: self.extension_name.duplicate(),
            dev_dependency: self.dev_dependency.duplicate(),
            imports: self.imports.duplicate(),
            repo_overrides: self.repo_overrides.duplicate(),
            tags: self.tags.duplicate(),
        }
    }
}

/// A repository declared by a repository rule in a module file.
#[derive(Debug, PartialEq, Eq)]
pub struct BzlmodUseRepoRuleInvocation {
    pub rule_bzl_file: String,
    pub rule_name: String,
    pub repo_name: String,
    pub attrs: Vec<(String, String)>,
}

/// The model of [`BzlmodUseRepoRuleInvocation`].
pub struct BzlmodUseRepoRuleInvocationModel {
    pub rule_bzl_file: Text,
    pub rule_name: Text,
    pub repo_name: Text,
    pub attrs: Seq<(Text, Text)>,
}

impl DeepView for BzlmodUseRepoRuleInvocation {
    type V = BzlmodUseRepoRuleInvocationModel;

    open spec fn deep_view(&self) -> BzlmodUseRepoRuleInvocationModel {
        BzlmodUseRepoRuleInvocationModel {
            rule_bzl_file: self.rule_bzl_file.deep_view(),
            rule_name: self.rule_name.deep_view(),
            repo_name: self.repo_name.deep_view(),
            attrs: self.attrs.deep_view(),
        }
    }
}

impl Duplicate for BzlmodUseRepoRuleInvocation {
    fn duplicate(&self) -> (r: Self) {
        BzlmodUseRepoRuleInvocation {
            rule_bzl_file: self.rule_bzl_file.duplicate(),
            rule_name: self.rule_name.duplicate(),
            repo_name: self.repo_name.duplicate(),
            attrs: self.attrs.duplicate(),
        }
    }
}

impl OrderedKey for BzlmodUseRepoRuleInvocation {
    open spec fn key_lt(
        a: BzlmodUseRepoRuleInvocationModel,
        b: BzlmodUseRepoRuleInvocationModel,
    ) -> bool {
        <(String, (String, (String, Vec<(String, String)>)))>::key_lt(
            (a.rule_bzl_file, (a.rule_name, (a.repo_name, a.attrs))),
            (b.rule_bzl_file, (b.rule_name, (b.repo_name, b.attrs))),
        )
    }

    proof fn key_lt_irreflexive(a: BzlmodUseRepoRuleInvocationModel) {
        <(String, (String, (String, Vec<(String, String)>)))>::key_lt_irreflexive(
            (a.rule_bzl_file, (a.rule_name, (a.repo_name, a.attrs))),
        );
    }

    proof fn key_lt_transitive(
        a: BzlmodUseRepoRuleInvocationModel,
        b: BzlmodUseRepoRuleInvocationModel,
        c: BzlmodUseRepoRuleInvocationModel,
    ) {
        <(String, (String, (String, Vec<(String, String)>)))>::key_lt_transitive(
            (a.rule_bzl_file, (a.rule_name, (a.repo_name, a.attrs))),
            (b.rule_bzl_file, (b.rule_name, (b.repo_name, b.attrs))),
            (c.rule_bzl_file, (c.rule_name, (c.repo_name, c.attrs))),
        );
    }

    proof fn key_lt_total(
        a: BzlmodUseRepoRuleInvocationModel,
        b: BzlmodUseRepoRuleInvocationModel,
    ) {
        <(String, (String, (String, Vec<(String, String)>)))>::key_lt_total(
            (a.rule_bzl_file, (a.rule_name, (a.repo_name, a.attrs))),
            (b.rule_bzl_file, (b.rule_name, (b.repo_name, b.attrs))),
        );
    }

    fn precedes(&self, other: &Self) -> (r: bool) {
        if self.rule_bzl_file.precedes(&other.rule_bzl_file) {
            return true;
        }
        if !self.rule_bzl_file.same_key(&other.rule_bzl_file) {
            return false;
        }
        if self.rule_name.precedes(&other.rule_name) {
            return true;
        }
        if !self.rule_name.same_key(&other.rule_name) {
            return false;
        }
        if self.repo_name.precedes(&other.repo_name) {
            return true;
        }
        if !self.repo_name.same_key(&other.repo_name) {
            return false;
        }
        self.attrs.precedes(&other.attrs)
    }

    fn same_key(&self, other: &Self) -> (r: bool) {
        self.rule_bzl_file.same_key(&other.rule_bzl_file)
            && self.rule_name.same_key(&other.rule_name)
            && self.repo_name.same_key(&other.repo_name)
            && self.attrs.same_key(&other.attrs)
    }
}

/// The root module.
#[derive(Debug, PartialEq, Eq)]
pub struct RootBzlmodModule {
    pub name: String,
    pub version: String,
    pub repo_name: String,
    pub canonical_repo_name: String,
    pub lockfile_extension_generated_repos: KeyMap<String, KeySet<String>>,
    pub lockfile_extension_facts: KeySet<String>,
    pub constants: Vec<(String, String)>,
    pub extension_usages: Vec<BzlmodExtensionUsage>,
    pub use_repo_rule_invocations: Vec<BzlmodUseRepoRuleInvocation>,
    pub registered_toolchains: Vec<String>,
}

/// The model of [`RootBzlmodModule`].
pub struct RootBzlmodModuleModel {
    pub name: Text,
    pub version: Text,
    pub repo_name: Text,
    pub canonical_repo_name: Text,
    pub lockfile_extension_generated_repos: Seq<(Text, Seq<Text>)>,
    pub lockfile_extension_facts: Seq<Text>,
    pub constants: Seq<(Text, Text)>,
    pub extension_usages: Seq<BzlmodExtensionUsageModel>,
    pub use_repo_rule_invocations: Seq<BzlmodUseRepoRuleInvocationModel>,
    pub registered_toolchains: Seq<Text>,
}

impl DeepView for RootBzlmodModule {
    type V = RootBzlmodModuleModel;

    open spec fn deep_view(&self) -> RootBzlmodModuleModel {
        RootBzlmodModuleModel {
            name: self.name.deep_view(),
            version: self.version.deep_view(),
            repo_name: self.repo_name.deep_view(),
            canonical_repo_name: self.canonical_repo_name.deep_view(),
            lockfile_extension_generated_repos: self.lockfile_extension_generated_repos.deep_view(),
            lockfile_extension_facts: self.lockfile_extension_facts.deep_view(),
            constants: self.constants.deep_view(),
            extension_usages: self.extension_usages.deep_view(),
            use_repo_rule_invocations: self.use_repo_rule_invocations.deep_view(),
            registered_toolchains: self.registered_toolchains.deep_view(),
        }
    }
}

impl Duplicate for RootBzlmodModule {
    fn duplicate(&self) -> (r: Self) {
        RootBzlmodModule {
            name: self.name.duplicate(),
            version: self.version.duplicate(),
            repo_name: self.repo_name.duplicate(),
            canonical_repo_name: self.canonical_repo_name.duplicate(),
            lockfile_extension_generated_repos: self.lockfile_extension_generated_repos.duplicate(),
            lockfile_extension_facts: self.lockfile_extension_facts.duplicate(),
            constants: self.constants.duplicate(),
            extension_usages: self.extension_usages.duplicate(),
            use_repo_rule_invocations: self.use_repo_rule_invocations.duplicate(),
            registered_toolchains: self.registered_toolchains.duplicate(),
        }
    }
}

/// Where a registry says that a module comes from.
#[derive(Debug, PartialEq, Eq)]
pub struct BcrSourceJson {
    pub url: String,
    pub urls: Option<Vec<String>>,
    pub integrity: String,
    pub strip_prefix: Option<String>,
    pub archive_type: Option<String>,
    pub patches: Option<KeyMap<String, String>>,
    pub overlay: Option<KeyMap<String, String>>,
    pub patch_strip: Option<u32>,
}

/// The model of [`BcrSourceJson`].
pub struct BcrSourceJsonModel {
    pub url: Text,
    pub urls: Option<Seq<Text>>,
    pub integrity: Text,
    pub strip_prefix: Option<Text>,
    pub archive_type: Option<Text>,
    pub patches: Option<Seq<(Text, Text)>>,
    pub overlay: Option<Seq<(Text, Text)>>,
    pub patch_strip: Option<u32>,
}

impl DeepView for BcrSourceJson {
    type V = BcrSourceJsonModel;

    open spec fn deep_view(&self) -> BcrSourceJsonModel {
        BcrSourceJsonModel {
            url: self.url.deep_view(),
            urls: self.urls.deep_view(),
            integrity: self.integrity.deep_view(),
            strip_prefix: self.strip_prefix.deep_view(),
            archive_type: self.archive_type.deep_view(),
            patches: self.patches.deep_view(),
            overlay: self.overlay.deep_view(),
            patch_strip: self.patch_strip.deep_view(),
        }
    }
}

impl Duplicate for BcrSourceJson {
    fn duplicate(&self) -> (r: Self) {
        BcrSourceJson {
            url: self.url.duplicate(),
            urls: self.urls.duplicate(),
            integrity: self.integrity.duplicate(),
            strip_prefix: self.strip_prefix.duplicate(),
            archive_type: self.archive_type.duplicate(),
            patches: self.patches.duplicate(),
            overlay: self.overlay.duplicate(),
            patch_strip: self.patch_strip.duplicate(),
        }
    }
}

/// A module as its module file and its registry describe it.
#[derive(Debug, PartialEq, Eq)]
pub struct DiscoveredBcrModule {
    pub dep: BazelDep,
    pub source_json: BcrSourceJson,
    pub module_aliases: Vec<String>,
    pub use_repo_aliases: Vec<String>,
    pub extension_usages: Vec<BzlmodExtensionUsage>,
    pub use_repo_rule_invocations: Vec<BzlmodUseRepoRuleInvocation>,
    pub constants: Vec<(String, String)>,
    pub registered_toolchains: Vec<String>,
    pub deps: Vec<BazelDep>,
}

/// The model of [`DiscoveredBcrModule`].
pub struct DiscoveredBcrModuleModel {
    pub dep: BazelDepModel,
    pub source_json: BcrSourceJsonModel,
    pub module_aliases: Seq<Text>,
    pub use_repo_aliases: Seq<Text>,
    pub extension_usages: Seq<BzlmodExtensionUsageModel>,
    pub use_repo_rule_invocations: Seq<BzlmodUseRepoRuleInvocationModel>,
    pub constants: Seq<(Text, Text)>,
    pub registered_toolchains: Seq<Text>,
    pub deps: Seq<BazelDepModel>,
}

impl DeepView for DiscoveredBcrModule {
    type V = DiscoveredBcrModuleModel;

    open spec fn deep_view(&self) -> DiscoveredBcrModuleModel {
        DiscoveredBcrModuleModel {
            dep: self.dep.deep_view(),
            source_json: self.source_json.deep_view(),
            module_aliases: self.module_aliases.deep_view(),
            use_repo_aliases: self.use_repo_aliases.deep_view(),
            extension_usages: self.extension_usages.deep_view(),
            use_repo_rule_invocations: self.use_repo_rule_invocations.deep_view(),
            constants: self.constants.deep_view(),
            registered_toolchains: self.registered_toolchains.deep_view(),
            deps: self.deps.deep_view(),
        }
    }
}

impl Duplicate for DiscoveredBcrModule {
    fn duplicate(&self) -> (r: Self) {
        DiscoveredBcrModule {
            dep: self.dep.duplicate(),
            source_json: self.source_json.duplicate(),
            module_aliases: self.module_aliases.duplicate(),
            use_repo_aliases: self.use_repo_aliases.duplicate(),
            extension_usages: self.extension_usages.duplicate(),
            use_repo_rule_invocations: self.use_repo_rule_invocations.duplicate(),
            constants: self.constants.duplicate(),
            registered_toolchains: self.registered_toolchains.duplicate(),
            deps: self.deps.duplicate(),
        }
    }
}

/// A patch file of the root module.
#[derive(Debug, PartialEq, Eq)]
pub struct BzlmodRootPatch {
    pub path: String,
    pub content: String,
}

/// The model of [`BzlmodRootPatch`].
pub struct BzlmodRootPatchModel {
    pub path: Text,
    pub content: Text,
}

impl DeepView for BzlmodRootPatch {
    type V = BzlmodRootPatchModel;

    open spec fn deep_view(&self) -> BzlmodRootPatchModel {
        BzlmodRootPatchModel {
            path: self.path.deep_view(),
            content: self.content.deep_view(),
        }
    }
}

impl Duplicate for BzlmodRootPatch {
    fn duplicate(&self) -> (r: Self) {
        BzlmodRootPatch {
            path: self.path.duplicate(),
            content: self.content.duplicate(),
        }
    }
}

/// An archive that a module is taken from in place of its registry entry.
#[derive(Debug, PartialEq, Eq)]
pub struct BzlmodArchiveOverride {
    pub module_name: String,
    pub urls: Vec<String>,
    pub integrity: String,
    pub strip_prefix: Option<String>,
    pub archive_type: Option<String>,
    pub patches: Vec<BzlmodRootPatch>,
    pub patch_strip: Option<u32>,
}

/// The model of [`BzlmodArchiveOverride`].
pub struct BzlmodArchiveOverrideModel {
    pub module_name: Text,
    pub urls: Seq<Text>,
    pub integrity: Text,
    pub strip_prefix: Option<Text>,
    pub archive_type: Option<Text>,
    pub patches: Seq<BzlmodRootPatchModel>,
    pub patch_strip: Option<u32>,
}

impl DeepView for BzlmodArchiveOverride {
    type V = BzlmodArchiveOverrideModel;

    open spec fn deep_view(&self) -> BzlmodArchiveOverrideModel {
        BzlmodArchiveOverrideModel {
            module_name: self.module_name.deep_view(),
            urls: self.urls.deep_view(),
            integrity: self.integrity.deep_view(),
            strip_prefix: self.strip_prefix.deep_view(),
            archive_type: self.archive_type.deep_view(),
            patches: self.patches.deep_view(),
            patch_strip: self.patch_strip.deep_view(),
        }
    }
}

impl Duplicate for BzlmodArchiveOverride {
    fn duplicate(&self) -> (r: Self) {
        BzlmodArchiveOverride {
            module_name: self.module_name.duplicate(),
            urls: self.urls.duplicate(),
            integrity: self.integrity.duplicate(),
            strip_prefix: self.strip_prefix.duplicate(),
            archive_type: self.archive_type.duplicate(),
            patches: self.patches.duplicate(),
            patch_strip: self.patch_strip.duplicate(),
        }
    }
}

/// The one version of a module that counts, and its patches.
#[derive(Debug, PartialEq, Eq)]
pub struct BzlmodSingleVersionOverride {
    pub version: Option<String>,
    pub patches: Vec<BzlmodRootPatch>,
    pub patch_strip: Option<u32>,
}

/// The model of [`BzlmodSingleVersionOverride`].
pub struct BzlmodSingleVersionOverrideModel {
    pub version: Option<Text>,
    pub patches: Seq<BzlmodRootPatchModel>,
    pub patch_strip: Option<u32>,
}

impl DeepView for BzlmodSingleVersionOverride {
    type V = BzlmodSingleVersionOverrideModel;

    open spec fn deep_view(&self) -> BzlmodSingleVersionOverrideModel {
        BzlmodSingleVersionOverrideModel {
            version: self.version.deep_view(),
            patches: self.patches.deep_view(),
            patch_strip: self.patch_strip.deep_view(),
        }
    }
}

impl Duplicate for BzlmodSingleVersionOverride {
    fn duplicate(&self) -> (r: Self) {
        BzlmodSingleVersionOverride {
            version: self.version.duplicate(),
            patches: self.patches.duplicate(),
            patch_strip: self.patch_strip.duplicate(),
        }
    }
}

/// A directory that a module is taken from.
#[derive(Debug, PartialEq, Eq)]
pub struct BzlmodLocalPathOverride {
    pub module_name: String,
    pub path: String,
    pub module_text: String,
}

/// The model of [`BzlmodLocalPathOverride`].
pub struct BzlmodLocalPathOverrideModel {
    pub module_name: Text,
    pub path: Text,
    pub module_text: Text,
}

impl DeepView for BzlmodLocalPathOverride {
    type V = BzlmodLocalPathOverrideModel;

    open spec fn deep_view(&self) -> BzlmodLocalPathOverrideModel {
        BzlmodLocalPathOverrideModel {
            module_name: self.module_name.deep_view(),
            path: self.path.deep_view(),
            module_text: self.module_text.deep_view(),
        }
    }
}

impl Duplicate for BzlmodLocalPathOverride {
    fn duplicate(&self) -> (r: Self) {
        BzlmodLocalPathOverride {
            module_name: self.module_name.duplicate(),
            path: self.path.duplicate(),
            module_text: self.module_text.duplicate(),
        }
    }
}

/// A patch of a module archive.
#[derive(Debug, PartialEq, Eq)]
pub struct BzlmodPatchConfig {
    pub url: String,
    pub integrity: String,
    pub path: Option<String>,
    pub content_sha256: Option<String>,
    pub patch_strip: Option<u32>,
}

/// The model of [`BzlmodPatchConfig`].
pub struct BzlmodPatchConfigModel {
    pub url: Text,
    pub integrity: Text,
    pub path: Option<Text>,
    pub content_sha256: Option<Text>,
    pub patch_strip: Option<u32>,
}

impl DeepView for BzlmodPatchConfig {
    type V = BzlmodPatchConfigModel;

    open spec fn deep_view(&self) -> BzlmodPatchConfigModel {
        BzlmodPatchConfigModel {
            url: self.url.deep_view(),
            integrity: self.integrity.deep_view(),
            path: self.path.deep_view(),
            content_sha256: self.content_sha256.deep_view(),
            patch_strip: self.patch_strip.deep_view(),
        }
    }
}

impl Duplicate for BzlmodPatchConfig {
    fn duplicate(&self) -> (r: Self) {
        BzlmodPatchConfig {
            url: self.url.duplicate(),
            integrity: self.integrity.duplicate(),
            path: self.path.duplicate(),
            content_sha256: self.content_sha256.duplicate(),
            patch_strip: self.patch_strip.duplicate(),
        }
    }
}

/// A file laid over a module archive.
#[derive(Debug, PartialEq, Eq)]
pub struct BzlmodOverlayConfig {
    pub path: String,
    pub url: String,
    pub integrity: String,
}

/// The model of [`BzlmodOverlayConfig`].
pub struct BzlmodOverlayConfigModel {
    pub path: Text,
    pub url: Text,
    pub integrity: Text,
}

impl DeepView for BzlmodOverlayConfig {
    type V = BzlmodOverlayConfigModel;

    open spec fn deep_view(&self) -> BzlmodOverlayConfigModel {
        BzlmodOverlayConfigModel {
            path: self.path.deep_view(),
            url: self.url.deep_view(),
            integrity: self.integrity.deep_view(),
        }
    }
}

impl Duplicate for BzlmodOverlayConfig {
    fn duplicate(&self) -> (r: Self) {
        BzlmodOverlayConfig {
            path: self.path.duplicate(),
            url: self.url.duplicate(),
            integrity: self.integrity.duplicate(),
        }
    }
}

/// An extension, by the file that defines it and its name there.
#[derive(Debug, PartialEq, Eq)]
pub struct BzlmodExtensionId {
    pub bzl_cell_name: String,
    pub bzl_path: String,
    pub extension_name: String,
}

/// The model of [`BzlmodExtensionId`].
pub struct BzlmodExtensionIdModel {
    pub bzl_cell_name: Text,
    pub bzl_path: Text,
    pub extension_name: Text,
}

impl DeepView for BzlmodExtensionId {
    type V = BzlmodExtensionIdModel;

    open spec fn deep_view(&self) -> BzlmodExtensionIdModel {
        BzlmodExtensionIdModel {
            bzl_cell_name: self.bzl_cell_name.deep_view(),
            bzl_path: self.bzl_path.deep_view(),
            extension_name: self.extension_name.deep_view(),
        }
    }
}

impl Duplicate for BzlmodExtensionId {
    fn duplicate(&self) -> (r: Self) {
        BzlmodExtensionId {
            bzl_cell_name: self.bzl_cell_name.duplicate(),
            bzl_path: self.bzl_path.duplicate(),
            extension_name: self.extension_name.duplicate(),
        }
    }
}

impl OrderedKey for BzlmodExtensionId {
    open spec fn key_lt(a: BzlmodExtensionIdModel, b: BzlmodExtensionIdModel) -> bool {
        <(String, (String, String))>::key_lt(
            (a.bzl_cell_name, (a.bzl_path, a.extension_name)),
            (b.bzl_cell_name, (b.bzl_path, b.extension_name)),
        )
    }

    proof fn key_lt_irreflexive(a: BzlmodExtensionIdModel) {
        <(String, (String, String))>::key_lt_irreflexive(
            (a.bzl_cell_name, (a.bzl_path, a.extension_name)),
        );
    }

    proof fn key_lt_transitive(
        a: BzlmodExtensionIdModel,
        b: BzlmodExtensionIdModel,
        c: BzlmodExtensionIdModel,
    ) {
        <(String, (String, String))>::key_lt_transitive(
            (a.bzl_cell_name, (a.bzl_path, a.extension_name)),
            (b.bzl_cell_name, (b.bzl_path, b.extension_name)),
            (c.bzl_cell_name, (c.bzl_path, c.extension_name)),
        );
    }

    proof fn key_lt_total(a: BzlmodExtensionIdModel, b: BzlmodExtensionIdModel) {
        <(String, (String, String))>::key_lt_total(
            (a.bzl_cell_name, (a.bzl_path, a.extension_name)),
            (b.bzl_cell_name, (b.bzl_path, b.extension_name)),
        );
    }

    fn precedes(&self, other: &Self) -> (r: bool) {
        if self.bzl_cell_name.precedes(&other.bzl_cell_name) {
            return true;
        }
        if !self.bzl_cell_name.same_key(&other.bzl_cell_name) {
            return false;
        }
        if self.bzl_path.precedes(&other.bzl_path) {
            return true;
        }
        if !self.bzl_path.same_key(&other.bzl_path) {
            return false;
        }
        self.extension_name.precedes(&other.extension_name)
    }

    fn same_key(&self, other: &Self) -> (r: bool) {
        self.bzl_cell_name.same_key(&other.bzl_cell_name)
            && self.bzl_path.same_key(&other.bzl_path)
            && self.extension_name.same_key(&other.extension_name)
    }
}

/// An extension with the name that is its own among all extensions.
#[derive(Debug, PartialEq, Eq)]
pub struct BzlmodResolvedExtension {
    pub id: BzlmodExtensionId,
    pub unique_name: String,
}

/// The model of [`BzlmodResolvedExtension`].
pub struct BzlmodResolvedExtensionModel {
    pub id: BzlmodExtensionIdModel,
    pub unique_name: Text,
}

impl DeepView for BzlmodResolvedExtension {
    type V = BzlmodResolvedExtensionModel;

    open spec fn deep_view(&self) -> BzlmodResolvedExtensionModel {
        BzlmodResolvedExtensionModel {
            id: self.id.deep_view(),
            unique_name: self.unique_name.deep_view(),
        }
    }
}

impl Duplicate for BzlmodResolvedExtension {
    fn duplicate(&self) -> (r: Self) {
        BzlmodResolvedExtension {
            id: self.id.duplicate(),
            unique_name: self.unique_name.duplicate(),
        }
    }
}

/// A registry as the lockfile knows it: the hashes of its files, and the yanked
/// versions that were selected nevertheless.
#[derive(Debug, PartialEq, Eq)]
pub struct BzlmodRegistryValue {
    pub url: String,
    pub registry_file_hashes: KeyMap<String, Option<String>>,
    pub selected_yanked_versions: KeyMap<(String, String), String>,
}

/// The model of [`BzlmodRegistryValue`].
pub struct BzlmodRegistryValueModel {
    pub url: Text,
    pub registry_file_hashes: Seq<(Text, Option<Text>)>,
    pub selected_yanked_versions: Seq<((Text, Text), Text)>,
}

impl DeepView for BzlmodRegistryValue {
    type V = BzlmodRegistryValueModel;

    open spec fn deep_view(&self) -> BzlmodRegistryValueModel {
        BzlmodRegistryValueModel {
            url: self.url.deep_view(),
            registry_file_hashes: self.registry_file_hashes.deep_view(),
            selected_yanked_versions: self.selected_yanked_versions.deep_view(),
        }
    }
}

impl Duplicate for BzlmodRegistryValue {
    fn duplicate(&self) -> (r: Self) {
        BzlmodRegistryValue {
            url: self.url.duplicate(),
            registry_file_hashes: self.registry_file_hashes.duplicate(),
            selected_yanked_versions: self.selected_yanked_versions.duplicate(),
        }
    }
}

/// The yanked versions that are allowed.
#[derive(Debug, PartialEq, Eq)]
pub struct BzlmodAllowedYankedVersionsValue {
    pub allow_all: bool,
    pub modules: KeySet<(String, String)>,
}

/// The model of [`BzlmodAllowedYankedVersionsValue`].
pub struct BzlmodAllowedYankedVersionsValueModel {
    pub allow_all: bool,
    pub modules: Seq<(Text, Text)>,
}

impl DeepView for BzlmodAllowedYankedVersionsValue {
    type V = BzlmodAllowedYankedVersionsValueModel;

    open spec fn deep_view(&self) -> BzlmodAllowedYankedVersionsValueModel {
        BzlmodAllowedYankedVersionsValueModel {
            allow_all: self.allow_all.deep_view(),
            modules: self.modules.deep_view(),
        }
    }
}

impl Duplicate for BzlmodAllowedYankedVersionsValue {
    fn duplicate(&self) -> (r: Self) {
        BzlmodAllowedYankedVersionsValue {
            allow_all: self.allow_all.duplicate(),
            modules: self.modules.duplicate(),
        }
    }
}

/// The versions selected among those discovered.
#[derive(Debug, PartialEq, Eq)]
pub struct BzlmodSelectionResult {
    pub discovered: KeyMap<(String, String), DiscoveredBcrModule>,
    pub selected_keys: KeySet<(String, String)>,
    pub selected_keys_in_bfs_order: Vec<(String, String)>,
    pub selected_keys_in_dependency_order: Vec<(String, String)>,
    pub canonical_repo_names_by_key: KeyMap<(String, String), String>,
}

/// The model of [`BzlmodSelectionResult`].
pub struct BzlmodSelectionResultModel {
    pub discovered: Seq<((Text, Text), DiscoveredBcrModuleModel)>,
    pub selected_keys: Seq<(Text, Text)>,
    pub selected_keys_in_bfs_order: Seq<(Text, Text)>,
    pub selected_keys_in_dependency_order: Seq<(Text, Text)>,
    pub canonical_repo_names_by_key: Seq<((Text, Text), Text)>,
}

impl DeepView for BzlmodSelectionResult {
    type V = BzlmodSelectionResultModel;

    open spec fn deep_view(&self) -> BzlmodSelectionResultModel {
        BzlmodSelectionResultModel {
            discovered: self.discovered.deep_view(),
            selected_keys: self.selected_keys.deep_view(),
            selected_keys_in_bfs_order: self.selected_keys_in_bfs_order.deep_view(),
            selected_keys_in_dependency_order: self.selected_keys_in_dependency_order.deep_view(),
            canonical_repo_names_by_key: self.canonical_repo_names_by_key.deep_view(),
        }
    }
}

impl Duplicate for BzlmodSelectionResult {
    fn duplicate(&self) -> (r: Self) {
        BzlmodSelectionResult {
            discovered: self.discovered.duplicate(),
            selected_keys: self.selected_keys.duplicate(),
            selected_keys_in_bfs_order: self.selected_keys_in_bfs_order.duplicate(),
            selected_keys_in_dependency_order: self.selected_keys_in_dependency_order.duplicate(),
            canonical_repo_names_by_key: self.canonical_repo_names_by_key.duplicate(),
        }
    }
}

/// The graph of selected modules, with the names that go with it.
#[derive(Debug, PartialEq, Eq)]
pub struct BzlmodDepGraph {
    pub root_module: RootBzlmodModule,
    pub discovered: KeyMap<(String, String), DiscoveredBcrModule>,
    pub selected_keys: KeySet<(String, String)>,
    pub selected_keys_in_bfs_order: Vec<(String, String)>,
    pub selected_keys_in_dependency_order: Vec<(String, String)>,
    pub canonical_repo_names_by_key: KeyMap<(String, String), String>,
    pub canonical_repo_names_by_cell: KeyMap<String, String>,
    pub root_aliases_by_key: KeyMap<(String, String), KeySet<String>>,
    pub cell_aliases_by_cell: KeyMap<String, KeyMap<String, String>>,
    pub extension_eval_cell_aliases_by_cell: KeyMap<String, KeyMap<String, String>>,
    pub extension_unique_names: KeyMap<BzlmodExtensionId, String>,
}

/// The model of [`BzlmodDepGraph`].
pub struct BzlmodDepGraphModel {
    pub root_module: RootBzlmodModuleModel,
    pub discovered: Seq<((Text, Text), DiscoveredBcrModuleModel)>,
    pub selected_keys: Seq<(Text, Text)>,
    pub selected_keys_in_bfs_order: Seq<(Text, Text)>,
    pub selected_keys_in_dependency_order: Seq<(Text, Text)>,
    pub canonical_repo_names_by_key: Seq<((Text, Text), Text)>,
    pub canonical_repo_names_by_cell: Seq<(Text, Text)>,
    pub root_aliases_by_key: Seq<((Text, Text), Seq<Text>)>,
    pub cell_aliases_by_cell: Seq<(Text, Seq<(Text, Text)>)>,
    pub extension_eval_cell_aliases_by_cell: Seq<(Text, Seq<(Text, Text)>)>,
    pub extension_unique_names: Seq<(BzlmodExtensionIdModel, Text)>,
}

impl DeepView for BzlmodDepGraph {
    type V = BzlmodDepGraphModel;

    open spec fn deep_view(&self) -> BzlmodDepGraphModel {
        BzlmodDepGraphModel {
            root_module: self.root_module.deep_view(),
            discovered: self.discovered.deep_view(),
            selected_keys: self.selected_keys.deep_view(),
            selected_keys_in_bfs_order: self.selected_keys_in_bfs_order.deep_view(),
            selected_keys_in_dependency_order: self.selected_keys_in_dependency_order.deep_view(),
            canonical_repo_names_by_key: self.canonical_repo_names_by_key.deep_view(),
            canonical_repo_names_by_cell: self.canonical_repo_names_by_cell.deep_view(),
            root_aliases_by_key: self.root_aliases_by_key.deep_view(),
            cell_aliases_by_cell: self.cell_aliases_by_cell.deep_view(),
            extension_eval_cell_aliases_by_cell: self.extension_eval_cell_aliases_by_cell
                .deep_view(),
            extension_unique_names: self.extension_unique_names.deep_view(),
        }
    }
}

impl Duplicate for BzlmodDepGraph {
    fn duplicate(&self) -> (r: Self) {
        BzlmodDepGraph {
            root_module: self.root_module.duplicate(),
            discovered: self.discovered.duplicate(),
            selected_keys: self.selected_keys.duplicate(),
            selected_keys_in_bfs_order: self.selected_keys_in_bfs_order.duplicate(),
            selected_keys_in_dependency_order: self.selected_keys_in_dependency_order.duplicate(),
            canonical_repo_names_by_key: self.canonical_repo_names_by_key.duplicate(),
            canonical_repo_names_by_cell: self.canonical_repo_names_by_cell.duplicate(),
            root_aliases_by_key: self.root_aliases_by_key.duplicate(),
            cell_aliases_by_cell: self.cell_aliases_by_cell.duplicate(),
            extension_eval_cell_aliases_by_cell: self.extension_eval_cell_aliases_by_cell
                .duplicate(),
            extension_unique_names: self.extension_unique_names.duplicate(),
        }
    }
}

/// What the lockfile records.
#[derive(Debug, PartialEq, Eq)]
pub struct BzlmodModuleLockfileData {
    pub registry_file_hashes: KeyMap<String, Option<String>>,
    pub selected_yanked_versions: KeyMap<(String, String), String>,
    pub extension_generated_repos: KeyMap<String, KeySet<String>>,
    pub extension_facts: KeySet<String>,
}

/// The model of [`BzlmodModuleLockfileData`].
pub struct BzlmodModuleLockfileDataModel {
    pub registry_file_hashes: Seq<(Text, Option<Text>)>,
    pub selected_yanked_versions: Seq<((Text, Text), Text)>,
    pub extension_generated_repos: Seq<(Text, Seq<Text>)>,
    pub extension_facts: Seq<Text>,
}

impl DeepView for BzlmodModuleLockfileData {
    type V = BzlmodModuleLockfileDataModel;

    open spec fn deep_view(&self) -> BzlmodModuleLockfileDataModel {
        BzlmodModuleLockfileDataModel {
            registry_file_hashes: self.registry_file_hashes.deep_view(),
            selected_yanked_versions: self.selected_yanked_versions.deep_view(),
            extension_generated_repos: self.extension_generated_repos.deep_view(),
            extension_facts: self.extension_facts.deep_view(),
        }
    }
}

impl Duplicate for BzlmodModuleLockfileData {
    fn duplicate(&self) -> (r: Self) {
        BzlmodModuleLockfileData {
            registry_file_hashes: self.registry_file_hashes.duplicate(),
            selected_yanked_versions: self.selected_yanked_versions.duplicate(),
            extension_generated_repos: self.extension_generated_repos.duplicate(),
            extension_facts: self.extension_facts.duplicate(),
        }
    }
}

/// A module as an inspection shows it.
#[derive(Debug, PartialEq, Eq)]
pub struct BzlmodInspectionModule {
    pub name: String,
    pub version: String,
    pub canonical_repo_name: String,
    pub selected: bool,
    pub deps: Vec<BazelDep>,
}

/// The model of [`BzlmodInspectionModule`].
pub struct BzlmodInspectionModuleModel {
    pub name: Text,
    pub version: Text,
    pub canonical_repo_name: Text,
    pub selected: bool,
    pub deps: Seq<BazelDepModel>,
}

impl DeepView for BzlmodInspectionModule {
    type V = BzlmodInspectionModuleModel;

    open spec fn deep_view(&self) -> BzlmodInspectionModuleModel {
        BzlmodInspectionModuleModel {
            name: self.name.deep_view(),
            version: self.version.deep_view(),
            canonical_repo_name: self.canonical_repo_name.deep_view(),
            selected: self.selected.deep_view(),
            deps: self.deps.deep_view(),
        }
    }
}

impl Duplicate for BzlmodInspectionModule {
    fn duplicate(&self) -> (r: Self) {
        BzlmodInspectionModule {
            name: self.name.duplicate(),
            version: self.version.duplicate(),
            canonical_repo_name: self.canonical_repo_name.duplicate(),
            selected: self.selected.duplicate(),
            deps: self.deps.duplicate(),
        }
    }
}

/// The modules and extension repositories of a graph.
#[derive(Debug, PartialEq, Eq)]
pub struct BzlmodModuleInspectionValue {
    pub modules: Vec<BzlmodInspectionModule>,
    pub modules_index: KeyMap<String, KeySet<String>>,
    pub extension_to_repo_internal_names: KeyMap<BzlmodExtensionId, KeySet<String>>,
    pub module_key_to_canonical_repo_name: KeyMap<(String, String), String>,
    pub errors: Vec<String>,
}

/// The model of [`BzlmodModuleInspectionValue`].
pub struct BzlmodModuleInspectionValueModel {
    pub modules: Seq<BzlmodInspectionModuleModel>,
    pub modules_index: Seq<(Text, Seq<Text>)>,
    pub extension_to_repo_internal_names: Seq<(BzlmodExtensionIdModel, Seq<Text>)>,
    pub module_key_to_canonical_repo_name: Seq<((Text, Text), Text)>,
    pub errors: Seq<Text>,
}

impl DeepView for BzlmodModuleInspectionValue {
    type V = BzlmodModuleInspectionValueModel;

    open spec fn deep_view(&self) -> BzlmodModuleInspectionValueModel {
        BzlmodModuleInspectionValueModel {
            modules: self.modules.deep_view(),
            modules_index: self.modules_index.deep_view(),
            extension_to_repo_internal_names: self.extension_to_repo_internal_names.deep_view(),
            module_key_to_canonical_repo_name: self.module_key_to_canonical_repo_name.deep_view(),
            errors: self.errors.deep_view(),
        }
    }
}

impl Duplicate for BzlmodModuleInspectionValue {
    fn duplicate(&self) -> (r: Self) {
        BzlmodModuleInspectionValue {
            modules: self.modules.duplicate(),
            modules_index: self.modules_index.duplicate(),
            extension_to_repo_internal_names: self.extension_to_repo_internal_names.duplicate(),
            module_key_to_canonical_repo_name: self.module_key_to_canonical_repo_name.duplicate(),
            errors: self.errors.duplicate(),
        }
    }
}

/// A tag as an extension sees it.
#[derive(Debug, PartialEq, Eq)]
pub struct BzlmodModuleExtensionTagConfig {
    pub tag_name: String,
    pub dev_dependency: bool,
    pub bindings: Vec<(String, String)>,
    pub kwargs: Vec<(String, String)>,
}

/// The model of [`BzlmodModuleExtensionTagConfig`].
pub struct BzlmodModuleExtensionTagConfigModel {
    pub tag_name: Text,
    pub dev_dependency: bool,
    pub bindings: Seq<(Text, Text)>,
    pub kwargs: Seq<(Text, Text)>,
}

impl DeepView for BzlmodModuleExtensionTagConfig {
    type V = BzlmodModuleExtensionTagConfigModel;

    open spec fn deep_view(&self) -> BzlmodModuleExtensionTagConfigModel {
        BzlmodModuleExtensionTagConfigModel {
            tag_name: self.tag_name.deep_view(),
            dev_dependency: self.dev_dependency.deep_view(),
            bindings: self.bindings.deep_view(),
            kwargs: self.kwargs.deep_view(),
        }
    }
}

impl Duplicate for BzlmodModuleExtensionTagConfig {
    fn duplicate(&self) -> (r: Self) {
        BzlmodModuleExtensionTagConfig {
            tag_name: self.tag_name.duplicate(),
            dev_dependency: self.dev_dependency.duplicate(),
            bindings: self.bindings.duplicate(),
            kwargs: self.kwargs.duplicate(),
        }
    }
}

/// A module as an extension sees it.
#[derive(Debug, PartialEq, Eq)]
pub struct BzlmodModuleExtensionModuleConfig {
    pub name: String,
    pub version: String,
    pub canonical_repo_name: String,
    pub is_root: bool,
    pub extension_bzl_file: String,
    pub extension_name: String,
    pub cell_aliases: Vec<(String, String)>,
    pub constants: Vec<(String, String)>,
    pub tags: Vec<BzlmodModuleExtensionTagConfig>,
}

/// The model of [`BzlmodModuleExtensionModuleConfig`].
pub struct BzlmodModuleExtensionModuleConfigModel {
    pub name: Text,
    pub version: Text,
    pub canonical_repo_name: Text,
    pub is_root: bool,
    pub extension_bzl_file: Text,
    pub extension_name: Text,
    pub cell_aliases: Seq<(Text, Text)>,
    pub constants: Seq<(Text, Text)>,
    pub tags: Seq<BzlmodModuleExtensionTagConfigModel>,
}

impl DeepView for BzlmodModuleExtensionModuleConfig {
    type V = BzlmodModuleExtensionModuleConfigModel;

    open spec fn deep_view(&self) -> BzlmodModuleExtensionModuleConfigModel {
        BzlmodModuleExtensionModuleConfigModel {
            name: self.name.deep_view(),
            version: self.version.deep_view(),
            canonical_repo_name: self.canonical_repo_name.deep_view(),
            is_root: self.is_root.deep_view(),
            extension_bzl_file: self.extension_bzl_file.deep_view(),
            extension_name: self.extension_name.deep_view(),
            cell_aliases: self.cell_aliases.deep_view(),
            constants: self.constants.deep_view(),
            tags: self.tags.deep_view(),
        }
    }
}

impl Duplicate for BzlmodModuleExtensionModuleConfig {
    fn duplicate(&self) -> (r: Self) {
        BzlmodModuleExtensionModuleConfig {
            name: self.name.duplicate(),
            version: self.version.duplicate(),
            canonical_repo_name: self.canonical_repo_name.duplicate(),
            is_root: self.is_root.duplicate(),
            extension_bzl_file: self.extension_bzl_file.duplicate(),
            extension_name: self.extension_name.duplicate(),
            cell_aliases: self.cell_aliases.duplicate(),
            constants: self.constants.duplicate(),
            tags: self.tags.duplicate(),
        }
    }
}

/// The imports and overrides of one usage of an extension.
#[derive(Debug, PartialEq, Eq)]
pub struct BzlmodModuleExtensionUsageConfig {
    pub imports: Vec<BzlmodUseRepoImport>,
    pub repo_overrides: Vec<BzlmodRepoOverride>,
}

/// The model of [`BzlmodModuleExtensionUsageConfig`].
pub struct BzlmodModuleExtensionUsageConfigModel {
    pub imports: Seq<BzlmodUseRepoImportModel>,
    pub repo_overrides: Seq<BzlmodRepoOverrideModel>,
}

impl DeepView for BzlmodModuleExtensionUsageConfig {
    type V = BzlmodModuleExtensionUsageConfigModel;

    open spec fn deep_view(&self) -> BzlmodModuleExtensionUsageConfigModel {
        BzlmodModuleExtensionUsageConfigModel {
            imports: self.imports.deep_view(),
            repo_overrides: self.repo_overrides.deep_view(),
        }
    }
}

impl Duplicate for BzlmodModuleExtensionUsageConfig {
    fn duplicate(&self) -> (r: Self) {
        BzlmodModuleExtensionUsageConfig {
            imports: self.imports.duplicate(),
            repo_overrides: self.repo_overrides.duplicate(),
        }
    }
}

/// What an extension is evaluated on.
#[derive(Debug, PartialEq, Eq)]
pub struct BzlmodModuleExtensionEvaluationConfig {
    pub root_module_has_non_dev_dependency: bool,
    pub modules: Vec<BzlmodModuleExtensionModuleConfig>,
    pub usages: Vec<BzlmodModuleExtensionUsageConfig>,
    pub repo_overrides: Vec<(String, String)>,
}

/// The model of [`BzlmodModuleExtensionEvaluationConfig`].
pub struct BzlmodModuleExtensionEvaluationConfigModel {
    pub root_module_has_non_dev_dependency: bool,
    pub modules: Seq<BzlmodModuleExtensionModuleConfigModel>,
    pub usages: Seq<BzlmodModuleExtensionUsageConfigModel>,
    pub repo_overrides: Seq<(Text, Text)>,
}

impl DeepView for BzlmodModuleExtensionEvaluationConfig {
    type V = BzlmodModuleExtensionEvaluationConfigModel;

    open spec fn deep_view(&self) -> BzlmodModuleExtensionEvaluationConfigModel {
        BzlmodModuleExtensionEvaluationConfigModel {
            root_module_has_non_dev_dependency: self.root_module_has_non_dev_dependency.deep_view(),
            modules: self.modules.deep_view(),
            usages: self.usages.deep_view(),
            repo_overrides: self.repo_overrides.deep_view(),
        }
    }
}

impl Duplicate for BzlmodModuleExtensionEvaluationConfig {
    fn duplicate(&self) -> (r: Self) {
        BzlmodModuleExtensionEvaluationConfig {
            root_module_has_non_dev_dependency: self.root_module_has_non_dev_dependency.duplicate(),
            modules: self.modules.duplicate(),
            usages: self.usages.duplicate(),
            repo_overrides: self.repo_overrides.duplicate(),
        }
    }
}

} // verus!
