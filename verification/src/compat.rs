//! Defaults that a configuration gets in a Bazel project.

use vstd::prelude::*;
use vstd::string::*;
use crate::config::{ConfigValue, ConfigValueModel, Location, Place, ResolvedText, ResolvedValue};
use crate::external::{
    BZLMOD_EXTERNAL_CELL_KIND, BZLMOD_GENERATED_EXTERNAL_CELL_KIND, ExternalCellRegistry,
    external_cell_source_path, register_bzlmod_cell_canonical_repo_name_for_cell, source_path,
};
use crate::ordered::{Duplicate, KeyMap, law_lookup_after_put, law_put_sorted, lookup, put, text_lt};
use crate::resolved::{
    BazelCompatBazelrcOptions, BazelCompatBazelrcOptionsModel, BazelCompatCellAlias,
    BazelCompatCellAliasModel, BazelCompatExternalModule, BazelCompatExternalModuleModel,
};
use crate::sections::{
    ConfigItems, LegacyBuckConfig, LegacyBuckConfigSection, SectionItems, config_resolved,
    config_sorted, config_value, law_put_entries_sorted, lemma_section_resolved, section_resolved,
    section_sorted,
};
use crate::text::{Text, concat, concat3, decimal, join, join_of, nat_text, same};

verus! {

/// A value for a section and a key: a default where the key is absent, or one
/// that replaces what is there.
pub struct ConfigEntry {
    pub section: String,
    pub key: String,
    pub value: String,
    pub replaces: bool,
}

/// The model of [`ConfigEntry`].
pub struct Entry {
    pub section: Text,
    pub key: Text,
    pub value: Text,
    pub replaces: bool,
}

impl DeepView for ConfigEntry {
    type V = Entry;

    open spec fn deep_view(&self) -> Entry {
        Entry {
            section: self.section@,
            key: self.key@,
            value: self.value@,
            replaces: self.replaces,
        }
    }
}

pub open spec fn default_entry(section: Text, key: Text, value: Text) -> Entry {
    Entry { section, key, value, replaces: false }
}

/// A value that nobody wrote down.
pub open spec fn synthetic_value(text: Text) -> ConfigValueModel {
    ConfigValueModel {
        raw_value: text,
        resolved_value: ResolvedText::Literal,
        source: seq![Place::CommandLineArgument],
    }
}

/// The section of a name, or an empty one.
pub open spec fn section_or_empty(config: ConfigItems, name: Text) -> SectionItems {
    match lookup(config, name) {
        Some(section) => section,
        None => seq![],
    }
}

/// The configuration after one entry.
pub open spec fn with_entry(config: ConfigItems, e: Entry) -> ConfigItems {
    let section = section_or_empty(config, e.section);
    if !e.replaces && lookup(section, e.key) is Some {
        config
    } else {
        put::<String, SectionItems>(
            config,
            e.section,
            put::<String, ConfigValueModel>(section, e.key, synthetic_value(e.value)),
        )
    }
}

/// The configuration after the entries from `i` on.
pub open spec fn with_entries(config: ConfigItems, entries: Seq<Entry>, i: int) -> ConfigItems
    decreases entries.len() - i,
{
    if i < 0 || i >= entries.len() {
        config
    } else {
        with_entries(with_entry(config, entries[i]), entries, i + 1)
    }
}

/// The first name from `i` on whose path is the project root itself.
pub open spec fn root_path_name(cells: SectionItems, i: int) -> Option<Text>
    decreases cells.len() - i,
{
    if i < 0 || i >= cells.len() {
        None
    } else if cells[i].1.text() == "."@ {
        Some(cells[i].0)
    } else {
        root_path_name(cells, i + 1)
    }
}

/// What comes first of two options.
pub open spec fn first_some<T>(a: Option<T>, b: Option<T>) -> Option<T> {
    if a is Some {
        a
    } else {
        b
    }
}

/// The name that the configuration gives the root cell: what `root` is an alias
/// of, where that is a cell, else the cell at the project root.
pub open spec fn configured_root(config: ConfigItems) -> Option<Text> {
    let cells = first_some(lookup(config, "cells"@), lookup(config, "repositories"@));
    let alias = first_some(
        config_value(config, "cell_aliases"@, "root"@),
        config_value(config, "repository_aliases"@, "root"@),
    );
    match cells {
        None => None,
        Some(cells) => if alias is Some && lookup(cells, alias->0) is Some {
            alias
        } else {
            root_path_name(cells, 0)
        },
    }
}

/// The name of the root cell where none is configured.
pub open spec fn root_or_default(root: Option<Text>) -> Text {
    match root {
        Some(root) => root,
        None => "root"@,
    }
}

impl BazelCompatExternalModuleModel {
    /// The cell of the module.
    pub open spec fn cell(self) -> Text {
        match self {
            BazelCompatExternalModuleModel::Registry(m) => m.cell_name,
            BazelCompatExternalModuleModel::Generated(m) => m.cell_name,
        }
    }

    /// The repository name of the module.
    pub open spec fn canonical(self) -> Text {
        match self {
            BazelCompatExternalModuleModel::Registry(m) => m.canonical_repo_name,
            BazelCompatExternalModuleModel::Generated(m) => m.canonical_repo_name,
        }
    }

    /// The kind of external cell that the module is.
    pub open spec fn kind(self) -> Text {
        match self {
            BazelCompatExternalModuleModel::Registry(_) => BZLMOD_EXTERNAL_CELL_KIND@,
            BazelCompatExternalModuleModel::Generated(_) => BZLMOD_GENERATED_EXTERNAL_CELL_KIND@,
        }
    }
}

impl BazelCompatExternalModule {
    /// The cell of the module.
    pub fn cell_name(&self) -> (r: &str)
        ensures
            r@ == self.deep_view().cell(),
    {
        match self {
            BazelCompatExternalModule::Registry(m) => m.cell_name.as_str(),
            BazelCompatExternalModule::Generated(m) => m.cell_name.as_str(),
        }
    }

    /// The repository name of the module.
    pub fn canonical_repo_name(&self) -> (r: &str)
        ensures
            r@ == self.deep_view().canonical(),
    {
        match self {
            BazelCompatExternalModule::Registry(m) => m.canonical_repo_name.as_str(),
            BazelCompatExternalModule::Generated(m) => m.canonical_repo_name.as_str(),
        }
    }

    /// The kind of external cell that the module is.
    pub fn external_cell_kind(&self) -> (r: &'static str)
        ensures
            r@ == self.deep_view().kind(),
    {
        match self {
            BazelCompatExternalModule::Registry(_) => BZLMOD_EXTERNAL_CELL_KIND,
            BazelCompatExternalModule::Generated(_) => BZLMOD_GENERATED_EXTERNAL_CELL_KIND,
        }
    }
}

/// The cells of the modules.
pub open spec fn module_cells(modules: Seq<BazelCompatExternalModuleModel>) -> Seq<Entry> {
    Seq::new(
        modules.len(),
        |i: int|
            default_entry(
                "cells"@,
                modules[i].cell(),
                source_path(modules[i].kind(), modules[i].canonical()),
            ),
    )
}

/// The kinds of the modules' cells.
pub open spec fn module_kinds(modules: Seq<BazelCompatExternalModuleModel>) -> Seq<Entry> {
    Seq::new(
        modules.len(),
        |i: int| default_entry("external_cells"@, modules[i].cell(), modules[i].kind()),
    )
}

/// The aliases, which replace what is configured.
pub open spec fn alias_entries(aliases: Seq<BazelCompatCellAliasModel>) -> Seq<Entry> {
    Seq::new(
        aliases.len(),
        |i: int|
            Entry {
                section: "cell_aliases"@,
                key: aliases[i].alias,
                value: aliases[i].cell_name,
                replaces: true,
            },
    )
}

/// The cells: the root where none is configured, the bundled ones, and the
/// modules'.
pub open spec fn cells_entries(
    root: Option<Text>,
    modules: Seq<BazelCompatExternalModuleModel>,
) -> Seq<Entry> {
    (if root is Some {
        seq![]
    } else {
        seq![default_entry("cells"@, "root"@, "."@)]
    }) + seq![
        default_entry("cells"@, "prelude"@, "prelude"@),
        default_entry("cells"@, "bazel_tools"@, "bazel_tools"@),
    ] + module_cells(modules)
}

/// The aliases of cells: the usual ones, `root` where the root cell has another
/// name, and those of the current cell.
pub open spec fn cell_aliases_entries(
    root: Option<Text>,
    aliases: Seq<BazelCompatCellAliasModel>,
) -> Seq<Entry> {
    seq![
        default_entry("cell_aliases"@, "config"@, "prelude"@),
        default_entry("cell_aliases"@, "ovr_config"@, "prelude"@),
        default_entry("cell_aliases"@, "fbcode"@, "prelude"@),
        default_entry("cell_aliases"@, "fbcode_macros"@, "prelude"@),
        default_entry("cell_aliases"@, "fbsource"@, "prelude"@),
        default_entry("cell_aliases"@, "toolchains"@, "prelude"@),
    ] + (if root is Some && root->0 != "root"@ {
        seq![default_entry("cell_aliases"@, "root"@, root->0)]
    } else {
        seq![]
    }) + alias_entries(aliases)
}

/// The settings that do not depend on the project but for the name of its root
/// cell.
pub open spec fn fixed_entries(root: Option<Text>) -> Seq<Entry> {
    seq![
        default_entry("buildfile"@, "name_v2"@, "BUILD.bazel,BUILD"@),
        default_entry("buildfile"@, "includes"@, "prelude//bazel/prelude.bzl"@),
        default_entry(
            "parser"@,
            "target_platform_detector_spec"@,
            "target:"@ + root_or_default(root) + "//...->platforms//host:host"@,
        ),
        default_entry("bazel"@, "compatibility"@, "true"@),
        default_entry("buck2"@, "file_watcher"@, "fs_hash_crawler"@),
        default_entry("buck2"@, "share_action_paths"@, "true"@),
        default_entry("buck2"@, "sqlite_incremental_state"@, "false"@),
        default_entry("buck2"@, "sqlite_materializer_state"@, "true"@),
        default_entry("buck2"@, "starlark_max_callstack_size"@, "1000"@),
    ]
}

/// The kinds of external cells: the bundled ones and the modules'.
pub open spec fn external_cells_entries(modules: Seq<BazelCompatExternalModuleModel>) -> Seq<Entry> {
    seq![
        default_entry("external_cells"@, "prelude"@, "bundled"@),
        default_entry("external_cells"@, "bazel_tools"@, "bundled"@),
    ] + module_kinds(modules)
}

/// A list of values for a key of the `bazel` section, where there are any.
pub open spec fn list_entry(key: Text, values: Seq<Text>, sep: Text) -> Seq<Entry> {
    if values.len() == 0 {
        seq![]
    } else {
        seq![default_entry("bazel"@, key, join(values, sep))]
    }
}

/// The options of `.bazelrc` files.
pub open spec fn option_entries(o: BazelCompatBazelrcOptionsModel) -> Seq<Entry> {
    Seq::<Entry>::empty() + list_entry("copt"@, o.copt, "\n"@) + list_entry("conlyopt"@, o.conlyopt, "\n"@) + list_entry(
        "cxxopt"@,
        o.cxxopt,
        "\n"@,
    ) + list_entry("host_copt"@, o.host_copt, "\n"@) + list_entry(
        "host_conlyopt"@,
        o.host_conlyopt,
        "\n"@,
    ) + list_entry("host_cxxopt"@, o.host_cxxopt, "\n"@) + list_entry(
        "per_file_copt"@,
        o.per_file_copt,
        "\n"@,
    ) + list_entry("macos_minimum_os"@, o.macos_minimum_os, "\n"@) + list_entry(
        "host_macos_minimum_os"@,
        o.host_macos_minimum_os,
        "\n"@,
    ) + list_entry("command_line_build_settings"@, o.command_line_build_settings, "\n"@)
}

/// The section of an external cell.
pub open spec fn cell_section(cell: Text) -> Text {
    "external_cell_"@ + cell
}

/// A value for a key, where there is one.
pub open spec fn optional_entry(section: Text, key: Text, value: Option<Text>) -> Seq<Entry> {
    match value {
        Some(value) => seq![default_entry(section, key, value)],
        None => seq![],
    }
}

/// What describes the cell of a module.
pub open spec fn module_entries(module: BazelCompatExternalModuleModel) -> Seq<Entry> {
    let section = cell_section(module.cell());
    match module {
        BazelCompatExternalModuleModel::Registry(m) => seq![
            default_entry(section, "module_name"@, m.module_name),
            default_entry(section, "version"@, m.version),
            default_entry(section, "canonical_repo_name"@, m.canonical_repo_name),
            default_entry(section, "url"@, m.url),
            default_entry(section, "urls"@, m.urls_json),
            default_entry(section, "integrity"@, m.integrity),
            default_entry(section, "patches"@, m.patches_json),
            default_entry(section, "overlays"@, m.overlays_json),
        ] + optional_entry(section, "strip_prefix"@, m.strip_prefix) + optional_entry(
            section,
            "local_path"@,
            m.local_path,
        ) + optional_entry(section, "archive_type"@, m.archive_type) + seq![
            default_entry(section, "patch_strip"@, nat_text(m.patch_strip as nat)),
        ],
        BazelCompatExternalModuleModel::Generated(m) => seq![
            default_entry(section, "canonical_repo_name"@, m.canonical_repo_name),
            default_entry(section, "generator"@, m.generator_json),
        ],
    }
}

/// What describes the cells of the modules.
pub open spec fn modules_entries(modules: Seq<BazelCompatExternalModuleModel>) -> Seq<Entry>
    decreases modules.len(),
{
    if modules.len() == 0 {
        seq![]
    } else {
        modules_entries(modules.drop_last()) + module_entries(modules.last())
    }
}

/// All the defaults, in the order in which they apply.
pub open spec fn compat_entries(
    root: Option<Text>,
    aliases: Seq<BazelCompatCellAliasModel>,
    modules: Seq<BazelCompatExternalModuleModel>,
    toolchains: Seq<Text>,
    options: BazelCompatBazelrcOptionsModel,
) -> Seq<Entry> {
    cells_entries(root, modules) + cell_aliases_entries(root, aliases) + external_cells_entries(
        modules,
    ) + fixed_entries(root) + list_entry("registered_toolchains"@, toolchains, ","@)
        + option_entries(options) + modules_entries(modules)
}

/// The configuration with the defaults of a Bazel project.
pub open spec fn with_compat_defaults(
    config: ConfigItems,
    aliases: Seq<BazelCompatCellAliasModel>,
    modules: Seq<BazelCompatExternalModuleModel>,
    toolchains: Seq<Text>,
    options: BazelCompatBazelrcOptionsModel,
) -> ConfigItems {
    with_entries(
        config,
        compat_entries(configured_root(config), aliases, modules, toolchains, options),
        0,
    )
}

/// Sections in order, and the keys of each in order.
pub open spec fn config_in_order(config: ConfigItems) -> bool {
    &&& config_sorted(config)
    &&& forall|i: int| 0 <= i < config.len() ==> section_sorted((#[trigger] config[i]).1)
}

proof fn lemma_section_in_order(config: ConfigItems, name: Text)
    requires
        config_in_order(config),
    ensures
        section_sorted(section_or_empty(config, name)),
    decreases config.len(),
{
    if config.len() > 0 && config[0].0 != name {
        let rest = config.skip(1);
        assert forall|i: int| 0 <= i < rest.len() implies section_sorted((#[trigger] rest[i]).1) by {
            assert(rest[i] == config[i + 1]);
        }
        assert(config_sorted(rest));
        lemma_section_in_order(rest, name);
    }
}

proof fn lemma_put_sections_in_order(config: ConfigItems, name: Text, section: SectionItems)
    requires
        forall|i: int| 0 <= i < config.len() ==> section_sorted((#[trigger] config[i]).1),
        section_sorted(section),
    ensures
        ({
            let out = put::<String, SectionItems>(config, name, section);
            forall|i: int| 0 <= i < out.len() ==> section_sorted((#[trigger] out[i]).1)
        }),
    decreases config.len(),
{
    let out = put::<String, SectionItems>(config, name, section);
    if config.len() == 0 {
    } else if config[0].0 == name {
        assert forall|i: int| 0 <= i < out.len() implies section_sorted((#[trigger] out[i]).1) by {
            if i > 0 {
                assert(out[i] == config[i]);
            }
        }
    } else if text_lt(name, config[0].0) {
        assert forall|i: int| 0 <= i < out.len() implies section_sorted((#[trigger] out[i]).1) by {
            if i > 0 {
                assert(out[i] == config[i - 1]);
            }
        }
    } else {
        let rest = config.skip(1);
        let tail = put::<String, SectionItems>(rest, name, section);
        assert forall|i: int| 0 <= i < rest.len() implies section_sorted((#[trigger] rest[i]).1) by {
            assert(rest[i] == config[i + 1]);
        }
        lemma_put_sections_in_order(rest, name, section);
        assert forall|i: int| 0 <= i < out.len() implies section_sorted((#[trigger] out[i]).1) by {
            if i > 0 {
                assert(out[i] == tail[i - 1]);
            } else {
                assert(out[0] == config[0]);
            }
        }
    }
}

/// An entry keeps sections and keys in order.
pub proof fn law_entry_in_order(config: ConfigItems, e: Entry)
    requires
        config_in_order(config),
    ensures
        config_in_order(with_entry(config, e)),
{
    let section = section_or_empty(config, e.section);
    let value = synthetic_value(e.value);
    let next = put::<String, ConfigValueModel>(section, e.key, value);
    lemma_section_in_order(config, e.section);
    law_put_sorted::<String, ConfigValueModel>(section, e.key, value);
    law_put_sorted::<String, SectionItems>(config, e.section, next);
    lemma_put_sections_in_order(config, e.section, next);
}

/// A default never changes a value that is configured, and an entry only touches
/// its own section and key.
pub proof fn law_entry_lookup(config: ConfigItems, e: Entry, section: Text, key: Text)
    requires
        config_in_order(config),
    ensures
        lookup(section_or_empty(with_entry(config, e), section), key) == (if section == e.section
            && key == e.key && (e.replaces || lookup(
            section_or_empty(config, section),
            key,
        ) is None) {
            Some(synthetic_value(e.value))
        } else {
            lookup(section_or_empty(config, section), key)
        }),
{
    let own = section_or_empty(config, e.section);
    let value = synthetic_value(e.value);
    let next = put::<String, ConfigValueModel>(own, e.key, value);
    lemma_section_in_order(config, e.section);
    law_lookup_after_put::<String, SectionItems>(config, e.section, next, section);
    law_lookup_after_put::<String, ConfigValueModel>(own, e.key, value, key);
}

/// A value that is configured stays as it is under defaults alone.
pub proof fn law_defaults_keep_values(
    config: ConfigItems,
    entries: Seq<Entry>,
    i: int,
    section: Text,
    key: Text,
)
    requires
        0 <= i,
        config_in_order(config),
        lookup(section_or_empty(config, section), key) is Some,
        forall|j: int|
            i <= j < entries.len() && (#[trigger] entries[j]).section == section && entries[j].key
                == key ==> !entries[j].replaces,
    ensures
        lookup(section_or_empty(with_entries(config, entries, i), section), key) == lookup(
            section_or_empty(config, section),
            key,
        ),
    decreases entries.len() - i,
{
    if i < entries.len() {
        law_entry_lookup(config, entries[i], section, key);
        law_entry_in_order(config, entries[i]);
        law_defaults_keep_values(with_entry(config, entries[i]), entries, i + 1, section, key);
    }
}

fn push_entry(out: &mut Vec<ConfigEntry>, section: &str, key: &str, value: &str)
    ensures
        final(out).deep_view() == old(out).deep_view().push(
            default_entry(section@, key@, value@),
        ),
{
    let ghost before = out.deep_view();
    out.push(
        ConfigEntry {
            section: section.to_owned(),
            key: key.to_owned(),
            value: value.to_owned(),
            replaces: false,
        },
    );
    assert(out.deep_view() =~= before.push(default_entry(section@, key@, value@)));
}

fn push_cells_entries(
    out: &mut Vec<ConfigEntry>,
    root: Option<&str>,
    modules: &Vec<BazelCompatExternalModule>,
)
    ensures
        final(out).deep_view() == old(out).deep_view() + cells_entries(
            root.deep_view(),
            modules.deep_view(),
        ),
{
    let ghost first = out.deep_view();
    if root.is_none() {
        push_entry(out, "cells", "root", ".");
    }
    push_entry(out, "cells", "prelude", "prelude");
    push_entry(out, "cells", "bazel_tools", "bazel_tools");
    let ghost before = out.deep_view();
    let ghost added = module_cells(modules.deep_view());
    let mut i: usize = 0;
    while i < modules.len()
        invariant
            added == module_cells(modules.deep_view()),
            0 <= i <= modules@.len(),
            out.deep_view() =~= before + added.take(i as int),
        decreases modules.len() - i,
    {
        assert(modules.deep_view()[i as int] == modules@[i as int].deep_view());
        let path = external_cell_source_path(
            modules[i].external_cell_kind(),
            modules[i].canonical_repo_name(),
        );
        push_entry(out, "cells", modules[i].cell_name(), path.as_str());
        assert(added.take(i + 1) =~= added.take(i as int).push(added[i as int]));
        i += 1;
    }
    assert(added.take(i as int) =~= added);
    assert(out.deep_view() =~= first + cells_entries(root.deep_view(), modules.deep_view()));
}

fn push_cell_aliases_entries(
    out: &mut Vec<ConfigEntry>,
    root: Option<&str>,
    aliases: &Vec<BazelCompatCellAlias>,
)
    ensures
        final(out).deep_view() == old(out).deep_view() + cell_aliases_entries(
            root.deep_view(),
            aliases.deep_view(),
        ),
{
    let ghost first = out.deep_view();
    push_entry(out, "cell_aliases", "config", "prelude");
    push_entry(out, "cell_aliases", "ovr_config", "prelude");
    push_entry(out, "cell_aliases", "fbcode", "prelude");
    push_entry(out, "cell_aliases", "fbcode_macros", "prelude");
    push_entry(out, "cell_aliases", "fbsource", "prelude");
    push_entry(out, "cell_aliases", "toolchains", "prelude");
    match root {
        Some(root) => {
            if !same(root, "root") {
                push_entry(out, "cell_aliases", "root", root);
            }
        },
        None => {},
    }
    let ghost before = out.deep_view();
    let ghost added = alias_entries(aliases.deep_view());
    let mut i: usize = 0;
    while i < aliases.len()
        invariant
            added == alias_entries(aliases.deep_view()),
            0 <= i <= aliases@.len(),
            out.deep_view() =~= before + added.take(i as int),
        decreases aliases.len() - i,
    {
        let ghost so_far = out.deep_view();
        assert(aliases.deep_view()[i as int] == aliases@[i as int].deep_view());
        out.push(
            ConfigEntry {
                section: "cell_aliases".to_owned(),
                key: aliases[i].alias.clone(),
                value: aliases[i].cell_name.clone(),
                replaces: true,
            },
        );
        assert(out.deep_view() =~= so_far.push(added[i as int]));
        i += 1;
    }
    assert(added.take(i as int) =~= added);
    assert(out.deep_view() =~= first + cell_aliases_entries(
        root.deep_view(),
        aliases.deep_view(),
    ));
}

fn push_external_cells_entries(
    out: &mut Vec<ConfigEntry>,
    modules: &Vec<BazelCompatExternalModule>,
)
    ensures
        final(out).deep_view() == old(out).deep_view() + external_cells_entries(
            modules.deep_view(),
        ),
{
    let ghost first = out.deep_view();
    push_entry(out, "external_cells", "prelude", "bundled");
    push_entry(out, "external_cells", "bazel_tools", "bundled");
    let ghost before = out.deep_view();
    let ghost added = module_kinds(modules.deep_view());
    let mut i: usize = 0;
    while i < modules.len()
        invariant
            added == module_kinds(modules.deep_view()),
            0 <= i <= modules@.len(),
            out.deep_view() =~= before + added.take(i as int),
        decreases modules.len() - i,
    {
        assert(modules.deep_view()[i as int] == modules@[i as int].deep_view());
        push_entry(
            out,
            "external_cells",
            modules[i].cell_name(),
            modules[i].external_cell_kind(),
        );
        assert(added.take(i + 1) =~= added.take(i as int).push(added[i as int]));
        i += 1;
    }
    assert(added.take(i as int) =~= added);
    assert(out.deep_view() =~= first + external_cells_entries(modules.deep_view()));
}

fn push_fixed_entries(out: &mut Vec<ConfigEntry>, root: Option<&str>)
    ensures
        final(out).deep_view() == old(out).deep_view() + fixed_entries(root.deep_view()),
{
    let ghost first = out.deep_view();
    let root_name = match root {
        Some(root) => root,
        None => "root",
    };
    let detector = concat3("target:", root_name, "//...->platforms//host:host");
    push_entry(out, "buildfile", "name_v2", "BUILD.bazel,BUILD");
    push_entry(out, "buildfile", "includes", "prelude//bazel/prelude.bzl");
    push_entry(out, "parser", "target_platform_detector_spec", detector.as_str());
    push_entry(out, "bazel", "compatibility", "true");
    push_entry(out, "buck2", "file_watcher", "fs_hash_crawler");
    push_entry(out, "buck2", "share_action_paths", "true");
    push_entry(out, "buck2", "sqlite_incremental_state", "false");
    push_entry(out, "buck2", "sqlite_materializer_state", "true");
    push_entry(out, "buck2", "starlark_max_callstack_size", "1000");
    assert(out.deep_view() =~= first + fixed_entries(root.deep_view()));
}

fn push_list_entry(out: &mut Vec<ConfigEntry>, key: &str, values: &Vec<String>, sep: &str)
    ensures
        final(out).deep_view() == old(out).deep_view() + list_entry(
            key@,
            values.deep_view(),
            sep@,
        ),
{
    let ghost first = out.deep_view();
    assert(values.deep_view().len() == values@.len());
    if values.len() > 0 {
        push_entry(out, "bazel", key, join_of(values, sep).as_str());
    }
    assert(out.deep_view() =~= first + list_entry(key@, values.deep_view(), sep@));
}

/// Appends a list behind the entries that were added so far.
fn push_next_list(
    out: &mut Vec<ConfigEntry>,
    key: &str,
    values: &Vec<String>,
    first: Ghost<Seq<Entry>>,
    added: Ghost<Seq<Entry>>,
)
    requires
        old(out).deep_view() == first@ + added@,
    ensures
        final(out).deep_view() == first@ + (added@ + list_entry(
            key@,
            values.deep_view(),
            "\n"@,
        )),
{
    push_list_entry(out, key, values, "\n");
    assert(out.deep_view() =~= first@ + (added@ + list_entry(key@, values.deep_view(), "\n"@)));
}

fn push_option_entries(out: &mut Vec<ConfigEntry>, o: &BazelCompatBazelrcOptions)
    ensures
        final(out).deep_view() == old(out).deep_view() + option_entries(o.deep_view()),
{
    let ghost first = out.deep_view();
    let ghost mut added = Seq::<Entry>::empty();
    assert(first =~= first + added);
    push_next_list(out, "copt", &o.copt, Ghost(first), Ghost(added));
    proof {
        added = added + list_entry("copt"@, o.copt.deep_view(), "\n"@);
    }
    push_next_list(out, "conlyopt", &o.conlyopt, Ghost(first), Ghost(added));
    proof {
        added = added + list_entry("conlyopt"@, o.conlyopt.deep_view(), "\n"@);
    }
    push_next_list(out, "cxxopt", &o.cxxopt, Ghost(first), Ghost(added));
    proof {
        added = added + list_entry("cxxopt"@, o.cxxopt.deep_view(), "\n"@);
    }
    push_next_list(out, "host_copt", &o.host_copt, Ghost(first), Ghost(added));
    proof {
        added = added + list_entry("host_copt"@, o.host_copt.deep_view(), "\n"@);
    }
    push_next_list(out, "host_conlyopt", &o.host_conlyopt, Ghost(first), Ghost(added));
    proof {
        added = added + list_entry("host_conlyopt"@, o.host_conlyopt.deep_view(), "\n"@);
    }
    push_next_list(out, "host_cxxopt", &o.host_cxxopt, Ghost(first), Ghost(added));
    proof {
        added = added + list_entry("host_cxxopt"@, o.host_cxxopt.deep_view(), "\n"@);
    }
    push_next_list(out, "per_file_copt", &o.per_file_copt, Ghost(first), Ghost(added));
    proof {
        added = added + list_entry("per_file_copt"@, o.per_file_copt.deep_view(), "\n"@);
    }
    push_next_list(out, "macos_minimum_os", &o.macos_minimum_os, Ghost(first), Ghost(added));
    proof {
        added = added + list_entry("macos_minimum_os"@, o.macos_minimum_os.deep_view(), "\n"@);
    }
    push_next_list(out, "host_macos_minimum_os", &o.host_macos_minimum_os, Ghost(first), Ghost(added));
    proof {
        added = added + list_entry("host_macos_minimum_os"@, o.host_macos_minimum_os.deep_view(), "\n"@);
    }
    push_next_list(out, "command_line_build_settings", &o.command_line_build_settings, Ghost(first), Ghost(added));
    proof {
        added = added + list_entry("command_line_build_settings"@, o.command_line_build_settings.deep_view(), "\n"@);
    }
}

fn push_optional_entry(
    out: &mut Vec<ConfigEntry>,
    section: &str,
    key: &str,
    value: &Option<String>,
)
    ensures
        final(out).deep_view() == old(out).deep_view() + optional_entry(
            section@,
            key@,
            value.deep_view(),
        ),
{
    let ghost first = out.deep_view();
    match value {
        Some(value) => {
            push_entry(out, section, key, value.as_str());
        },
        None => {},
    }
    assert(out.deep_view() =~= first + optional_entry(section@, key@, value.deep_view()));
}

fn push_module_entries(out: &mut Vec<ConfigEntry>, module: &BazelCompatExternalModule)
    ensures
        final(out).deep_view() == old(out).deep_view() + module_entries(module.deep_view()),
{
    let ghost first = out.deep_view();
    let section = concat("external_cell_", module.cell_name());
    let section = section.as_str();
    match module {
        BazelCompatExternalModule::Registry(m) => {
            push_entry(out, section, "module_name", m.module_name.as_str());
            push_entry(out, section, "version", m.version.as_str());
            push_entry(out, section, "canonical_repo_name", m.canonical_repo_name.as_str());
            push_entry(out, section, "url", m.url.as_str());
            push_entry(out, section, "urls", m.urls_json.as_str());
            push_entry(out, section, "integrity", m.integrity.as_str());
            push_entry(out, section, "patches", m.patches_json.as_str());
            push_entry(out, section, "overlays", m.overlays_json.as_str());
            push_optional_entry(out, section, "strip_prefix", &m.strip_prefix);
            push_optional_entry(out, section, "local_path", &m.local_path);
            push_optional_entry(out, section, "archive_type", &m.archive_type);
            push_entry(out, section, "patch_strip", decimal(m.patch_strip as u128).as_str());
        },
        BazelCompatExternalModule::Generated(m) => {
            push_entry(out, section, "canonical_repo_name", m.canonical_repo_name.as_str());
            push_entry(out, section, "generator", m.generator_json.as_str());
        },
    }
    assert(out.deep_view() =~= first + module_entries(module.deep_view()));
}

fn push_modules_entries(out: &mut Vec<ConfigEntry>, modules: &Vec<BazelCompatExternalModule>)
    ensures
        final(out).deep_view() == old(out).deep_view() + modules_entries(modules.deep_view()),
{
    let ghost first = out.deep_view();
    let ghost model = modules.deep_view();
    let mut i: usize = 0;
    assert(first + seq![] =~= first);
    while i < modules.len()
        invariant
            model == modules.deep_view(),
            0 <= i <= modules@.len(),
            out.deep_view() =~= first + modules_entries(model.take(i as int)),
        decreases modules.len() - i,
    {
        proof {
            let t = model.take(i + 1);
            assert(t.drop_last() =~= model.take(i as int));
            assert(t.last() == modules@[i as int].deep_view());
        }
        push_module_entries(out, &modules[i]);
        i += 1;
    }
    assert(model.take(i as int) =~= model);
}

fn synthetic_config_value(raw_value: &str) -> (r: ConfigValue)
    ensures
        r.deep_view() == synthetic_value(raw_value@),
{
    ConfigValue {
        raw_value: raw_value.to_owned(),
        resolved_value: ResolvedValue::Literal,
        source: Location::CommandLineArgument,
    }
}

/// Applies one entry.
fn apply_entry(config: &mut KeyMap<String, KeyMap<String, ConfigValue>>, e: &ConfigEntry)
    ensures
        final(config).deep_view() == with_entry(old(config).deep_view(), e.deep_view()),
{
    let mut section = match config.get(&e.section) {
        Some(section) => section.duplicate(),
        None => {
            let none: KeyMap<String, ConfigValue> = KeyMap::new();
            assert(none.deep_view() =~= seq![]);
            none
        },
    };
    if !e.replaces && section.contains_key(&e.key) {
        return ;
    }
    section.insert(e.key.clone(), synthetic_config_value(e.value.as_str()));
    config.insert(e.section.clone(), section);
}

/// The entries of a section, copied.
fn copy_section(section: &LegacyBuckConfigSection) -> (r: KeyMap<String, ConfigValue>)
    ensures
        r.deep_view() == section.deep_view(),
        section_sorted(r.deep_view()),
{
    let entries = section.entries();
    let ghost model = entries.deep_view();
    let mut out: Vec<(String, ConfigValue)> = Vec::new();
    let mut i: usize = 0;
    while i < entries.len()
        invariant
            model == entries.deep_view(),
            0 <= i <= entries@.len(),
            out.deep_view() =~= model.take(i as int),
        decreases entries.len() - i,
    {
        let ghost before = out.deep_view();
        out.push((entries[i].0.clone(), entries[i].1.duplicate()));
        assert(out.deep_view() =~= before.push(model[i as int]));
        i += 1;
    }
    assert(model.take(i as int) =~= model);
    KeyMap { entries: out }
}

/// The sections of a configuration, copied.
fn copy_config(config: &LegacyBuckConfig) -> (r: KeyMap<String, KeyMap<String, ConfigValue>>)
    ensures
        r.deep_view() == config.deep_view(),
        config_in_order(r.deep_view()),
{
    let sections = config.sections();
    let ghost model = sections.deep_view();
    let mut out: Vec<(String, KeyMap<String, ConfigValue>)> = Vec::new();
    let mut i: usize = 0;
    while i < sections.len()
        invariant
            model == sections.deep_view(),
            0 <= i <= sections@.len(),
            out.deep_view() =~= model.take(i as int),
            forall|j: int| 0 <= j < i ==> section_sorted((#[trigger] model[j]).1),
        decreases sections.len() - i,
    {
        let ghost before = out.deep_view();
        let section = copy_section(sections[i].1);
        assert(model[i as int] == (sections@[i as int].0@, section.deep_view()));
        out.push((sections[i].0.clone(), section));
        assert(out.deep_view() =~= before.push(model[i as int]));
        i += 1;
    }
    assert(model.take(i as int) =~= model);
    KeyMap { entries: out }
}

/// The configuration of copied sections.
fn finish_config(config: KeyMap<String, KeyMap<String, ConfigValue>>) -> (r: LegacyBuckConfig)
    requires
        config_in_order(config.deep_view()),
    ensures
        r.deep_view() == config.deep_view(),
{
    let ghost model = config.deep_view();
    let mut out: Vec<(String, LegacyBuckConfigSection)> = Vec::new();
    let mut i: usize = 0;
    while i < config.entries.len()
        invariant
            model == config.deep_view(),
            config_in_order(model),
            0 <= i <= config.entries@.len(),
            out.deep_view() =~= model.take(i as int),
        decreases config.entries.len() - i,
    {
        let ghost before = out.deep_view();
        let entries = config.entries[i].1.entries.duplicate();
        proof {
            assert(model[i as int] == config.entries@[i as int].deep_view());
            assert(entries.deep_view() == model[i as int].1);
            law_put_entries_sorted(entries.deep_view());
        }
        let section = LegacyBuckConfigSection::from_entries(entries);
        out.push((config.entries[i].0.clone(), section));
        assert(out.deep_view() =~= before.push(model[i as int]));
        i += 1;
    }
    assert(model.take(i as int) =~= model);
    proof {
        law_put_entries_sorted(out.deep_view());
    }
    LegacyBuckConfig::from_sections(out)
}

/// The name that the configuration gives the root cell.
pub fn configured_root_cell(config: &LegacyBuckConfig) -> (r: Option<String>)
    requires
        config_resolved(config.deep_view()),
    ensures
        r.deep_view() == configured_root(config.deep_view()),
{
    let cells = match config.get_section("cells") {
        Some(cells) => cells,
        None => match config.get_section("repositories") {
            Some(cells) => cells,
            None => {
                return None;
            },
        },
    };
    proof {
        lemma_section_resolved(config.deep_view(), "cells"@);
        lemma_section_resolved(config.deep_view(), "repositories"@);
    }
    let alias = match config.get("cell_aliases", "root") {
        Some(alias) => Some(alias),
        None => config.get("repository_aliases", "root"),
    };
    match alias {
        Some(alias) => {
            if cells.get(alias).is_some() {
                return Some(alias.to_owned());
            }
        },
        None => {},
    }
    let entries = cells.entries();
    let ghost model = entries.deep_view();
    let mut i: usize = 0;
    while i < entries.len()
        invariant
            model == entries.deep_view(),
            section_resolved(model),
            0 <= i <= entries@.len(),
            configured_root(config.deep_view()) == root_path_name(model, i as int),
        decreases entries.len() - i,
    {
        assert(model[i as int] == (entries@[i as int].0@, entries@[i as int].1.deep_view()));
        if same(entries[i].1.as_str(), ".") {
            return Some(entries[i].0.clone());
        }
        i += 1;
    }
    None
}

impl LegacyBuckConfig {
    /// The configuration with the defaults of a Bazel project.
    fn with_bazel_compat_defaults_inner(
        &self,
        current_cell_aliases: &Vec<BazelCompatCellAlias>,
        external_modules: &Vec<BazelCompatExternalModule>,
        registered_toolchains: &Vec<String>,
        bazelrc_options: &BazelCompatBazelrcOptions,
    ) -> (r: Self)
        requires
            config_resolved(self.deep_view()),
        ensures
            r.deep_view() == with_compat_defaults(
                self.deep_view(),
                current_cell_aliases.deep_view(),
                external_modules.deep_view(),
                registered_toolchains.deep_view(),
                bazelrc_options.deep_view(),
            ),
    {
        let configured = configured_root_cell(self);
        let root = match &configured {
            Some(root) => Some(root.as_str()),
            None => None,
        };
        let mut entries: Vec<ConfigEntry> = Vec::new();
        assert(entries.deep_view() =~= seq![]);
        push_cells_entries(&mut entries, root, external_modules);
        push_cell_aliases_entries(&mut entries, root, current_cell_aliases);
        push_external_cells_entries(&mut entries, external_modules);
        push_fixed_entries(&mut entries, root);
        push_list_entry(&mut entries, "registered_toolchains", registered_toolchains, ",");
        push_option_entries(&mut entries, bazelrc_options);
        push_modules_entries(&mut entries, external_modules);
        let ghost model = entries.deep_view();
        assert(model =~= compat_entries(
            root.deep_view(),
            current_cell_aliases.deep_view(),
            external_modules.deep_view(),
            registered_toolchains.deep_view(),
            bazelrc_options.deep_view(),
        ));
        let mut config = copy_config(self);
        let ghost first = config.deep_view();
        let mut i: usize = 0;
        while i < entries.len()
            invariant
                model == entries.deep_view(),
                0 <= i <= entries@.len(),
                config_in_order(config.deep_view()),
                with_entries(first, model, 0) == with_entries(
                    config.deep_view(),
                    model,
                    i as int,
                ),
            decreases entries.len() - i,
        {
            assert(model[i as int] == entries@[i as int].deep_view());
            proof {
                law_entry_in_order(config.deep_view(), model[i as int]);
            }
            apply_entry(&mut config, &entries[i]);
            i += 1;
        }
        finish_config(config)
    }

    /// The configuration with the defaults of a Bazel project; the repository
    /// names of its modules are registered.
    pub fn with_bazel_compat_defaults(
        &self,
        registry: &mut ExternalCellRegistry,
        current_cell_aliases: &Vec<BazelCompatCellAlias>,
        external_modules: &Vec<BazelCompatExternalModule>,
        registered_toolchains: &Vec<String>,
        bazelrc_options: &BazelCompatBazelrcOptions,
    ) -> (r: Self)
        requires
            config_resolved(self.deep_view()),
        ensures
            r.deep_view() == with_compat_defaults(
                self.deep_view(),
                current_cell_aliases.deep_view(),
                external_modules.deep_view(),
                registered_toolchains.deep_view(),
                bazelrc_options.deep_view(),
            ),
            final(registry).canonical_repo_names.deep_view() == with_module_names(
                old(registry).canonical_repo_names.deep_view(),
                external_modules.deep_view(),
                0,
            ),
            final(registry).cell_aliases == old(registry).cell_aliases,
            final(registry).origins == old(registry).origins,
            old(registry).wf() ==> final(registry).wf(),
    {
        register_module_names(registry, external_modules);
        self.with_bazel_compat_defaults_inner(
            current_cell_aliases,
            external_modules,
            registered_toolchains,
            bazelrc_options,
        )
    }

    /// The configuration of one cell with the defaults of a Bazel project.
    pub fn with_bazel_compat_cell_defaults(
        &self,
        current_cell_aliases: &Vec<BazelCompatCellAlias>,
        registered_toolchains: &Vec<String>,
        bazelrc_options: &BazelCompatBazelrcOptions,
    ) -> (r: Self)
        requires
            config_resolved(self.deep_view()),
        ensures
            r.deep_view() == with_compat_defaults(
                self.deep_view(),
                current_cell_aliases.deep_view(),
                seq![],
                registered_toolchains.deep_view(),
                bazelrc_options.deep_view(),
            ),
    {
        let none: Vec<BazelCompatExternalModule> = Vec::new();
        assert(none.deep_view() =~= seq![]);
        self.with_bazel_compat_defaults_inner(
            current_cell_aliases,
            &none,
            registered_toolchains,
            bazelrc_options,
        )
    }

    /// The configuration with the defaults that do not need the project's modules.
    pub fn with_bazel_compat_startup_defaults(&self) -> (r: Self)
        requires
            config_resolved(self.deep_view()),
        ensures
            r.deep_view() == with_compat_defaults(
                self.deep_view(),
                seq![],
                seq![],
                seq![],
                no_options(),
            ),
    {
        let aliases: Vec<BazelCompatCellAlias> = Vec::new();
        let modules: Vec<BazelCompatExternalModule> = Vec::new();
        let toolchains: Vec<String> = Vec::new();
        assert(aliases.deep_view() =~= seq![]);
        assert(modules.deep_view() =~= seq![]);
        assert(toolchains.deep_view() =~= seq![]);
        let options = empty_bazelrc_options();
        self.with_bazel_compat_defaults_inner(&aliases, &modules, &toolchains, &options)
    }
}

/// No options.
pub open spec fn no_options() -> BazelCompatBazelrcOptionsModel {
    BazelCompatBazelrcOptionsModel {
        copt: seq![],
        conlyopt: seq![],
        cxxopt: seq![],
        host_copt: seq![],
        host_conlyopt: seq![],
        host_cxxopt: seq![],
        per_file_copt: seq![],
        macos_minimum_os: seq![],
        host_macos_minimum_os: seq![],
        command_line_build_settings: seq![],
    }
}

fn no_strings() -> (r: Vec<String>)
    ensures
        r.deep_view() == Seq::<Text>::empty(),
{
    let none: Vec<String> = Vec::new();
    assert(none.deep_view() =~= Seq::<Text>::empty());
    none
}

/// No options.
pub fn empty_bazelrc_options() -> (r: BazelCompatBazelrcOptions)
    ensures
        r.deep_view() == no_options(),
{
    BazelCompatBazelrcOptions {
        copt: no_strings(),
        conlyopt: no_strings(),
        cxxopt: no_strings(),
        host_copt: no_strings(),
        host_conlyopt: no_strings(),
        host_cxxopt: no_strings(),
        per_file_copt: no_strings(),
        macos_minimum_os: no_strings(),
        host_macos_minimum_os: no_strings(),
        command_line_build_settings: no_strings(),
    }
}

/// The repository names with those of the modules from `i` on.
pub open spec fn with_module_names(
    names: Seq<(Text, Text)>,
    modules: Seq<BazelCompatExternalModuleModel>,
    i: int,
) -> Seq<(Text, Text)>
    decreases modules.len() - i,
{
    if i < 0 || i >= modules.len() {
        names
    } else {
        with_module_names(
            put::<String, Text>(names, modules[i].cell(), modules[i].canonical()),
            modules,
            i + 1,
        )
    }
}

fn register_module_names(
    registry: &mut ExternalCellRegistry,
    modules: &Vec<BazelCompatExternalModule>,
)
    ensures
        final(registry).canonical_repo_names.deep_view() == with_module_names(
            old(registry).canonical_repo_names.deep_view(),
            modules.deep_view(),
            0,
        ),
        final(registry).cell_aliases == old(registry).cell_aliases,
        final(registry).origins == old(registry).origins,
        old(registry).wf() ==> final(registry).wf(),
{
    let ghost first = registry.canonical_repo_names.deep_view();
    let ghost model = modules.deep_view();
    let mut i: usize = 0;
    while i < modules.len()
        invariant
            model == modules.deep_view(),
            0 <= i <= modules@.len(),
            registry.cell_aliases == old(registry).cell_aliases,
            registry.origins == old(registry).origins,
            old(registry).wf() ==> registry.wf(),
            with_module_names(first, model, 0) == with_module_names(
                registry.canonical_repo_names.deep_view(),
                model,
                i as int,
            ),
        decreases modules.len() - i,
    {
        assert(model[i as int] == modules@[i as int].deep_view());
        register_bzlmod_cell_canonical_repo_name_for_cell(
            registry,
            modules[i].cell_name(),
            modules[i].canonical_repo_name(),
        );
        i += 1;
    }
}

/// The options of `.bazelrc` files are kept in the section `bazel`, each under its own
/// name, with one value on each line; an option without values is not kept.
pub proof fn law_options_kept(o: BazelCompatBazelrcOptionsModel, e: Entry)
    ensures
        option_entries(o).contains(e) <==> {
            ||| o.copt.len() > 0 && e == default_entry("bazel"@, "copt"@, join(o.copt, "\n"@))
            ||| o.conlyopt.len() > 0 && e == default_entry(
                "bazel"@,
                "conlyopt"@,
                join(o.conlyopt, "\n"@),
            )
            ||| o.cxxopt.len() > 0 && e == default_entry(
                "bazel"@,
                "cxxopt"@,
                join(o.cxxopt, "\n"@),
            )
            ||| o.host_copt.len() > 0 && e == default_entry(
                "bazel"@,
                "host_copt"@,
                join(o.host_copt, "\n"@),
            )
            ||| o.host_conlyopt.len() > 0 && e == default_entry(
                "bazel"@,
                "host_conlyopt"@,
                join(o.host_conlyopt, "\n"@),
            )
            ||| o.host_cxxopt.len() > 0 && e == default_entry(
                "bazel"@,
                "host_cxxopt"@,
                join(o.host_cxxopt, "\n"@),
            )
            ||| o.per_file_copt.len() > 0 && e == default_entry(
                "bazel"@,
                "per_file_copt"@,
                join(o.per_file_copt, "\n"@),
            )
            ||| o.macos_minimum_os.len() > 0 && e == default_entry(
                "bazel"@,
                "macos_minimum_os"@,
                join(o.macos_minimum_os, "\n"@),
            )
            ||| o.host_macos_minimum_os.len() > 0 && e == default_entry(
                "bazel"@,
                "host_macos_minimum_os"@,
                join(o.host_macos_minimum_os, "\n"@),
            )
            ||| o.command_line_build_settings.len() > 0 && e == default_entry(
                "bazel"@,
                "command_line_build_settings"@,
                join(o.command_line_build_settings, "\n"@),
            )
        },
{
    let a0 = Seq::<Entry>::empty();
    let a1 = a0 + list_entry("copt"@, o.copt, "\n"@);
    let a2 = a1 + list_entry("conlyopt"@, o.conlyopt, "\n"@);
    let a3 = a2 + list_entry("cxxopt"@, o.cxxopt, "\n"@);
    let a4 = a3 + list_entry("host_copt"@, o.host_copt, "\n"@);
    let a5 = a4 + list_entry("host_conlyopt"@, o.host_conlyopt, "\n"@);
    let a6 = a5 + list_entry("host_cxxopt"@, o.host_cxxopt, "\n"@);
    let a7 = a6 + list_entry("per_file_copt"@, o.per_file_copt, "\n"@);
    let a8 = a7 + list_entry("macos_minimum_os"@, o.macos_minimum_os, "\n"@);
    let a9 = a8 + list_entry("host_macos_minimum_os"@, o.host_macos_minimum_os, "\n"@);
    lemma_entry_behind(a0, "copt"@, o.copt, e);
    lemma_entry_behind(a1, "conlyopt"@, o.conlyopt, e);
    lemma_entry_behind(a2, "cxxopt"@, o.cxxopt, e);
    lemma_entry_behind(a3, "host_copt"@, o.host_copt, e);
    lemma_entry_behind(a4, "host_conlyopt"@, o.host_conlyopt, e);
    lemma_entry_behind(a5, "host_cxxopt"@, o.host_cxxopt, e);
    lemma_entry_behind(a6, "per_file_copt"@, o.per_file_copt, e);
    lemma_entry_behind(a7, "macos_minimum_os"@, o.macos_minimum_os, e);
    lemma_entry_behind(a8, "host_macos_minimum_os"@, o.host_macos_minimum_os, e);
    lemma_entry_behind(a9, "command_line_build_settings"@, o.command_line_build_settings, e);
}

proof fn lemma_entry_behind(before: Seq<Entry>, key: Text, values: Seq<Text>, e: Entry)
    ensures
        (before + list_entry(key, values, "\n"@)).contains(e) <==> before.contains(e) || (
        values.len() > 0 && e == default_entry("bazel"@, key, join(values, "\n"@))),
{
    let more = list_entry(key, values, "\n"@);
    let all = before + more;
    if before.contains(e) {
        let i = choose|i: int| 0 <= i < before.len() && before[i] == e;
        assert(all[i] == e);
    }
    if values.len() > 0 {
        assert(all[before.len() as int] == default_entry("bazel"@, key, join(values, "\n"@)));
    }
    if all.contains(e) {
        let i = choose|i: int| 0 <= i < all.len() && all[i] == e;
        if i < before.len() {
            assert(before[i] == e);
        }
    }
}

/// The root cell is the one that `root` is an alias of, where that is a cell; else the first
/// cell at the root of the project; and else it is called `root`.
pub proof fn law_root_cell(config: ConfigItems, cells: SectionItems)
    requires
        lookup(config, "cells"@) == Some(cells),
    ensures
        config_value(config, "cell_aliases"@, "root"@) matches Some(name) ==> lookup(cells, name)
            is Some ==> configured_root(config) == Some(name),
        config_value(config, "cell_aliases"@, "root"@) is None && config_value(
            config,
            "repository_aliases"@,
            "root"@,
        ) is None ==> match configured_root(config) {
            Some(name) => exists|i: int|
                {
                    &&& 0 <= i < cells.len() && (#[trigger] cells[i]).0 == name
                    &&& cells[i].1.text() == "."@
                    &&& forall|j: int| 0 <= j < i ==> (#[trigger] cells[j]).1.text() != "."@
                },
            None => forall|j: int| 0 <= j < cells.len() ==> (#[trigger] cells[j]).1.text() != "."@,
        },
        root_or_default(None) == "root"@,
{
    lemma_root_path(cells, 0);
}

proof fn lemma_root_path(cells: SectionItems, i: int)
    requires
        0 <= i <= cells.len(),
    ensures
        match root_path_name(cells, i) {
            Some(name) => exists|k: int|
                {
                    &&& i <= k < cells.len() && (#[trigger] cells[k]).0 == name
                    &&& cells[k].1.text() == "."@
                    &&& forall|j: int| i <= j < k ==> (#[trigger] cells[j]).1.text() != "."@
                },
            None => forall|j: int| i <= j < cells.len() ==> (#[trigger] cells[j]).1.text() != "."@,
        },
    decreases cells.len() - i,
{
    if i < cells.len() {
        if cells[i].1.text() == "."@ {
            assert(cells[i].0 == root_path_name(cells, i)->0);
        } else {
            lemma_root_path(cells, i + 1);
            if let Some(name) = root_path_name(cells, i + 1) {
                let k = choose|k: int|
                    {
                        &&& i + 1 <= k < cells.len() && (#[trigger] cells[k]).0 == name
                        &&& cells[k].1.text() == "."@
                        &&& forall|j: int| i + 1 <= j < k ==> (#[trigger] cells[j]).1.text() != "."@
                    };
                assert(cells[k].0 == name);
            }
        }
    }
}

} // verus!
